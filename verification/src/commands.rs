//! The command processor: interprets slash-commands from the command channel.

use vstd::prelude::*;
use vstd::string::StrSliceExecFns;
use vstd::string::StringExecFns;

use crate::registry::RegistryError;
use crate::registry::RoomRegistry;
use crate::user::User;
use crate::util::dec_digits;
use crate::util::u64_to_string;

verus! {

/// The position of the first space at or after `from`, or the text's length.
pub open spec fn first_space(s: Seq<char>, from: int) -> int
    decreases s.len() - from,
{
    if from < 0 || from >= s.len() {
        s.len() as int
    } else if s[from] == ' ' {
        from
    } else {
        first_space(s, from + 1)
    }
}

/// The command's verb: everything before the first space.
pub open spec fn verb_of(s: Seq<char>) -> Seq<char> {
    s.subrange(0, first_space(s, 0))
}

/// The command's first argument: the token between the first space and the
/// second, if there is a first space at all.
pub open spec fn arg_of(s: Seq<char>) -> Option<Seq<char>> {
    let v = first_space(s, 0);
    if v == s.len() {
        None
    } else {
        Some(s.subrange(v + 1, first_space(s, v + 1)))
    }
}

proof fn lemma_first_space_bounds(s: Seq<char>, from: int)
    requires
        0 <= from <= s.len(),
    ensures
        from <= first_space(s, from) <= s.len(),
    decreases s.len() - from,
{
    if from < s.len() && s[from] != ' ' {
        lemma_first_space_bounds(s, from + 1);
    }
}

fn find_space(s: &str, from: usize) -> (r: usize)
    requires
        from <= s@.len(),
    ensures
        r as int == first_space(s@, from as int),
        from <= r <= s@.len(),
{
    let n = s.unicode_len();
    let mut i = from;
    while i < n
        invariant
            from <= i <= n,
            n == s@.len(),
            first_space(s@, from as int) == first_space(s@, i as int),
        decreases n - i,
    {
        if s.get_char(i) == ' ' {
            proof {
                assert(first_space(s@, i as int) == i);
            }
            return i;
        }
        i = i + 1;
    }
    proof {
        assert(first_space(s@, i as int) == s@.len());
    }
    i
}

/// What the command processor decides for one command message: at most one
/// reply into the sender's own private inbox, at most one room name forwarded
/// on the room-migration channel, and at most one locally printed diagnostic.
pub struct CommandOutcome {
    pub reply: Option<String>,
    pub move_to: Option<String>,
    pub diagnostic: Option<String>,
}

/// The occupant listing that `/who` produces: each occupant's identity in
/// decimal, each followed by a newline, in occupant order.
pub open spec fn roster(occs: Seq<User>) -> Seq<char>
    decreases occs.len(),
{
    if occs.len() == 0 {
        Seq::empty()
    } else {
        roster(occs.drop_last()) + dec_digits(occs.last().id as nat) + seq!['\n']
    }
}

fn occupant_roster(occs: &Vec<User>) -> (r: String)
    ensures
        r@ == roster(occs@),
{
    let mut s = String::new();
    let mut i: usize = 0;
    while i < occs.len()
        invariant
            i <= occs@.len(),
            s@ == roster(occs@.subrange(0, i as int)),
        decreases occs@.len() - i,
    {
        let line = u64_to_string(occs[i].id);
        s.append(line.as_str());
        s.append("\n");
        proof {
            reveal_strlit("\n");
            let cur = occs@.subrange(0, i + 1 as int);
            assert(cur.drop_last() =~= occs@.subrange(0, i as int));
            assert(s@ =~= roster(cur));
        }
        i = i + 1;
    }
    proof {
        assert(occs@.subrange(0, occs@.len() as int) =~= occs@);
    }
    s
}

/// Relies on `chrono::Utc::now` for the current UTC instant, and on chrono's
/// `Display` for a UTC timestamp, which always writes a date, a space and the
/// offset: the text is never empty. The value depends on the clock, so nothing
/// more is promised of it.
#[verifier::external_body]
fn utc_now_string() -> (r: String)
    ensures
        r@.len() > 0,
{
    chrono::Utc::now().to_string()
}

/// What the command processor owes for each command text `s`: `/time` replies
/// with a (non-empty) timestamp; `/mv` with an argument forwards that room
/// name to the migration channel, and without one replies that the argument is
/// missing; `/who` and `/crm` produce diagnostics (the sender's room's
/// occupant listing, and the sender's room key in decimal); anything else is
/// answered "No such command".
pub open spec fn outcome_spec(
    reg: RoomRegistry,
    sender: u64,
    s: Seq<char>,
    o: CommandOutcome,
) -> bool {
    let verb = verb_of(s);
    if verb == "/time"@ {
        &&& o.move_to is None
        &&& o.diagnostic is None
        &&& o.reply matches Some(m) && m@.len() > 0
    } else if verb == "/mv"@ {
        match arg_of(s) {
            Some(a) => {
                &&& o.reply is None
                &&& o.diagnostic is None
                &&& o.move_to matches Some(name) && name@ == a
            },
            None => {
                &&& o.move_to is None
                &&& o.diagnostic is None
                &&& o.reply matches Some(m) && m@ == "Missing argument"@
            },
        }
    } else if verb == "/who"@ {
        &&& o.reply is None
        &&& o.move_to is None
        &&& o.diagnostic matches Some(d) && d@ == roster(reg.user_room(sender).occupants@)
    } else if verb == "/crm"@ {
        &&& o.reply is None
        &&& o.move_to is None
        &&& o.diagnostic matches Some(d) && d@ == dec_digits(reg.spec_user(sender).room as nat)
    } else {
        &&& o.move_to is None
        &&& o.diagnostic is None
        &&& o.reply matches Some(m) && m@ == "No such command"@
    }
}

/// Interprets one command message from `sender`. The sender must stand in its
/// own room's occupant set; a sender found nowhere is a consistency violation,
/// reported as `UserNotFound` so the caller can log it and drop the message.
pub fn parse_command(registry: &RoomRegistry, sender: u64, cmd: &str) -> (r: Result<
    CommandOutcome,
    RegistryError,
>)
    requires
        registry.wf(),
    ensures
        match r {
            Ok(o) => registry.has_user(sender) && outcome_spec(*registry, sender, cmd@, o),
            Err(e) => e == RegistryError::UserNotFound && !registry.has_user(sender),
        },
{
    let loc = match registry.locate_user(sender) {
        Some(p) => p,
        None => {
            return Err(RegistryError::UserNotFound);
        },
    };
    let (i, j) = loc;
    proof {
        registry.lemma_user_room_unique(sender, i as int);
        registry.rooms@[i as int].lemma_user_idx_unique(sender, j as int);
    }
    let n = cmd.unicode_len();
    let v = find_space(cmd, 0);
    let verb = cmd.substring_char(0, v);
    let verb_s = String::from_str(verb);
    if verb_s == String::from_str("/time") {
        Ok(CommandOutcome { reply: Some(utc_now_string()), move_to: None, diagnostic: None })
    } else if verb_s == String::from_str("/mv") {
        if v < n {
            proof {
                lemma_first_space_bounds(cmd@, v + 1);
            }
            let a_end = find_space(cmd, v + 1);
            let arg = cmd.substring_char(v + 1, a_end);
            Ok(
                CommandOutcome {
                    reply: None,
                    move_to: Some(String::from_str(arg)),
                    diagnostic: None,
                },
            )
        } else {
            Ok(
                CommandOutcome {
                    reply: Some(String::from_str("Missing argument")),
                    move_to: None,
                    diagnostic: None,
                },
            )
        }
    } else if verb_s == String::from_str("/who") {
        let d = occupant_roster(&registry.rooms[i].occupants);
        Ok(CommandOutcome { reply: None, move_to: None, diagnostic: Some(d) })
    } else if verb_s == String::from_str("/crm") {
        let d = u64_to_string(registry.rooms[i].occupants[j].room);
        Ok(CommandOutcome { reply: None, move_to: None, diagnostic: Some(d) })
    } else {
        Ok(
            CommandOutcome {
                reply: Some(String::from_str("No such command")),
                move_to: None,
                diagnostic: None,
            },
        )
    }
}


/// Whitespace for the purposes of trimming a message.
pub open spec fn is_space_char(c: char) -> bool {
    c == ' ' || c == '\n' || c == '\t' || c == '\r'
}

/// The position of the first non-whitespace character at or after `from`, or
/// the text's length.
pub open spec fn trim_start(s: Seq<char>, from: int) -> int
    decreases s.len() - from,
{
    if from < 0 || from >= s.len() {
        s.len() as int
    } else if is_space_char(s[from]) {
        trim_start(s, from + 1)
    } else {
        from
    }
}

/// The position just after the last non-whitespace character before `upto`,
/// or zero.
pub open spec fn trim_end(s: Seq<char>, upto: int) -> int
    decreases upto,
{
    if upto <= 0 {
        0
    } else if is_space_char(s[upto - 1]) {
        trim_end(s, upto - 1)
    } else {
        upto
    }
}

/// The text with leading and trailing whitespace removed.
pub open spec fn trimmed(s: Seq<char>) -> Seq<char> {
    let a = trim_start(s, 0);
    let b = trim_end(s, s.len() as int);
    if a < b {
        s.subrange(a, b)
    } else {
        Seq::empty()
    }
}

proof fn lemma_trim_end_bounds(s: Seq<char>, upto: int)
    ensures
        trim_end(s, upto) <= upto || upto < 0,
        0 <= trim_end(s, upto),
    decreases upto,
{
    if upto > 0 && is_space_char(s[upto - 1]) {
        lemma_trim_end_bounds(s, upto - 1);
    }
}

fn is_space(c: char) -> (b: bool)
    ensures
        b == is_space_char(c),
{
    c == ' ' || c == '\n' || c == '\t' || c == '\r'
}

fn trim_str(s: &str) -> (t: &str)
    ensures
        t@ == trimmed(s@),
{
    let n = s.unicode_len();
    let mut a: usize = 0;
    while a < n && is_space(s.get_char(a))
        invariant
            a <= n,
            n == s@.len(),
            trim_start(s@, 0) == trim_start(s@, a as int),
        decreases n - a,
    {
        a = a + 1;
    }
    if a == n {
        proof {
            reveal_strlit("");
            lemma_trim_end_bounds(s@, s@.len() as int);
            assert(trim_start(s@, a as int) == s@.len());
            assert(""@ =~= trimmed(s@));
        }
        return "";
    }
    proof {
        assert(trim_start(s@, 0) == a);
    }
    let mut b: usize = n;
    while b > a && is_space(s.get_char(b - 1))
        invariant
            a < b <= n,
            n == s@.len(),
            a == trim_start(s@, 0),
            a < s@.len() && !is_space_char(s@[a as int]),
            trim_end(s@, n as int) == trim_end(s@, b as int),
        decreases b,
    {
        b = b - 1;
    }
    proof {
        assert(trim_end(s@, b as int) == b);
    }
    s.substring_char(a, b)
}

/// The canned reply for one inbound message: "lol" is very funny, "help" is
/// refused, anything else is taken badly. The message is trimmed first.
pub open spec fn response_spec(s: Seq<char>) -> Seq<char> {
    if trimmed(s) == "lol"@ {
        "very funny\n"@
    } else if trimmed(s) == "help"@ {
        "absolutely not"@
    } else {
        "fine be like that\n"@
    }
}

/// Picks the canned reply for one inbound text message.
pub fn determine_response(msg: &str) -> (r: String)
    ensures
        r@ == response_spec(msg@),
{
    let t = trim_str(msg);
    let ts = String::from_str(t);
    if ts == String::from_str("lol") {
        String::from_str("very funny\n")
    } else if ts == String::from_str("help") {
        String::from_str("absolutely not")
    } else {
        String::from_str("fine be like that\n")
    }
}

} // verus!
