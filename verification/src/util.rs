//! Room-key derivation and small string helpers.

use std::collections::hash_map::DefaultHasher;
use std::hash::Hasher;

use vstd::prelude::*;
use vstd::std_specs::hash::DefaultHasherAdditionalSpecFns;
use vstd::string::StringExecFns;
use vstd::utf8::encode_utf8;

verus! {

/// The key of a room, derived deterministically from its name: the 64-bit
/// digest that the standard hasher produces from the name's UTF-8 bytes.
/// Two equal names always map to the same key; distinct names may collide,
/// which is accepted and treated as the same room.
pub closed spec fn key_of(name: Seq<char>) -> u64 {
    DefaultHasher::spec_finish(seq![encode_utf8(name)])
}

/// Derives the 64-bit room key of a room name.
pub fn hash(to_be_hashed: String) -> (r: u64)
    ensures
        r == key_of(to_be_hashed@),
{
    let mut hasher = DefaultHasher::new();
    hasher.write(to_be_hashed.as_str().as_bytes());
    proof {
        assert(hasher@ =~= seq![encode_utf8(to_be_hashed@)]);
    }
    hasher.finish()
}

/// The character for one decimal digit.
pub open spec fn digit_char(d: nat) -> char {
    if d == 0 {
        '0'
    } else if d == 1 {
        '1'
    } else if d == 2 {
        '2'
    } else if d == 3 {
        '3'
    } else if d == 4 {
        '4'
    } else if d == 5 {
        '5'
    } else if d == 6 {
        '6'
    } else if d == 7 {
        '7'
    } else if d == 8 {
        '8'
    } else {
        '9'
    }
}

/// The decimal representation of a number, most significant digit first,
/// without leading zeroes (a single `'0'` for zero).
pub open spec fn dec_digits(n: nat) -> Seq<char>
    decreases n,
{
    if n < 10 {
        seq![digit_char(n)]
    } else {
        dec_digits(n / 10).push(digit_char(n % 10))
    }
}

fn digit_str(d: u64) -> (r: &'static str)
    requires
        d < 10,
    ensures
        r@ == seq![digit_char(d as nat)],
{
    proof {
        reveal_strlit("0");
        reveal_strlit("1");
        reveal_strlit("2");
        reveal_strlit("3");
        reveal_strlit("4");
        reveal_strlit("5");
        reveal_strlit("6");
        reveal_strlit("7");
        reveal_strlit("8");
        reveal_strlit("9");
    }
    if d == 0 {
        "0"
    } else if d == 1 {
        "1"
    } else if d == 2 {
        "2"
    } else if d == 3 {
        "3"
    } else if d == 4 {
        "4"
    } else if d == 5 {
        "5"
    } else if d == 6 {
        "6"
    } else if d == 7 {
        "7"
    } else if d == 8 {
        "8"
    } else {
        "9"
    }
}

/// Writes a number in decimal.
pub fn u64_to_string(n: u64) -> (r: String)
    ensures
        r@ == dec_digits(n as nat),
    decreases n,
{
    if n < 10 {
        String::from_str(digit_str(n))
    } else {
        let mut s = u64_to_string(n / 10);
        s.append(digit_str(n % 10));
        proof {
            assert(dec_digits((n / 10) as nat).push(digit_char((n % 10) as nat)) =~= dec_digits(
                (n / 10) as nat,
            ) + seq![digit_char((n % 10) as nat)]);
        }
        s
    }
}

/// The ANSI escape that switches the terminal's foreground to an RGB colour.
pub open spec fn rgb_spec(r: u8, g: u8, b: u8) -> Seq<char> {
    "\x1b[38;2;"@ + dec_digits(r as nat) + ";"@ + dec_digits(g as nat) + ";"@ + dec_digits(
        b as nat,
    ) + "m"@
}

/// Builds the ANSI escape that selects the given RGB foreground colour.
pub fn rgb_string(r: u8, g: u8, b: u8) -> (s: String)
    ensures
        s@ == rgb_spec(r, g, b),
{
    let mut s = String::from_str("\x1b[38;2;");
    let rs = u64_to_string(r as u64);
    s.append(rs.as_str());
    s.append(";");
    let gs = u64_to_string(g as u64);
    s.append(gs.as_str());
    s.append(";");
    let bs = u64_to_string(b as u64);
    s.append(bs.as_str());
    s.append("m");
    s
}

} // verus!
