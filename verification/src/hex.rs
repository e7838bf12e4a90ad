//! Lowercase hexadecimal rendering of 64-bit values, used for the
//! random component of a record identifier.

use vstd::prelude::*;
use vstd::string::StringExecFns;

verus! {

/// The lowercase hexadecimal digit for a value below sixteen.
pub open spec fn spec_hex_char(d: nat) -> char {
    if d == 0 {
        '0'
    } else if d == 1 {
        '1'
    } else if d == 2 {
        '2'
    } else if d == 3 {
        '3'
    } else if d == 4 {
        '4'
    } else if d == 5 {
        '5'
    } else if d == 6 {
        '6'
    } else if d == 7 {
        '7'
    } else if d == 8 {
        '8'
    } else if d == 9 {
        '9'
    } else if d == 10 {
        'a'
    } else if d == 11 {
        'b'
    } else if d == 12 {
        'c'
    } else if d == 13 {
        'd'
    } else if d == 14 {
        'e'
    } else {
        'f'
    }
}

/// The lowercase hexadecimal rendering of `n`, without leading zeros
/// (a single `'0'` for zero itself).
pub open spec fn spec_hex(n: nat) -> Seq<char>
    decreases n,
{
    if n < 16 {
        seq![spec_hex_char(n)]
    } else {
        spec_hex(n / 16) + seq![spec_hex_char(n % 16)]
    }
}

/// A rendering is never empty, and has a single digit exactly for
/// values below sixteen.
pub proof fn lemma_spec_hex_len(n: nat)
    ensures
        spec_hex(n).len() >= 1,
        n < 16 <==> spec_hex(n).len() == 1,
    decreases n,
{
    if n >= 16 {
        lemma_spec_hex_len(n / 16);
    }
}

/// Distinct values render to distinct digit sequences.
pub proof fn lemma_spec_hex_injective(a: nat, b: nat)
    requires
        spec_hex(a) == spec_hex(b),
    ensures
        a == b,
    decreases a,
{
    lemma_spec_hex_len(a);
    lemma_spec_hex_len(b);
    if a < 16 && b < 16 {
        assert(spec_hex(a) == seq![spec_hex_char(a)]);
        assert(spec_hex(b) == seq![spec_hex_char(b)]);
        assert(seq![spec_hex_char(a)][0] == spec_hex_char(a));
        assert(seq![spec_hex_char(b)][0] == spec_hex_char(b));
        assert(spec_hex_char(a) == spec_hex_char(b));
        assert(a == b);
    } else if a >= 16 && b >= 16 {
        let pa = spec_hex(a / 16);
        let pb = spec_hex(b / 16);
        let sa = spec_hex(a);
        let sb = spec_hex(b);
        assert(sa.len() == pa.len() + 1);
        assert(sb.len() == pb.len() + 1);
        assert(sa[sa.len() - 1] == spec_hex_char(a % 16));
        assert(sb[sb.len() - 1] == spec_hex_char(b % 16));
        assert(a % 16 == b % 16);
        assert(pa =~= sa.subrange(0, sa.len() - 1));
        assert(pb =~= sb.subrange(0, sb.len() - 1));
        lemma_spec_hex_injective(a / 16, b / 16);
        vstd::arithmetic::div_mod::lemma_fundamental_div_mod(a as int, 16);
        vstd::arithmetic::div_mod::lemma_fundamental_div_mod(b as int, 16);
        assert(a == 16 * (a / 16) + a % 16);
        assert(b == 16 * (b / 16) + b % 16);
        assert(a == b);
    } else {
        assert(spec_hex(a).len() == spec_hex(b).len());
        assert(false);
    }
}

/// The digit string for one value below sixteen.
fn hex_digit_str(d: u64) -> (r: &'static str)
    requires
        d < 16,
    ensures
        r@ == seq![spec_hex_char(d as nat)],
{
    proof {
        reveal_strlit("0");
        reveal_strlit("1");
        reveal_strlit("2");
        reveal_strlit("3");
        reveal_strlit("4");
        reveal_strlit("5");
        reveal_strlit("6");
        reveal_strlit("7");
        reveal_strlit("8");
        reveal_strlit("9");
        reveal_strlit("a");
        reveal_strlit("b");
        reveal_strlit("c");
        reveal_strlit("d");
        reveal_strlit("e");
        reveal_strlit("f");
    }
    let r: &'static str = if d == 0 {
        "0"
    } else if d == 1 {
        "1"
    } else if d == 2 {
        "2"
    } else if d == 3 {
        "3"
    } else if d == 4 {
        "4"
    } else if d == 5 {
        "5"
    } else if d == 6 {
        "6"
    } else if d == 7 {
        "7"
    } else if d == 8 {
        "8"
    } else if d == 9 {
        "9"
    } else if d == 10 {
        "a"
    } else if d == 11 {
        "b"
    } else if d == 12 {
        "c"
    } else if d == 13 {
        "d"
    } else if d == 14 {
        "e"
    } else {
        "f"
    };
    proof {
        assert(r@ =~= seq![spec_hex_char(d as nat)]);
    }
    r
}

/// Renders `n` in lowercase hexadecimal.
pub fn u64_to_hex(n: u64) -> (r: String)
    ensures
        r@ == spec_hex(n as nat),
    decreases n,
{
    if n < 16 {
        let r = String::from_str(hex_digit_str(n));
        proof {
            assert(r@ =~= spec_hex(n as nat));
        }
        r
    } else {
        let mut r = u64_to_hex(n / 16);
        r.append(hex_digit_str(n % 16));
        proof {
            assert(r@ =~= spec_hex(n as nat));
        }
        r
    }
}

} // verus!
