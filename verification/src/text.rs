//! Numbers written out as text.

use vstd::prelude::*;
use vstd::string::*;

verus! {

/// The character for one digit, in lower case from ten on.
pub open spec fn digit(d: nat) -> char {
    if d == 0 {
        '0'
    } else if d == 1 {
        '1'
    } else if d == 2 {
        '2'
    } else if d == 3 {
        '3'
    } else if d == 4 {
        '4'
    } else if d == 5 {
        '5'
    } else if d == 6 {
        '6'
    } else if d == 7 {
        '7'
    } else if d == 8 {
        '8'
    } else if d == 9 {
        '9'
    } else if d == 10 {
        'a'
    } else if d == 11 {
        'b'
    } else if d == 12 {
        'c'
    } else if d == 13 {
        'd'
    } else if d == 14 {
        'e'
    } else {
        'f'
    }
}

/// A number in decimal, without leading zeros.
pub open spec fn decimal_text(n: nat) -> Seq<char>
    decreases n,
{
    if n < 10 {
        seq![digit(n)]
    } else {
        decimal_text(n / 10).push(digit(n % 10))
    }
}

/// The last `width` hex digits of a number, in lower case.
pub open spec fn hex_text(n: nat, width: nat) -> Seq<char>
    decreases width,
{
    if width == 0 {
        Seq::empty()
    } else {
        hex_text(n / 16, (width - 1) as nat).push(digit(n % 16))
    }
}

/// No digit is a path separator.
pub proof fn lemma_digits_plain(n: nat, width: nat)
    ensures
        forall|i: int| 0 <= i < decimal_text(n).len() ==> decimal_text(n)[i] != '/',
        forall|i: int| 0 <= i < hex_text(n, width).len() ==> hex_text(n, width)[i] != '/',
{
    lemma_decimal_plain(n);
    lemma_hex_plain(n, width);
}

proof fn lemma_decimal_plain(n: nat)
    ensures
        forall|i: int| 0 <= i < decimal_text(n).len() ==> decimal_text(n)[i] != '/',
    decreases n,
{
    if n >= 10 {
        lemma_decimal_plain(n / 10);
        let init = decimal_text(n / 10);
        assert forall|i: int| 0 <= i < decimal_text(n).len() implies decimal_text(n)[i]
            != '/' by {
            if i < init.len() {
                assert(decimal_text(n)[i] == init[i]);
            } else {
                assert(decimal_text(n)[i] == digit(n % 10));
            }
        }
    }
}

proof fn lemma_hex_plain(n: nat, width: nat)
    ensures
        forall|i: int| 0 <= i < hex_text(n, width).len() ==> hex_text(n, width)[i] != '/',
    decreases width,
{
    if width > 0 {
        lemma_hex_plain(n / 16, (width - 1) as nat);
        let init = hex_text(n / 16, (width - 1) as nat);
        assert forall|i: int| 0 <= i < hex_text(n, width).len() implies hex_text(n, width)[i]
            != '/' by {
            if i < init.len() {
                assert(hex_text(n, width)[i] == init[i]);
            } else {
                assert(hex_text(n, width)[i] == digit(n % 16));
            }
        }
    }
}

fn digit_str(d: u64) -> (s: &'static str)
    requires
        d < 16,
    ensures
        s@ == seq![digit(d as nat)],
{
    proof {
        reveal_strlit("0");
        reveal_strlit("1");
        reveal_strlit("2");
        reveal_strlit("3");
        reveal_strlit("4");
        reveal_strlit("5");
        reveal_strlit("6");
        reveal_strlit("7");
        reveal_strlit("8");
        reveal_strlit("9");
        reveal_strlit("a");
        reveal_strlit("b");
        reveal_strlit("c");
        reveal_strlit("d");
        reveal_strlit("e");
        reveal_strlit("f");
    }
    let s = if d == 0 {
        "0"
    } else if d == 1 {
        "1"
    } else if d == 2 {
        "2"
    } else if d == 3 {
        "3"
    } else if d == 4 {
        "4"
    } else if d == 5 {
        "5"
    } else if d == 6 {
        "6"
    } else if d == 7 {
        "7"
    } else if d == 8 {
        "8"
    } else if d == 9 {
        "9"
    } else if d == 10 {
        "a"
    } else if d == 11 {
        "b"
    } else if d == 12 {
        "c"
    } else if d == 13 {
        "d"
    } else if d == 14 {
        "e"
    } else {
        "f"
    };
    assert(s@ =~= seq![digit(d as nat)]);
    s
}

/// Writes `n` in decimal.
pub fn decimal(n: u64) -> (s: String)
    ensures
        s@ == decimal_text(n as nat),
    decreases n,
{
    if n < 10 {
        String::from_str(digit_str(n))
    } else {
        let mut s = decimal(n / 10);
        s.append(digit_str(n % 10));
        assert(s@ =~= decimal_text(n as nat));
        s
    }
}

/// Writes the last `width` hex digits of `n`, in lower case.
pub fn hex(n: u64, width: u8) -> (s: String)
    ensures
        s@ == hex_text(n as nat, width as nat),
    decreases width,
{
    if width == 0 {
        String::new()
    } else {
        let mut s = hex(n / 16, width - 1);
        s.append(digit_str(n % 16));
        assert(s@ =~= hex_text(n as nat, width as nat));
        s
    }
}

} // verus!
