//! Reading a typed identifier as a position in a listing.

use vstd::prelude::*;
use vstd::string::*;
use crate::text::to_chars;

verus! {

/// `c` is one of the ten decimal digits.
pub open spec fn is_digit(c: char) -> bool {
    48 <= (c as u32) <= 57
}

/// The number a decimal digit stands for.
pub open spec fn digit_of(c: char) -> nat {
    ((c as u32) - 48) as nat
}

/// Every character is a decimal digit.
pub open spec fn all_digits(s: Seq<char>) -> bool {
    forall|i: int| 0 <= i < s.len() ==> is_digit(#[trigger] s[i])
}

/// The number that a run of decimal digits writes.
pub open spec fn decimal(s: Seq<char>) -> nat
    decreases s.len(),
{
    if s.len() == 0 {
        0
    } else {
        decimal(s.drop_last()) * 10 + digit_of(s.last())
    }
}

/// The text without one leading plus sign, if it has one.
pub open spec fn unsigned_part(s: Seq<char>) -> Seq<char> {
    if s.len() > 0 && (s[0] as u32) == 43 {
        s.subrange(1, s.len() as int)
    } else {
        s
    }
}

/// The position that a text writes: an optional plus sign, then one or more
/// decimal digits whose number is at least 1. Any other text writes none;
/// zero is no position.
pub open spec fn position_of(s: Seq<char>) -> Option<nat> {
    let d = unsigned_part(s);
    if d.len() > 0 && all_digits(d) && decimal(d) >= 1 {
        Some(decimal(d))
    } else {
        None
    }
}

/// A position as a machine can hold it.
#[derive(Clone, Copy, Debug, PartialEq, Eq, Structural)]
pub enum Position {
    /// The text writes no position.
    Absent,
    /// The text writes this position, counted from 1.
    At(usize),
    /// The text writes a position beyond every machine word, and so beyond
    /// every listing.
    Beyond,
}

/// How a position is held: as it is where it fits the machine word.
pub open spec fn placed(p: Option<nat>) -> Position {
    match p {
        None => Position::Absent,
        Some(n) => if n <= usize::MAX {
            Position::At(n as usize)
        } else {
            Position::Beyond
        },
    }
}

/// A longer run of digits writes no smaller number than its beginning.
pub proof fn lemma_decimal_prefix(s: Seq<char>, k: int)
    requires
        0 <= k <= s.len(),
    ensures
        decimal(s.take(k)) <= decimal(s),
    decreases s.len(),
{
    if k == s.len() {
        assert(s.take(k) =~= s);
    } else {
        lemma_decimal_prefix(s.drop_last(), k);
        assert(s.drop_last().take(k) =~= s.take(k));
    }
}

/// Reads `s` as a position.
pub fn parse_position(s: &str) -> (r: Position)
    ensures
        r == placed(position_of(s@)),
{
    let v = to_chars(s);
    let start: usize = if v.len() > 0 && (v[0] as u32) == 43 {
        1
    } else {
        0
    };
    if start == v.len() {
        return Position::Absent;
    }
    let ghost d = unsigned_part(v@);
    let mut j: usize = start;
    while j < v.len()
        invariant
            start <= j <= v.len(),
            v@ == s@,
            d == unsigned_part(v@),
            d == v@.subrange(start as int, v@.len() as int),
            forall|k: int| 0 <= k < j - start ==> is_digit(#[trigger] d[k]),
        decreases v.len() - j,
    {
        let c: u32 = v[j] as u32;
        if c < 48 || c > 57 {
            proof {
                assert(!is_digit(d[j - start]));
            }
            return Position::Absent;
        }
        j += 1;
    }
    let mut acc: usize = 0;
    let mut i: usize = start;
    proof {
        assert(d.take(0) =~= Seq::<char>::empty());
    }
    while i < v.len()
        invariant
            start <= i <= v.len(),
            v@ == s@,
            d == unsigned_part(v@),
            d == v@.subrange(start as int, v@.len() as int),
            d.len() > 0,
            all_digits(d),
            acc == decimal(d.take(i - start)),
        decreases v.len() - i,
    {
        proof {
            assert(is_digit(d[i - start]));
        }
        let digit: usize = ((v[i] as u32) - 48) as usize;
        proof {
            let next = d.take(i + 1 - start);
            assert(next.drop_last() =~= d.take(i - start));
            assert(next.last() == d[i - start]);
            assert(decimal(next) == acc * 10 + digit);
            lemma_decimal_prefix(d, i + 1 - start);
        }
        if acc > (usize::MAX - digit) / 10 {
            return Position::Beyond;
        }
        acc = acc * 10 + digit;
        i += 1;
    }
    proof {
        assert(d.take(i - start) =~= d);
    }
    if acc == 0 {
        Position::Absent
    } else {
        Position::At(acc)
    }
}

/// The character that writes the digit `d`.
pub open spec fn digit_char(d: nat) -> char {
    if d == 0 {
        '0'
    } else if d == 1 {
        '1'
    } else if d == 2 {
        '2'
    } else if d == 3 {
        '3'
    } else if d == 4 {
        '4'
    } else if d == 5 {
        '5'
    } else if d == 6 {
        '6'
    } else if d == 7 {
        '7'
    } else if d == 8 {
        '8'
    } else {
        '9'
    }
}

/// The decimal digits of `n`, without leading zeros.
pub open spec fn decimal_digits(n: nat) -> Seq<char>
    decreases n,
{
    if n < 10 {
        seq![digit_char(n)]
    } else {
        decimal_digits(n / 10).push(digit_char(n % 10))
    }
}

/// The digits of a number write that number.
pub proof fn lemma_decimal_digits(n: nat)
    ensures
        decimal_digits(n).len() > 0,
        all_digits(decimal_digits(n)),
        decimal(decimal_digits(n)) == n,
    decreases n,
{
    let ds = decimal_digits(n);
    if n < 10 {
        assert(ds.drop_last() =~= Seq::<char>::empty());
        assert(ds.last() == digit_char(n));
        assert(decimal(ds.drop_last()) == 0);
    } else {
        lemma_decimal_digits(n / 10);
        assert(ds.drop_last() =~= decimal_digits(n / 10));
        assert(ds.last() == digit_char(n % 10));
    }
}

/// The text of one decimal digit.
fn digit_text(d: usize) -> (out: &'static str)
    requires
        d < 10,
    ensures
        out@ == seq![digit_char(d as nat)],
{
    proof {
        reveal_strlit("0");
        reveal_strlit("1");
        reveal_strlit("2");
        reveal_strlit("3");
        reveal_strlit("4");
        reveal_strlit("5");
        reveal_strlit("6");
        reveal_strlit("7");
        reveal_strlit("8");
        reveal_strlit("9");
    }
    let out = if d == 0 {
        "0"
    } else if d == 1 {
        "1"
    } else if d == 2 {
        "2"
    } else if d == 3 {
        "3"
    } else if d == 4 {
        "4"
    } else if d == 5 {
        "5"
    } else if d == 6 {
        "6"
    } else if d == 7 {
        "7"
    } else if d == 8 {
        "8"
    } else {
        "9"
    };
    proof {
        assert(out@ =~= seq![digit_char(d as nat)]);
    }
    out
}

/// Writes `n` in decimal digits.
pub fn position_text(n: usize) -> (out: String)
    ensures
        out@ == decimal_digits(n as nat),
    decreases n,
{
    if n < 10 {
        digit_text(n).to_owned()
    } else {
        let mut out = position_text(n / 10);
        out.append(digit_text(n % 10));
        proof {
            assert(out@ =~= decimal_digits(n as nat));
        }
        out
    }
}

} // verus!
