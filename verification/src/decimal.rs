//! Decimal numerals: the text form of natural numbers, without leading zeros.

use vstd::prelude::*;
use crate::order::{is_mismatch, lemma_mismatch, mismatch};
use crate::text::{ascii_len, byte_at};

verus! {

/// Whether `c` is one of the ten ASCII decimal digits.
pub open spec fn is_digit(c: char) -> bool {
    '0' <= c <= '9'
}

/// The number that the digit `c` stands for.
pub open spec fn digit_value(c: char) -> nat
    recommends
        is_digit(c),
{
    (c as int - '0' as int) as nat
}

/// The digit that stands for `d`.
pub open spec fn digit_char(d: nat) -> char
    recommends
        d < 10,
{
    (d + '0' as nat) as char
}

/// Whether every element of `s` is a decimal digit.
pub open spec fn all_digits(s: Seq<char>) -> bool {
    forall|i: int| 0 <= i < s.len() ==> is_digit(#[trigger] s[i])
}

/// The number that a run of digits denotes, most significant digit first.
/// The empty run denotes zero.
pub open spec fn decimal_value(s: Seq<char>) -> nat
    decreases s.len(),
{
    if s.len() == 0 {
        0
    } else {
        10 * decimal_value(s.drop_last()) + digit_value(s.last())
    }
}

/// Whether `s` is a numeral: a non-empty run of digits that does not start
/// with a superfluous zero.
pub open spec fn is_numeral(s: Seq<char>) -> bool {
    &&& s.len() > 0
    &&& all_digits(s)
    &&& s.len() > 1 ==> s[0] != '0'
}

/// The numeral of `n`.
pub open spec fn numeral(n: nat) -> Seq<char>
    decreases n,
{
    if n < 10 {
        seq![digit_char(n)]
    } else {
        numeral(n / 10).push(digit_char(n % 10))
    }
}

/// The numeral of a number is a numeral.
pub proof fn lemma_numeral_is_numeral(n: nat)
    ensures
        is_numeral(numeral(n)),
        n >= 10 ==> numeral(n).len() > 1,
        n > 0 ==> numeral(n)[0] != '0',
    decreases n,
{
    if n >= 10 {
        lemma_numeral_is_numeral(n / 10);
    }
}

/// Reading the numeral of `n` gives `n` back.
pub proof fn lemma_value_of_numeral(n: nat)
    ensures
        decimal_value(numeral(n)) == n,
    decreases n,
{
    if n < 10 {
        let s = numeral(n);
        assert(s.drop_last().len() == 0);
        assert(decimal_value(s.drop_last()) == 0);
    } else {
        lemma_value_of_numeral(n / 10);
        let s = numeral(n);
        assert(s.drop_last() =~= numeral(n / 10));
    }
}

/// A run of digits that does not start with zero denotes a positive number.
pub proof fn lemma_value_positive(s: Seq<char>)
    requires
        all_digits(s),
        s.len() > 0,
        s[0] != '0',
    ensures
        decimal_value(s) > 0,
    decreases s.len(),
{
    if s.len() > 1 {
        lemma_value_positive(s.drop_last());
    } else {
        assert(decimal_value(s.drop_last()) == 0);
    }
}

/// A numeral is the numeral of the number it denotes.
pub proof fn lemma_numeral_of_value(s: Seq<char>)
    requires
        is_numeral(s),
    ensures
        numeral(decimal_value(s)) == s,
    decreases s.len(),
{
    if s.len() == 1 {
        assert(decimal_value(s.drop_last()) == 0);
        assert(numeral(decimal_value(s)) =~= s);
    } else {
        let front = s.drop_last();
        lemma_value_positive(front);
        lemma_numeral_of_value(front);
        let v = decimal_value(s);
        assert(v / 10 == decimal_value(front));
        assert(v % 10 == digit_value(s.last()));
        assert(numeral(v) =~= s);
    }
}

/// A run of digits denotes at least what any of its prefixes denotes.
pub proof fn lemma_prefix_value(s: Seq<char>, k: int)
    requires
        all_digits(s),
        0 <= k <= s.len(),
    ensures
        decimal_value(s.subrange(0, k)) <= decimal_value(s),
    decreases s.len(),
{
    if k == s.len() {
        assert(s.subrange(0, k) =~= s);
    } else {
        lemma_prefix_value(s.drop_last(), k);
        assert(s.drop_last().subrange(0, k) =~= s.subrange(0, k));
    }
}

/// What `parse_numeral` makes of a text: the number it denotes, if the text is
/// a numeral and the number fits in 64 bits.
pub open spec fn numeral_as_u64(s: Seq<char>) -> Option<u64> {
    if is_numeral(s) && decimal_value(s) <= u64::MAX {
        Some(decimal_value(s) as u64)
    } else {
        None
    }
}

/// Reads an ASCII text as a numeral.
pub(crate) fn read_numeral(s: &str) -> (r: Option<u64>)
    requires
        s.is_ascii(),
    ensures
        r == numeral_as_u64(s@),
{
    let n: usize = ascii_len(s);
    if n == 0 {
        return None;
    }
    if n > 1 && byte_at(s, 0) == 48u8 {
        return None;
    }
    let mut acc: u64 = 0;
    let mut i: usize = 0;
    while i < n
        invariant
            s.is_ascii(),
            n == s@.len(),
            i <= n,
            all_digits(s@.subrange(0, i as int)),
            acc == decimal_value(s@.subrange(0, i as int)),
        decreases n - i,
    {
        let b: u8 = byte_at(s, i);
        if b < 48u8 || b > 57u8 {
            assert(!is_digit(s@[i as int]));
            return None;
        }
        let d: u64 = (b - 48u8) as u64;
        let ghost next = s@.subrange(0, i + 1);
        assert(next.drop_last() =~= s@.subrange(0, i as int));
        assert(digit_value(next.last()) == d);
        if acc > (u64::MAX - d) / 10 {
            proof {
                if all_digits(s@) {
                    lemma_prefix_value(s@, i + 1);
                }
            }
            return None;
        }
        acc = acc * 10 + d;
        i = i + 1;
    }
    assert(s@.subrange(0, n as int) =~= s@);
    Some(acc)
}

/// The one-character text of the digit `d`.
fn digit_text(d: u64) -> (r: &'static str)
    requires
        d < 10,
    ensures
        r@ == seq![digit_char(d as nat)],
{
    proof {
        reveal_strlit("0");
        reveal_strlit("1");
        reveal_strlit("2");
        reveal_strlit("3");
        reveal_strlit("4");
        reveal_strlit("5");
        reveal_strlit("6");
        reveal_strlit("7");
        reveal_strlit("8");
        reveal_strlit("9");
    }
    let r = if d == 0 {
        "0"
    } else if d == 1 {
        "1"
    } else if d == 2 {
        "2"
    } else if d == 3 {
        "3"
    } else if d == 4 {
        "4"
    } else if d == 5 {
        "5"
    } else if d == 6 {
        "6"
    } else if d == 7 {
        "7"
    } else if d == 8 {
        "8"
    } else {
        "9"
    };
    assert(r@ =~= seq![digit_char(d as nat)]);
    r
}

/// Writes `n` as a numeral.
pub fn write_numeral(n: u64) -> (r: String)
    ensures
        r@ == numeral(n as nat),
    decreases n,
{
    if n < 10 {
        digit_text(n).to_owned()
    } else {
        let mut r = write_numeral(n / 10);
        r.append(digit_text(n % 10));
        assert(r@ =~= numeral(n as nat));
        r
    }
}

/// Reads a text as a numeral: the number it denotes, or `None` where the text
/// is no numeral or the number does not fit in 64 bits.
pub fn parse_numeral(s: &str) -> (r: Option<u64>)
    ensures
        r == numeral_as_u64(s@),
{
    if s.is_ascii() {
        read_numeral(s)
    } else {
        assert(!all_digits(s@));
        None
    }
}

/// A run of digits denotes less than any longer run that does not start
/// with zero.
pub proof fn lemma_shorter_is_less(a: Seq<char>, b: Seq<char>)
    requires
        all_digits(a),
        all_digits(b),
        a.len() < b.len(),
        b[0] != '0',
    ensures
        decimal_value(a) < decimal_value(b),
    decreases a.len(),
{
    if a.len() == 0 {
        lemma_value_positive(b);
    } else {
        lemma_shorter_is_less(a.drop_last(), b.drop_last());
    }
}

/// Two runs of digits of one length, equal before position `i`, are ordered
/// as their digits at `i` are.
pub proof fn lemma_first_difference_decides(a: Seq<char>, b: Seq<char>, i: int)
    requires
        all_digits(a),
        all_digits(b),
        a.len() == b.len(),
        0 <= i < a.len(),
        a.subrange(0, i) == b.subrange(0, i),
        a[i] < b[i],
    ensures
        decimal_value(a) < decimal_value(b),
    decreases a.len(),
{
    let fa = a.drop_last();
    let fb = b.drop_last();
    if i == a.len() - 1 {
        assert(fa =~= a.subrange(0, i));
        assert(fb =~= b.subrange(0, i));
    } else {
        assert(fa.subrange(0, i) =~= a.subrange(0, i));
        assert(fb.subrange(0, i) =~= b.subrange(0, i));
        lemma_first_difference_decides(fa, fb, i);
    }
}

/// Two runs of digits of one length are ordered by the first digit in which
/// they differ, and denote the same number only where they do not differ.
pub proof fn lemma_same_length_order(a: Seq<char>, b: Seq<char>)
    requires
        all_digits(a),
        all_digits(b),
        a.len() == b.len(),
    ensures
        is_mismatch(a, b, mismatch(a, b)),
        mismatch(a, b) == a.len() ==> a == b,
        mismatch(a, b) < a.len() && a[mismatch(a, b)] < b[mismatch(a, b)] ==> decimal_value(a)
            < decimal_value(b),
        mismatch(a, b) < a.len() && a[mismatch(a, b)] > b[mismatch(a, b)] ==> decimal_value(a)
            > decimal_value(b),
{
    lemma_mismatch(a, b);
    let m = mismatch(a, b);
    if m == a.len() {
        assert(a =~= b);
    } else {
        assert(a.subrange(0, m) =~= b.subrange(0, m));
        if a[m] < b[m] {
            lemma_first_difference_decides(a, b, m);
        } else {
            lemma_first_difference_decides(b, a, m);
        }
    }
}

} // verus!
