//! The precedence of semantic versions: which of two versions is the later
//! one.

use vstd::prelude::*;
use std::cmp::Ordering;
use crate::decimal::{
    all_digits, decimal_value, is_digit, lemma_numeral_of_value, lemma_same_length_order,
    lemma_shorter_is_less,
};
use crate::grammar::{are_pre_identifiers, is_pre_identifier, VersionView};
use crate::order::{
    is_dual, is_reflexive, is_transitive, lemma_lexicographic_dual,
    lemma_lexicographic_reflexive, lemma_lexicographic_transitive, lemma_mismatch,
    lemma_mismatch_unique, lexicographic, mismatch, number_order, opposite, refined,
};
use crate::text::{
    ascii_len, byte_at, lemma_text_order_dual, lemma_text_order_exact,
    lemma_text_order_transitive, order_texts, text_order, texts,
};

verus! {

/// The order of two pre-release identifiers. Two that hold digits only are
/// ordered as the numbers they denote, two others as texts; one that holds
/// digits only comes before one that does not.
pub open spec fn identifier_order(x: Seq<char>, y: Seq<char>) -> Ordering {
    if all_digits(x) && all_digits(y) {
        number_order(decimal_value(x), decimal_value(y))
    } else if all_digits(x) {
        Ordering::Less
    } else if all_digits(y) {
        Ordering::Greater
    } else {
        text_order(x, y)
    }
}

/// The order of two lists of pre-release identifiers: that of the first
/// identifiers in which they differ, a list coming before each of its
/// extensions.
pub open spec fn identifiers_order(a: Seq<Seq<char>>, b: Seq<Seq<char>>) -> Ordering {
    lexicographic(a, b, by_identifier())
}

/// The order of identifiers by which lists of them are ordered.
pub open spec fn by_identifier() -> spec_fn(Seq<char>, Seq<char>) -> Ordering {
    |x: Seq<char>, y: Seq<char>| identifier_order(x, y)
}

/// The order of two pre-releases of one version. A version without
/// pre-release comes after every pre-release of it.
pub open spec fn pre_release_order(a: Seq<Seq<char>>, b: Seq<Seq<char>>) -> Ordering {
    if a.len() == 0 && b.len() == 0 {
        Ordering::Equal
    } else if a.len() == 0 {
        Ordering::Greater
    } else if b.len() == 0 {
        Ordering::Less
    } else {
        identifiers_order(a, b)
    }
}

/// The precedence of `a` relative to `b`: by major, then minor, then patch
/// number, then by pre-release. Build metadata has no part in it.
pub open spec fn precedence(a: VersionView, b: VersionView) -> Ordering {
    refined(
        number_order(a.major, b.major),
        refined(
            number_order(a.minor, b.minor),
            refined(number_order(a.patch, b.patch), pre_release_order(a.pre, b.pre)),
        ),
    )
}

/// An identifier is equal in order to itself.
pub proof fn lemma_identifier_order_reflexive(x: Seq<char>)
    ensures
        identifier_order(x, x) == Ordering::Equal,
{
    lemma_text_order_exact(x, x);
}

/// Two pre-release identifiers are equal in order only where they are the
/// same text.
pub proof fn lemma_identifier_order_exact(x: Seq<char>, y: Seq<char>)
    requires
        is_pre_identifier(x),
        is_pre_identifier(y),
        identifier_order(x, y) == Ordering::Equal,
    ensures
        x == y,
{
    if all_digits(x) && all_digits(y) {
        lemma_numeral_of_value(x);
        lemma_numeral_of_value(y);
    } else {
        lemma_text_order_exact(x, y);
    }
}

/// The order of two identifiers, asked the other way round, is the
/// opposite.
pub proof fn lemma_identifier_order_dual(x: Seq<char>, y: Seq<char>)
    ensures
        identifier_order(y, x) == opposite(identifier_order(x, y)),
{
    lemma_text_order_dual(x, y);
}

/// An identifier that comes before one that comes before a third comes
/// before the third.
pub proof fn lemma_identifier_order_transitive(x: Seq<char>, y: Seq<char>, z: Seq<char>)
    requires
        identifier_order(x, y) == Ordering::Less,
        identifier_order(y, z) == Ordering::Less,
    ensures
        identifier_order(x, z) == Ordering::Less,
{
    if !all_digits(x) && !all_digits(y) && !all_digits(z) {
        lemma_text_order_transitive(x, y, z);
    }
}

/// The order of identifiers is reflexive, dual and transitive.
pub proof fn lemma_by_identifier()
    ensures
        is_reflexive(by_identifier()),
        is_dual(by_identifier()),
        is_transitive(by_identifier()),
{
    let ord = by_identifier();
    assert forall|x: Seq<char>| #[trigger] ord(x, x) == Ordering::Equal by {
        lemma_identifier_order_reflexive(x);
    }
    assert forall|x: Seq<char>, y: Seq<char>| #[trigger] ord(y, x) == opposite(ord(x, y)) by {
        lemma_identifier_order_dual(x, y);
    }
    assert forall|x: Seq<char>, y: Seq<char>, z: Seq<char>|
        #[trigger] ord(x, y) == Ordering::Less && #[trigger] ord(y, z)
            == Ordering::Less implies ord(x, z) == Ordering::Less by {
        lemma_identifier_order_transitive(x, y, z);
    }
}

/// Two lists of pre-release identifiers are equal in order exactly where
/// they are the same list.
pub proof fn lemma_identifiers_order_exact(a: Seq<Seq<char>>, b: Seq<Seq<char>>)
    requires
        are_pre_identifiers(a),
        are_pre_identifiers(b),
    ensures
        identifiers_order(a, b) == Ordering::Equal <==> a == b,
{
    lemma_lexicographic_reflexive(a, by_identifier());
    if identifiers_order(a, b) == Ordering::Equal {
        lemma_mismatch(a, b);
        let m = mismatch(a, b);
        if m == a.len() && m == b.len() {
            assert(a =~= b);
        } else {
            lemma_identifier_order_exact(a[m], b[m]);
        }
    }
}

/// Two versions have the same precedence exactly where they have the same
/// three numbers and the same pre-release.
pub proof fn lemma_same_precedence(a: VersionView, b: VersionView)
    requires
        a.wf(),
        b.wf(),
    ensures
        precedence(a, b) == Ordering::Equal <==> a.major == b.major && a.minor == b.minor
            && a.patch == b.patch && a.pre == b.pre,
{
    lemma_identifiers_order_exact(a.pre, b.pre);
    if a.pre.len() == 0 && a.pre == b.pre {
        assert(b.pre.len() == 0);
    }
    if a.pre.len() == 0 && b.pre.len() == 0 {
        assert(a.pre =~= b.pre);
    }
}

/// A version has the same precedence as itself, and so has every version
/// that differs from it in build metadata only.
pub proof fn lemma_precedence_reflexive(a: VersionView, b: VersionView)
    requires
        a.major == b.major,
        a.minor == b.minor,
        a.patch == b.patch,
        a.pre == b.pre,
    ensures
        precedence(a, b) == Ordering::Equal,
{
    lemma_lexicographic_reflexive(a.pre, by_identifier());
}

/// The precedence of `b` relative to `a` is the opposite of that of `a`
/// relative to `b`: where one is the earlier version, the other is the later
/// one.
pub proof fn lemma_precedence_dual(a: VersionView, b: VersionView)
    ensures
        precedence(b, a) == opposite(precedence(a, b)),
{
    lemma_by_identifier();
    lemma_lexicographic_dual(a.pre, b.pre, by_identifier());
}

/// A version that is earlier than one that is earlier than a third is
/// earlier than the third.
pub proof fn lemma_precedence_transitive(a: VersionView, b: VersionView, c: VersionView)
    requires
        precedence(a, b) == Ordering::Less,
        precedence(b, c) == Ordering::Less,
    ensures
        precedence(a, c) == Ordering::Less,
{
    lemma_by_identifier();
    if a.major == b.major && b.major == c.major && a.minor == b.minor && b.minor == c.minor
        && a.patch == b.patch && b.patch == c.patch {
        if a.pre.len() > 0 && b.pre.len() > 0 && c.pre.len() > 0 {
            lemma_lexicographic_transitive(a.pre, b.pre, c.pre, by_identifier());
        }
    }
}

/// Whether an ASCII text holds digits only.
pub(crate) fn holds_digits_only(s: &str) -> (r: bool)
    requires
        s.is_ascii(),
    ensures
        r == all_digits(s@),
{
    let n: usize = ascii_len(s);
    let mut i: usize = 0;
    while i < n
        invariant
            s.is_ascii(),
            n == s@.len(),
            i <= n,
            forall|j: int| 0 <= j < i ==> is_digit(#[trigger] s@[j]),
        decreases n - i,
    {
        let b: u8 = byte_at(s, i);
        if b < 48u8 || b > 57u8 {
            assert(!is_digit(s@[i as int]));
            return false;
        }
        i = i + 1;
    }
    true
}

/// Finds the first position at which two lists of strings differ, or at
/// which one of them ends.
pub(crate) fn first_unequal(a: &Vec<String>, b: &Vec<String>) -> (m: usize)
    ensures
        m == mismatch(texts(a@), texts(b@)),
        m <= a@.len(),
        m <= b@.len(),
{
    let la: usize = a.len();
    let lb: usize = b.len();
    let mut m: usize = 0;
    while m < la && m < lb && a[m] == b[m]
        invariant
            la == a@.len(),
            lb == b@.len(),
            m <= la,
            m <= lb,
            forall|j: int| 0 <= j < m ==> a@[j]@ == b@[j]@,
        decreases la - m,
    {
        m = m + 1;
    }
    proof {
        lemma_mismatch_unique(texts(a@), texts(b@), m as int);
    }
    m
}

/// What is known of the string at position `k` of a list of pre-release
/// identifiers.
pub(crate) proof fn lemma_identifier_at(v: &Vec<String>, k: usize)
    requires
        are_pre_identifiers(texts(v@)),
        k < v@.len(),
    ensures
        is_pre_identifier(v@[k as int]@),
        v@[k as int]@ == texts(v@)[k as int],
        vstd::utf8::is_ascii_chars(v@[k as int]@),
{
    assert(is_pre_identifier(texts(v@)[k as int]));
}

/// Orders two pre-release identifiers.
pub(crate) fn order_identifiers(x: &str, y: &str) -> (r: Ordering)
    requires
        x.is_ascii(),
        y.is_ascii(),
        is_pre_identifier(x@),
        is_pre_identifier(y@),
    ensures
        r == identifier_order(x@, y@),
{
    let dx: bool = holds_digits_only(x);
    let dy: bool = holds_digits_only(y);
    if dx && dy {
        let lx: usize = ascii_len(x);
        let ly: usize = ascii_len(y);
        if lx < ly {
            proof {
                lemma_shorter_is_less(x@, y@);
            }
            Ordering::Less
        } else if lx > ly {
            proof {
                lemma_shorter_is_less(y@, x@);
            }
            Ordering::Greater
        } else {
            proof {
                lemma_same_length_order(x@, y@);
            }
            order_texts(x, y)
        }
    } else if dx {
        Ordering::Less
    } else if dy {
        Ordering::Greater
    } else {
        order_texts(x, y)
    }
}

/// Orders two pre-releases of one version.
pub(crate) fn order_pre_releases(a: &Vec<String>, b: &Vec<String>) -> (r: Ordering)
    requires
        are_pre_identifiers(texts(a@)),
        are_pre_identifiers(texts(b@)),
    ensures
        r == pre_release_order(texts(a@), texts(b@)),
{
    let la: usize = a.len();
    let lb: usize = b.len();
    if la == 0 && lb == 0 {
        Ordering::Equal
    } else if la == 0 {
        Ordering::Greater
    } else if lb == 0 {
        Ordering::Less
    } else {
        let m: usize = first_unequal(a, b);
        if m == la && m == lb {
            Ordering::Equal
        } else if m == la {
            Ordering::Less
        } else if m == lb {
            Ordering::Greater
        } else {
            proof {
                lemma_identifier_at(a, m);
                lemma_identifier_at(b, m);
            }
            order_identifiers(a[m].as_str(), b[m].as_str())
        }
    }
}

} // verus!
