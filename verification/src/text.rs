//! Texts as sequences of characters: finding a separator, splitting a text
//! at each occurrence of it, joining the pieces again, and the order in which
//! a dictionary has two texts.

use vstd::prelude::*;
use std::cmp::Ordering;
use crate::order::{
    char_order, is_dual, is_exact, is_mismatch, is_reflexive, is_transitive,
    lemma_lexicographic_dual, lemma_lexicographic_exact, lemma_lexicographic_reflexive,
    lemma_lexicographic_transitive, lemma_mismatch_unique, lexicographic, mismatch, opposite,
};

verus! {

/// The byte at position `i` of an ASCII text.
pub(crate) fn byte_at(s: &str, i: usize) -> (b: u8)
    requires
        s.is_ascii(),
        i < s@.len(),
    ensures
        b as char == s@[i as int],
        b < 128,
{
    s.get_ascii(i)
}

/// The number of characters of an ASCII text.
pub(crate) fn ascii_len(s: &str) -> (n: usize)
    requires
        s.is_ascii(),
    ensures
        n == s@.len(),
{
    broadcast use vstd::string::is_ascii_spec_bytes;

    s.as_bytes().len()
}

/// Whether `i` is where `c` first occurs in `s`; where `c` does not occur at
/// all, the only such `i` is the length of `s`.
pub open spec fn is_first_index(s: Seq<char>, c: char, i: int) -> bool {
    &&& 0 <= i <= s.len()
    &&& forall|j: int| 0 <= j < i ==> #[trigger] s[j] != c
    &&& i < s.len() ==> s[i] == c
}

/// The index at which `c` first occurs in `s`, or the length of `s` where it
/// does not occur.
pub open spec fn first_index(s: Seq<char>, c: char) -> int
    decreases s.len(),
{
    if s.len() == 0 || s[0] == c {
        0
    } else {
        1 + first_index(s.drop_first(), c)
    }
}

/// `first_index` is a first index.
pub proof fn lemma_first_index(s: Seq<char>, c: char)
    ensures
        is_first_index(s, c, first_index(s, c)),
    decreases s.len(),
{
    if s.len() != 0 && s[0] != c {
        let t = s.drop_first();
        lemma_first_index(t, c);
        let i = first_index(s, c);
        assert forall|j: int| 0 <= j < i implies #[trigger] s[j] != c by {
            if j > 0 {
                assert(s[j] == t[j - 1]);
            }
        }
        if i < s.len() {
            assert(s[i] == t[i - 1]);
        }
    }
}

/// There is only one first index.
pub proof fn lemma_first_index_unique(s: Seq<char>, c: char, i: int)
    requires
        is_first_index(s, c, i),
    ensures
        first_index(s, c) == i,
{
    lemma_first_index(s, c);
    let k = first_index(s, c);
    if k < i {
        assert(s[k] != c);
    } else if i < k {
        assert(s[i] != c);
    }
}

/// The pieces into which the occurrences of `sep` cut `s`, in order. A text
/// without `sep` is a single piece, and so is the empty text.
pub open spec fn split(s: Seq<char>, sep: char) -> Seq<Seq<char>>
    decreases s.len(),
{
    let i = first_index(s, sep);
    if 0 <= i < s.len() {
        seq![s.subrange(0, i)] + split(s.subrange(i + 1, s.len() as int), sep)
    } else {
        seq![s]
    }
}

/// The texts of `parts`, with `sep` between each two neighbours.
pub open spec fn join(parts: Seq<Seq<char>>, sep: char) -> Seq<char>
    decreases parts.len(),
{
    if parts.len() == 0 {
        Seq::empty()
    } else if parts.len() == 1 {
        parts[0]
    } else {
        parts[0] + seq![sep] + join(parts.drop_first(), sep)
    }
}

/// Whether none of `parts` holds `sep`.
pub open spec fn free_of(parts: Seq<Seq<char>>, sep: char) -> bool {
    forall|k: int| 0 <= k < parts.len() ==> !(#[trigger] parts[k]).contains(sep)
}

/// Splitting yields at least one piece, and no piece holds the separator.
pub proof fn lemma_split_pieces(s: Seq<char>, sep: char)
    ensures
        split(s, sep).len() >= 1,
        free_of(split(s, sep), sep),
    decreases s.len(),
{
    lemma_first_index(s, sep);
    let i = first_index(s, sep);
    if i < s.len() {
        let rest = s.subrange(i + 1, s.len() as int);
        lemma_split_pieces(rest, sep);
        let head = s.subrange(0, i);
        assert(!head.contains(sep));
        let parts = split(s, sep);
        assert forall|k: int| 0 <= k < parts.len() implies !(#[trigger] parts[k]).contains(
            sep,
        ) by {
            if k > 0 {
                assert(parts[k] == split(rest, sep)[k - 1]);
            }
        }
    } else {
        assert(!s.contains(sep));
    }
}

/// Joining the pieces of a text gives the text back.
pub proof fn lemma_join_split(s: Seq<char>, sep: char)
    ensures
        join(split(s, sep), sep) == s,
    decreases s.len(),
{
    lemma_first_index(s, sep);
    let i = first_index(s, sep);
    if i < s.len() {
        let rest = s.subrange(i + 1, s.len() as int);
        lemma_join_split(rest, sep);
        lemma_split_pieces(rest, sep);
        let parts = split(s, sep);
        assert(parts.drop_first() =~= split(rest, sep));
        assert(join(parts, sep) =~= s);
    }
}

/// Splitting what was joined gives the parts back, where there is at least
/// one part and none of them holds the separator.
pub proof fn lemma_split_join(parts: Seq<Seq<char>>, sep: char)
    requires
        parts.len() >= 1,
        free_of(parts, sep),
    ensures
        split(join(parts, sep), sep) == parts,
    decreases parts.len(),
{
    let s = join(parts, sep);
    if parts.len() == 1 {
        assert(!parts[0].contains(sep));
        lemma_first_index_unique(s, sep, s.len() as int);
        assert(split(s, sep) =~= parts);
    } else {
        let head = parts[0];
        let tail = parts.drop_first();
        assert forall|k: int| 0 <= k < tail.len() implies !(#[trigger] tail[k]).contains(sep) by {
            assert(tail[k] == parts[k + 1]);
        }
        lemma_split_join(tail, sep);
        assert(!head.contains(sep));
        let i = head.len() as int;
        assert(s[i] == sep);
        assert forall|j: int| 0 <= j < i implies #[trigger] s[j] != sep by {
            assert(s[j] == head[j]);
        }
        lemma_first_index_unique(s, sep, i);
        assert(s.subrange(0, i) =~= head);
        assert(s.subrange(i + 1, s.len() as int) =~= join(tail, sep));
        assert(split(s, sep) =~= parts);
    }
}

/// Joining one more part appends the separator and the part.
pub proof fn lemma_join_push(parts: Seq<Seq<char>>, last: Seq<char>, sep: char)
    requires
        parts.len() >= 1,
    ensures
        join(parts.push(last), sep) == join(parts, sep) + seq![sep] + last,
    decreases parts.len(),
{
    let all = parts.push(last);
    if parts.len() == 1 {
        assert(all.drop_first() =~= seq![last]);
        assert(join(all.drop_first(), sep) == last);
    } else {
        lemma_join_push(parts.drop_first(), last, sep);
        assert(all.drop_first() =~= parts.drop_first().push(last));
        assert(join(all, sep) =~= join(parts, sep) + seq![sep] + last);
    }
}

/// What a vector of strings holds, as texts.
pub open spec fn texts(v: Seq<String>) -> Seq<Seq<char>> {
    Seq::new(v.len(), |k: int| v[k]@)
}

/// Finds where the byte `c` first occurs in an ASCII text.
pub(crate) fn find_byte(s: &str, c: u8) -> (i: usize)
    requires
        s.is_ascii(),
        c < 128,
    ensures
        i == first_index(s@, c as char),
        is_first_index(s@, c as char, i as int),
{
    let n: usize = ascii_len(s);
    let mut i: usize = 0;
    while i < n && byte_at(s, i) != c
        invariant
            s.is_ascii(),
            n == s@.len(),
            i <= n,
            forall|j: int| 0 <= j < i ==> #[trigger] s@[j] != c as char,
        decreases n - i,
    {
        i = i + 1;
    }
    proof {
        lemma_first_index_unique(s@, c as char, i as int);
    }
    i
}

/// Cuts an ASCII text at each occurrence of the byte `sep`.
pub(crate) fn split_on(s: &str, sep: u8) -> (out: Vec<String>)
    requires
        s.is_ascii(),
        sep < 128,
    ensures
        texts(out@) == split(s@, sep as char),
        forall|k: int| 0 <= k < out@.len() ==> vstd::utf8::is_ascii_chars(#[trigger] out@[k]@),
{
    let mut out: Vec<String> = Vec::new();
    let mut rest: &str = s;
    loop
        invariant
            rest.is_ascii(),
            sep < 128,
            texts(out@) + split(rest@, sep as char) == split(s@, sep as char),
            forall|k: int| 0 <= k < out@.len() ==> vstd::utf8::is_ascii_chars(#[trigger] out@[k]@),
        decreases rest@.len(),
    {
        let n: usize = ascii_len(rest);
        let i: usize = find_byte(rest, sep);
        let ghost before = texts(out@);
        if i >= n {
            out.push(rest.to_owned());
            assert(texts(out@) =~= before + split(rest@, sep as char));
            return out;
        }
        let piece = rest.substring_ascii(0, i);
        let tail = rest.substring_ascii(i + 1, n);
        out.push(piece.to_owned());
        assert(texts(out@) + split(tail@, sep as char) =~= before + split(rest@, sep as char));
        rest = tail;
    }
}

/// Writes the strings of `parts` one after another, with `sep` between each
/// two neighbours.
pub(crate) fn join_with(parts: &Vec<String>, sep: &str) -> (r: String)
    requires
        sep@.len() == 1,
    ensures
        r@ == join(texts(parts@), sep@[0]),
{
    let ghost c = sep@[0];
    assert(sep@ =~= seq![c]);
    let mut r = String::new();
    let n: usize = parts.len();
    if n == 0 {
        return r;
    }
    r.append(parts[0].as_str());
    let mut k: usize = 1;
    assert(texts(parts@).subrange(0, 1) =~= seq![parts@[0]@]);
    assert(r@ =~= join(texts(parts@).subrange(0, 1), c));
    while k < n
        invariant
            n == parts@.len(),
            1 <= k <= n,
            sep@ == seq![c],
            r@ == join(texts(parts@).subrange(0, k as int), c),
        decreases n - k,
    {
        proof {
            lemma_join_push(texts(parts@).subrange(0, k as int), parts@[k as int]@, c);
            assert(texts(parts@).subrange(0, k + 1) =~= texts(parts@).subrange(0, k as int).push(
                parts@[k as int]@,
            ));
        }
        r.append(sep);
        r.append(parts[k].as_str());
        k = k + 1;
    }
    assert(texts(parts@).subrange(0, n as int) =~= texts(parts@));
    r
}

/// The order of two texts as a dictionary has them: by the first character
/// in which they differ, a text coming before each of its extensions.
pub open spec fn text_order(a: Seq<char>, b: Seq<char>) -> Ordering {
    lexicographic(a, b, by_code_point())
}

/// The order of characters by which texts are ordered.
pub open spec fn by_code_point() -> spec_fn(char, char) -> Ordering {
    |x: char, y: char| char_order(x, y)
}

/// The order of characters is reflexive, exact, dual and transitive.
pub proof fn lemma_by_code_point()
    ensures
        is_reflexive(by_code_point()),
        is_exact(by_code_point()),
        is_dual(by_code_point()),
        is_transitive(by_code_point()),
{
}

/// Two texts are equal in order exactly where they are the same text.
pub proof fn lemma_text_order_exact(a: Seq<char>, b: Seq<char>)
    ensures
        text_order(a, b) == Ordering::Equal <==> a == b,
{
    lemma_by_code_point();
    lemma_lexicographic_reflexive(a, by_code_point());
    if text_order(a, b) == Ordering::Equal {
        lemma_lexicographic_exact(a, b, by_code_point());
    }
}

/// The order of two texts, asked the other way round, is the opposite.
pub proof fn lemma_text_order_dual(a: Seq<char>, b: Seq<char>)
    ensures
        text_order(b, a) == opposite(text_order(a, b)),
{
    lemma_by_code_point();
    lemma_lexicographic_dual(a, b, by_code_point());
}

/// A text that comes before one that comes before a third comes before the
/// third.
pub proof fn lemma_text_order_transitive(a: Seq<char>, b: Seq<char>, c: Seq<char>)
    requires
        text_order(a, b) == Ordering::Less,
        text_order(b, c) == Ordering::Less,
    ensures
        text_order(a, c) == Ordering::Less,
{
    lemma_by_code_point();
    lemma_lexicographic_transitive(a, b, c, by_code_point());
}

/// Finds the first position at which two ASCII texts differ, or at which one
/// of them ends.
pub(crate) fn first_difference(a: &str, b: &str) -> (m: usize)
    requires
        a.is_ascii(),
        b.is_ascii(),
    ensures
        m == mismatch(a@, b@),
        is_mismatch(a@, b@, m as int),
{
    let la: usize = ascii_len(a);
    let lb: usize = ascii_len(b);
    let mut m: usize = 0;
    while m < la && m < lb && byte_at(a, m) == byte_at(b, m)
        invariant
            a.is_ascii(),
            b.is_ascii(),
            la == a@.len(),
            lb == b@.len(),
            m <= la,
            m <= lb,
            forall|j: int|
                #![trigger a@[j]]
                #![trigger b@[j]]
                0 <= j < m ==> a@[j] == b@[j],
        decreases la - m,
    {
        m = m + 1;
    }
    proof {
        lemma_mismatch_unique(a@, b@, m as int);
    }
    m
}

/// Orders two ASCII texts as a dictionary has them.
pub(crate) fn order_texts(a: &str, b: &str) -> (r: Ordering)
    requires
        a.is_ascii(),
        b.is_ascii(),
    ensures
        r == text_order(a@, b@),
{
    let m: usize = first_difference(a, b);
    let la: usize = ascii_len(a);
    let lb: usize = ascii_len(b);
    if m == la && m == lb {
        Ordering::Equal
    } else if m == la {
        Ordering::Less
    } else if m == lb {
        Ordering::Greater
    } else if byte_at(a, m) < byte_at(b, m) {
        Ordering::Less
    } else {
        Ordering::Greater
    }
}

} // verus!
