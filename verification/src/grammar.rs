//! The grammar of semantic versions, `MAJOR.MINOR.PATCH[-prerelease][+build]`,
//! as a relation between texts and the versions they denote.

use vstd::prelude::*;
use crate::decimal::{
    all_digits, decimal_value, is_digit, is_numeral, lemma_numeral_is_numeral,
    lemma_numeral_of_value, lemma_value_of_numeral, numeral,
};
use crate::text::{
    ascii_len, byte_at, first_index, join, lemma_first_index, lemma_first_index_unique,
    lemma_join_split, lemma_split_join, lemma_split_pieces, split, texts,
};

verus! {

/// Whether `c` may stand in an identifier: an ASCII letter, a digit or a
/// hyphen.
pub open spec fn is_identifier_char(c: char) -> bool {
    is_digit(c) || 'a' <= c <= 'z' || 'A' <= c <= 'Z' || c == '-'
}

/// Whether `s` is an identifier of build metadata: a non-empty run of
/// identifier characters.
pub open spec fn is_build_identifier(s: Seq<char>) -> bool {
    &&& s.len() > 0
    &&& forall|i: int| 0 <= i < s.len() ==> is_identifier_char(#[trigger] s[i])
}

/// Whether `s` is an identifier of a pre-release: a non-empty run of
/// identifier characters which, where it holds digits only, is a numeral.
pub open spec fn is_pre_identifier(s: Seq<char>) -> bool {
    &&& is_build_identifier(s)
    &&& all_digits(s) ==> is_numeral(s)
}

/// Whether each of `ids` is a pre-release identifier.
pub open spec fn are_pre_identifiers(ids: Seq<Seq<char>>) -> bool {
    forall|k: int| 0 <= k < ids.len() ==> is_pre_identifier(#[trigger] ids[k])
}

/// Whether each of `ids` is a build identifier.
pub open spec fn are_build_identifiers(ids: Seq<Seq<char>>) -> bool {
    forall|k: int| 0 <= k < ids.len() ==> is_build_identifier(#[trigger] ids[k])
}

/// A semantic version as a mathematical value: three numbers, the
/// identifiers of the pre-release and those of the build metadata. A version
/// without pre-release, or without build metadata, has no identifiers there.
pub struct VersionView {
    pub major: nat,
    pub minor: nat,
    pub patch: nat,
    pub pre: Seq<Seq<char>>,
    pub build: Seq<Seq<char>>,
}

impl VersionView {
    /// Whether the identifiers are ones that the grammar admits.
    pub open spec fn wf(self) -> bool {
        &&& are_pre_identifiers(self.pre)
        &&& are_build_identifiers(self.build)
    }

    /// Whether each of the three numbers fits in 64 bits.
    pub open spec fn fits(self) -> bool {
        &&& self.major <= u64::MAX
        &&& self.minor <= u64::MAX
        &&& self.patch <= u64::MAX
    }
}

/// The text of the three numbers: their numerals, separated by dots.
pub open spec fn rendered_core(major: nat, minor: nat, patch: nat) -> Seq<char> {
    join(seq![numeral(major), numeral(minor), numeral(patch)], '.')
}

/// The text that a list of identifiers adds to a version: nothing where the
/// list is empty, else `mark` and the identifiers, separated by dots.
pub open spec fn rendered_tail(mark: char, ids: Seq<Seq<char>>) -> Seq<char> {
    if ids.len() == 0 {
        Seq::empty()
    } else {
        seq![mark] + join(ids, '.')
    }
}

/// The text of a version.
pub open spec fn rendered(v: VersionView) -> Seq<char> {
    rendered_core(v.major, v.minor, v.patch) + rendered_tail('-', v.pre) + rendered_tail(
        '+',
        v.build,
    )
}

/// The identifiers that follow the mark at position `at` of `s`; none where
/// `at` is the length of `s`, that is, where there is no mark.
pub open spec fn identifiers_after(s: Seq<char>, at: int) -> Seq<Seq<char>> {
    if 0 <= at < s.len() {
        split(s.subrange(at + 1, s.len() as int), '.')
    } else {
        Seq::empty()
    }
}

/// The version that the text `s` denotes, or `None` where `s` is no semantic
/// version.
///
/// Build metadata starts after the first `+`, a pre-release after the first
/// `-` before that. What stands before both must be three numerals separated
/// by dots; what follows a mark must be identifiers separated by dots.
pub open spec fn parsed(s: Seq<char>) -> Option<VersionView> {
    let plus = first_index(s, '+');
    let head = s.subrange(0, plus);
    let dash = first_index(head, '-');
    let core = split(head.subrange(0, dash), '.');
    let pre = identifiers_after(head, dash);
    let build = identifiers_after(s, plus);
    if core.len() == 3 && is_numeral(core[0]) && is_numeral(core[1]) && is_numeral(core[2])
        && are_pre_identifiers(pre) && are_build_identifiers(build) {
        Some(
            VersionView {
                major: decimal_value(core[0]),
                minor: decimal_value(core[1]),
                patch: decimal_value(core[2]),
                pre,
                build,
            },
        )
    } else {
        None
    }
}

/// Whether `p` holds of every character of `s`.
pub open spec fn all_chars(s: Seq<char>, p: spec_fn(char) -> bool) -> bool {
    forall|i: int| 0 <= i < s.len() ==> p(#[trigger] s[i])
}

/// What holds of the separator and of every character of every part holds
/// of every character of what they are joined to.
pub proof fn lemma_join_chars(parts: Seq<Seq<char>>, sep: char, p: spec_fn(char) -> bool)
    requires
        p(sep),
        forall|k: int| 0 <= k < parts.len() ==> all_chars(#[trigger] parts[k], p),
    ensures
        all_chars(join(parts, sep), p),
    decreases parts.len(),
{
    if parts.len() == 1 {
        assert(all_chars(parts[0], p));
    } else if parts.len() > 1 {
        let tail = parts.drop_first();
        assert forall|k: int| 0 <= k < tail.len() implies all_chars(#[trigger] tail[k], p) by {
            assert(tail[k] == parts[k + 1]);
        }
        lemma_join_chars(tail, sep, p);
        assert(all_chars(parts[0], p));
        let s = join(parts, sep);
        let n = parts[0].len() as int;
        assert forall|i: int| 0 <= i < s.len() implies p(#[trigger] s[i]) by {
            if i < n {
                assert(s[i] == parts[0][i]);
            } else if i > n {
                assert(s[i] == join(tail, sep)[i - n - 1]);
            }
        }
    }
}

/// What holds of `.`, of the digits and of every character of the
/// identifiers of a version holds of every character of its text before the
/// build metadata.
proof fn lemma_head_chars(v: VersionView, p: spec_fn(char) -> bool)
    requires
        p('.'),
        p('-'),
        forall|c: char| is_digit(c) ==> p(c),
        forall|k: int| 0 <= k < v.pre.len() ==> all_chars(#[trigger] v.pre[k], p),
    ensures
        all_chars(rendered_core(v.major, v.minor, v.patch), p),
        all_chars(rendered_tail('-', v.pre), p),
{
    let nums = seq![numeral(v.major), numeral(v.minor), numeral(v.patch)];
    lemma_numeral_is_numeral(v.major);
    lemma_numeral_is_numeral(v.minor);
    lemma_numeral_is_numeral(v.patch);
    assert forall|k: int| 0 <= k < nums.len() implies all_chars(#[trigger] nums[k], p) by {
        assert(is_numeral(nums[k]));
    }
    lemma_join_chars(nums, '.', p);
    if v.pre.len() > 0 {
        lemma_join_chars(v.pre, '.', p);
    }
}

/// The text of a well-formed version denotes that version.
pub proof fn lemma_parsed_rendered(v: VersionView)
    requires
        v.wf(),
    ensures
        parsed(rendered(v)) == Some(v),
{
    let s = rendered(v);
    let nums = seq![numeral(v.major), numeral(v.minor), numeral(v.patch)];
    let core = rendered_core(v.major, v.minor, v.patch);
    let pre_text = rendered_tail('-', v.pre);
    let build_text = rendered_tail('+', v.build);
    let head = core + pre_text;
    assert(s =~= head + build_text);

    // Where the build metadata starts.
    let no_plus = |c: char| c != '+';
    assert forall|k: int| 0 <= k < v.pre.len() implies all_chars(#[trigger] v.pre[k], no_plus) by {
        assert(is_pre_identifier(v.pre[k]));
    }
    lemma_head_chars(v, no_plus);
    let plus = head.len() as int;
    assert forall|j: int| 0 <= j < plus implies #[trigger] s[j] != '+' by {
        if j < core.len() {
            assert(no_plus(core[j]));
        } else {
            assert(no_plus(pre_text[j - core.len()]));
        }
    }
    lemma_first_index_unique(s, '+', plus);
    assert(s.subrange(0, plus) =~= head);

    // Where the pre-release starts.
    let no_dash = |c: char| c != '-';
    let dash = core.len() as int;
    lemma_numeral_is_numeral(v.major);
    lemma_numeral_is_numeral(v.minor);
    lemma_numeral_is_numeral(v.patch);
    assert forall|k: int| 0 <= k < nums.len() implies all_chars(#[trigger] nums[k], no_dash) by {
        assert(is_numeral(nums[k]));
    }
    lemma_join_chars(nums, '.', no_dash);
    assert forall|j: int| 0 <= j < dash implies #[trigger] head[j] != '-' by {
        assert(no_dash(core[j]));
    }
    lemma_first_index_unique(head, '-', dash);
    assert(head.subrange(0, dash) =~= core);

    // The three numbers.
    assert forall|k: int| 0 <= k < nums.len() implies !(#[trigger] nums[k]).contains('.') by {
        assert(is_numeral(nums[k]));
    }
    lemma_split_join(nums, '.');
    lemma_value_of_numeral(v.major);
    lemma_value_of_numeral(v.minor);
    lemma_value_of_numeral(v.patch);
    assert(nums[0] == numeral(v.major));
    assert(nums[1] == numeral(v.minor));
    assert(nums[2] == numeral(v.patch));

    // The identifiers.
    if v.pre.len() > 0 {
        assert forall|k: int| 0 <= k < v.pre.len() implies !(#[trigger] v.pre[k]).contains(
            '.',
        ) by {
            assert(is_pre_identifier(v.pre[k]));
        }
        lemma_split_join(v.pre, '.');
        assert(head.subrange(dash + 1, head.len() as int) =~= join(v.pre, '.'));
    }
    if v.build.len() > 0 {
        assert forall|k: int| 0 <= k < v.build.len() implies !(#[trigger] v.build[k]).contains(
            '.',
        ) by {
            assert(is_build_identifier(v.build[k]));
        }
        lemma_split_join(v.build, '.');
        assert(s.subrange(plus + 1, s.len() as int) =~= join(v.build, '.'));
    }
    assert(identifiers_after(head, dash) =~= v.pre);
    assert(identifiers_after(s, plus) =~= v.build);
}

/// The identifiers after a mark, written out after that mark, are the text
/// from the mark on.
proof fn lemma_tail_text(s: Seq<char>, at: int, mark: char)
    requires
        0 <= at <= s.len(),
        at < s.len() ==> s[at] == mark,
    ensures
        rendered_tail(mark, identifiers_after(s, at)) == s.subrange(at, s.len() as int),
{
    if at < s.len() {
        let rest = s.subrange(at + 1, s.len() as int);
        lemma_join_split(rest, '.');
        lemma_split_pieces(rest, '.');
        assert(seq![mark] + rest =~= s.subrange(at, s.len() as int));
    } else {
        assert(s.subrange(at, s.len() as int) =~= Seq::<char>::empty());
    }
}

/// A text that denotes a version denotes a well-formed one, and is the text
/// of that version.
pub proof fn lemma_rendered_parsed(s: Seq<char>)
    requires
        parsed(s) is Some,
    ensures
        parsed(s).unwrap().wf(),
        rendered(parsed(s).unwrap()) == s,
{
    let v = parsed(s).unwrap();
    lemma_first_index(s, '+');
    let plus = first_index(s, '+');
    let head = s.subrange(0, plus);
    lemma_first_index(head, '-');
    let dash = first_index(head, '-');
    let core_text = head.subrange(0, dash);
    let core = split(core_text, '.');
    lemma_join_split(core_text, '.');
    lemma_numeral_of_value(core[0]);
    lemma_numeral_of_value(core[1]);
    lemma_numeral_of_value(core[2]);
    assert(core =~= seq![numeral(v.major), numeral(v.minor), numeral(v.patch)]);
    lemma_tail_text(head, dash, '-');
    lemma_tail_text(s, plus, '+');
    assert(rendered(v) =~= s);
}

/// The text of the three numbers, written out.
pub proof fn lemma_rendered_core(major: nat, minor: nat, patch: nat)
    ensures
        rendered_core(major, minor, patch) == numeral(major) + seq!['.'] + numeral(minor)
            + seq!['.'] + numeral(patch),
{
    let nums = seq![numeral(major), numeral(minor), numeral(patch)];
    let two = nums.drop_first();
    assert(two.drop_first() =~= seq![numeral(patch)]);
    assert(join(two.drop_first(), '.') == numeral(patch));
    assert(join(two, '.') == numeral(minor) + seq!['.'] + numeral(patch));
    assert(join(nums, '.') =~= numeral(major) + seq!['.'] + numeral(minor) + seq!['.'] + numeral(
        patch,
    ));
}

/// A text that denotes a version holds ASCII characters only.
pub proof fn lemma_parsed_is_ascii(s: Seq<char>)
    requires
        parsed(s) is Some,
    ensures
        vstd::utf8::is_ascii_chars(s),
{
    let v = parsed(s).unwrap();
    lemma_rendered_parsed(s);
    let ascii = |c: char| '\0' <= c <= '\u{7f}';
    assert forall|k: int| 0 <= k < v.pre.len() implies all_chars(#[trigger] v.pre[k], ascii) by {
        assert(is_pre_identifier(v.pre[k]));
    }
    lemma_head_chars(v, ascii);
    assert forall|k: int| 0 <= k < v.build.len() implies all_chars(
        #[trigger] v.build[k],
        ascii,
    ) by {
        assert(is_build_identifier(v.build[k]));
    }
    if v.build.len() > 0 {
        lemma_join_chars(v.build, '.', ascii);
    }
    let core = rendered_core(v.major, v.minor, v.patch);
    let pre_text = rendered_tail('-', v.pre);
    let build_text = rendered_tail('+', v.build);
    assert forall|i: int| 0 <= i < s.len() implies '\0' <= #[trigger] s[i] <= '\u{7f}' by {
        if i < core.len() {
            assert(ascii(core[i]));
        } else if i < core.len() + pre_text.len() {
            assert(ascii(pre_text[i - core.len()]));
        } else {
            let j = i - core.len() - pre_text.len();
            assert(s[i] == build_text[j]);
            if j > 0 {
                assert(ascii(join(v.build, '.')[j - 1]));
            }
        }
    }
}

/// Whether the byte `b` may stand in an identifier.
pub(crate) fn is_identifier_byte(b: u8) -> (r: bool)
    requires
        b < 128,
    ensures
        r == is_identifier_char(b as char),
{
    (48u8 <= b && b <= 57u8) || (97u8 <= b && b <= 122u8) || (65u8 <= b && b <= 90u8) || b == 45u8
}

/// Whether an ASCII text is an identifier of build metadata.
pub(crate) fn check_build_identifier(s: &str) -> (r: bool)
    requires
        s.is_ascii(),
    ensures
        r == is_build_identifier(s@),
{
    let n: usize = ascii_len(s);
    if n == 0 {
        return false;
    }
    let mut i: usize = 0;
    while i < n
        invariant
            s.is_ascii(),
            n == s@.len(),
            i <= n,
            forall|j: int| 0 <= j < i ==> is_identifier_char(#[trigger] s@[j]),
        decreases n - i,
    {
        if !is_identifier_byte(byte_at(s, i)) {
            assert(!is_identifier_char(s@[i as int]));
            return false;
        }
        i = i + 1;
    }
    true
}

/// Whether an ASCII text is an identifier of a pre-release.
pub(crate) fn check_pre_identifier(s: &str) -> (r: bool)
    requires
        s.is_ascii(),
    ensures
        r == is_pre_identifier(s@),
{
    if !check_build_identifier(s) {
        return false;
    }
    let n: usize = ascii_len(s);
    if n > 1 && byte_at(s, 0) == 48u8 {
        let mut i: usize = 1;
        while i < n
            invariant
                s.is_ascii(),
                n == s@.len(),
                1 <= i <= n,
                is_build_identifier(s@),
                s@[0] == '0',
                forall|j: int| 0 <= j < i ==> is_digit(#[trigger] s@[j]),
            decreases n - i,
        {
            let b: u8 = byte_at(s, i);
            if b < 48u8 || b > 57u8 {
                assert(!is_digit(s@[i as int]));
                return true;
            }
            i = i + 1;
        }
        false
    } else {
        true
    }
}

/// Whether each string of `ids` is an identifier of build metadata.
pub(crate) fn check_build_identifiers(ids: &Vec<String>) -> (r: bool)
    requires
        forall|k: int| 0 <= k < ids@.len() ==> vstd::utf8::is_ascii_chars(#[trigger] ids@[k]@),
    ensures
        r == are_build_identifiers(texts(ids@)),
{
    let n: usize = ids.len();
    let mut k: usize = 0;
    while k < n
        invariant
            n == ids@.len(),
            k <= n,
            forall|j: int| 0 <= j < ids@.len() ==> vstd::utf8::is_ascii_chars(#[trigger] ids@[j]@),
            forall|j: int| 0 <= j < k ==> is_build_identifier(#[trigger] texts(ids@)[j]),
        decreases n - k,
    {
        if !check_build_identifier(ids[k].as_str()) {
            assert(!is_build_identifier(texts(ids@)[k as int]));
            return false;
        }
        k = k + 1;
    }
    true
}

/// Whether each string of `ids` is an identifier of a pre-release.
pub(crate) fn check_pre_identifiers(ids: &Vec<String>) -> (r: bool)
    requires
        forall|k: int| 0 <= k < ids@.len() ==> vstd::utf8::is_ascii_chars(#[trigger] ids@[k]@),
    ensures
        r == are_pre_identifiers(texts(ids@)),
{
    let n: usize = ids.len();
    let mut k: usize = 0;
    while k < n
        invariant
            n == ids@.len(),
            k <= n,
            forall|j: int| 0 <= j < ids@.len() ==> vstd::utf8::is_ascii_chars(#[trigger] ids@[j]@),
            forall|j: int| 0 <= j < k ==> is_pre_identifier(#[trigger] texts(ids@)[j]),
        decreases n - k,
    {
        if !check_pre_identifier(ids[k].as_str()) {
            assert(!is_pre_identifier(texts(ids@)[k as int]));
            return false;
        }
        k = k + 1;
    }
    true
}

} // verus!
