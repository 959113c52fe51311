//! Semantic versions as values: read from text, written back, compared.

use vstd::prelude::*;
use std::cmp::Ordering;
use crate::decimal::{read_numeral, write_numeral};
use crate::grammar::{
    check_build_identifiers, check_pre_identifiers, lemma_parsed_is_ascii, lemma_rendered_core,
    parsed, rendered, rendered_core, VersionView,
};
use crate::order::{lemma_mismatch, order_numbers};
use crate::precedence::{first_unequal, order_pre_releases, precedence};
use crate::text::{ascii_len, find_byte, join_with, split_on, texts};

verus! {

/// The failure to read a text as a semantic version. It holds the text that
/// was refused.
#[derive(Clone, Debug)]
pub struct VersionParseError {
    pub input: String,
}

/// A semantic version: `MAJOR.MINOR.PATCH`, with an optional pre-release and
/// optional build metadata.
///
/// Every value is a valid version: its identifiers are ones that the grammar
/// admits.
#[derive(Debug)]
pub struct Version {
    major: u64,
    minor: u64,
    patch: u64,
    pre: Vec<String>,
    build: Vec<String>,
}

impl View for Version {
    type V = VersionView;

    closed spec fn view(&self) -> VersionView {
        VersionView {
            major: self.major as nat,
            minor: self.minor as nat,
            patch: self.patch as nat,
            pre: texts(self.pre@),
            build: texts(self.build@),
        }
    }
}

/// A copy of a list of strings.
fn copy_strings(v: &Vec<String>) -> (r: Vec<String>)
    ensures
        texts(r@) == texts(v@),
{
    let mut r: Vec<String> = Vec::new();
    let n: usize = v.len();
    let mut k: usize = 0;
    while k < n
        invariant
            n == v@.len(),
            k <= n,
            r@.len() == k,
            forall|j: int| 0 <= j < k ==> r@[j]@ == v@[j]@,
        decreases n - k,
    {
        r.push(v[k].clone());
        k = k + 1;
    }
    assert(texts(r@) =~= texts(v@));
    r
}

/// Whether two lists hold the same strings in the same order.
fn same_strings(a: &Vec<String>, b: &Vec<String>) -> (r: bool)
    ensures
        r == (texts(a@) == texts(b@)),
{
    let m: usize = first_unequal(a, b);
    proof {
        lemma_mismatch(texts(a@), texts(b@));
        if m == a@.len() && m == b@.len() {
            assert(texts(a@) =~= texts(b@));
        }
    }
    m == a.len() && m == b.len()
}

impl Version {
    /// What holds of every version: its identifiers are ones that the
    /// grammar admits, and its three numbers fit in 64 bits.
    #[verifier::type_invariant]
    pub open spec fn inv(&self) -> bool {
        self@.wf() && self@.fits()
    }

    /// The version `major.minor.patch`, without pre-release or build
    /// metadata.
    pub fn new(major: u64, minor: u64, patch: u64) -> (v: Version)
        ensures
            v@ == (VersionView {
                major: major as nat,
                minor: minor as nat,
                patch: patch as nat,
                pre: Seq::empty(),
                build: Seq::empty(),
            }),
    {
        let v = Version { major, minor, patch, pre: Vec::new(), build: Vec::new() };
        assert(v@.pre =~= Seq::empty());
        assert(v@.build =~= Seq::empty());
        v
    }

    /// Reads a text as a semantic version.
    ///
    /// Succeeds exactly on the texts that denote a version whose three
    /// numbers fit in 64 bits, and then returns that version. Any other text
    /// comes back in the error.
    pub fn parse(s: &str) -> (r: Result<Version, VersionParseError>)
        ensures
            r is Ok <==> parsed(s@) is Some && parsed(s@).unwrap().fits(),
            match r {
                Ok(v) => parsed(s@) == Some(v@),
                Err(e) => e.input@ == s@,
            },
    {
        if !s.is_ascii() {
            proof {
                if parsed(s@) is Some {
                    lemma_parsed_is_ascii(s@);
                }
            }
            return Err(VersionParseError { input: s.to_owned() });
        }
        let n: usize = ascii_len(s);
        let plus: usize = find_byte(s, 43u8);
        let head: &str = s.substring_ascii(0, plus);
        let dash: usize = find_byte(head, 45u8);
        let core: Vec<String> = split_on(head.substring_ascii(0, dash), 46u8);
        let pre: Vec<String> = if dash < plus {
            split_on(head.substring_ascii(dash + 1, plus), 46u8)
        } else {
            Vec::new()
        };
        let build: Vec<String> = if plus < n {
            split_on(s.substring_ascii(plus + 1, n), 46u8)
        } else {
            Vec::new()
        };
        if core.len() != 3 {
            return Err(VersionParseError { input: s.to_owned() });
        }
        assert(texts(core@)[0] == core@[0]@);
        assert(texts(core@)[1] == core@[1]@);
        assert(texts(core@)[2] == core@[2]@);
        let major: u64 = match read_numeral(core[0].as_str()) {
            Some(x) => x,
            None => {
                return Err(VersionParseError { input: s.to_owned() });
            },
        };
        let minor: u64 = match read_numeral(core[1].as_str()) {
            Some(x) => x,
            None => {
                return Err(VersionParseError { input: s.to_owned() });
            },
        };
        let patch: u64 = match read_numeral(core[2].as_str()) {
            Some(x) => x,
            None => {
                return Err(VersionParseError { input: s.to_owned() });
            },
        };
        if !check_pre_identifiers(&pre) {
            return Err(VersionParseError { input: s.to_owned() });
        }
        if !check_build_identifiers(&build) {
            return Err(VersionParseError { input: s.to_owned() });
        }
        assert(texts(pre@) =~= parsed(s@).unwrap().pre);
        assert(texts(build@) =~= parsed(s@).unwrap().build);
        Ok(Version { major, minor, patch, pre, build })
    }

    /// The major number.
    pub fn major(&self) -> (r: u64)
        ensures
            r == self@.major,
    {
        self.major
    }

    /// The minor number.
    pub fn minor(&self) -> (r: u64)
        ensures
            r == self@.minor,
    {
        self.minor
    }

    /// The patch number.
    pub fn patch(&self) -> (r: u64)
        ensures
            r == self@.patch,
    {
        self.patch
    }

    /// The identifiers of the pre-release; none for a release.
    pub fn pre(&self) -> (r: &Vec<String>)
        ensures
            texts(r@) == self@.pre,
    {
        &self.pre
    }

    /// The identifiers of the build metadata.
    pub fn build(&self) -> (r: &Vec<String>)
        ensures
            texts(r@) == self@.build,
    {
        &self.build
    }

    /// The text `MAJOR.MINOR.PATCH` of the three numbers.
    pub fn core_string(&self) -> (r: String)
        ensures
            r@ == rendered_core(self@.major, self@.minor, self@.patch),
    {
        proof {
            lemma_rendered_core(self@.major, self@.minor, self@.patch);
        }
        let mut r = write_numeral(self.major);
        r.append(".");
        let minor = write_numeral(self.minor);
        r.append(minor.as_str());
        r.append(".");
        let patch = write_numeral(self.patch);
        r.append(patch.as_str());
        proof {
            reveal_strlit(".");
            assert("."@ =~= seq!['.']);
        }
        r
    }

    /// The text of the version, which `parse` reads back as this version.
    pub fn to_string(&self) -> (r: String)
        ensures
            r@ == rendered(self@),
    {
        proof {
            reveal_strlit(".");
            reveal_strlit("-");
            reveal_strlit("+");
            assert("-"@ =~= seq!['-']);
            assert("+"@ =~= seq!['+']);
        }
        let mut r = self.core_string();
        if self.pre.len() > 0 {
            r.append("-");
            let pre = join_with(&self.pre, ".");
            r.append(pre.as_str());
        }
        if self.build.len() > 0 {
            r.append("+");
            let build = join_with(&self.build, ".");
            r.append(build.as_str());
        }
        assert(r@ =~= rendered(self@));
        r
    }

    /// The precedence of this version relative to `other`: `Less` where
    /// this one is the earlier version, `Greater` where it is the later one.
    pub fn precedence(&self, other: &Version) -> (r: Ordering)
        ensures
            r == precedence(self@, other@),
    {
        proof {
            use_type_invariant(self);
            use_type_invariant(other);
        }
        match order_numbers(self.major, other.major) {
            Ordering::Less => Ordering::Less,
            Ordering::Greater => Ordering::Greater,
            Ordering::Equal => match order_numbers(self.minor, other.minor) {
                Ordering::Less => Ordering::Less,
                Ordering::Greater => Ordering::Greater,
                Ordering::Equal => match order_numbers(self.patch, other.patch) {
                    Ordering::Less => Ordering::Less,
                    Ordering::Greater => Ordering::Greater,
                    Ordering::Equal => order_pre_releases(&self.pre, &other.pre),
                },
            },
        }
    }
}

impl Clone for Version {
    fn clone(&self) -> (r: Version)
        ensures
            r@ == self@,
    {
        proof {
            use_type_invariant(self);
        }
        Version {
            major: self.major,
            minor: self.minor,
            patch: self.patch,
            pre: copy_strings(&self.pre),
            build: copy_strings(&self.build),
        }
    }
}

impl PartialEq for Version {
    /// Two versions are equal where all their parts are: the three numbers,
    /// the pre-release and the build metadata.
    fn eq(&self, other: &Version) -> (r: bool) {
        self.major == other.major && self.minor == other.minor && self.patch == other.patch
            && same_strings(&self.pre, &other.pre) && same_strings(&self.build, &other.build)
    }
}

impl vstd::std_specs::cmp::PartialEqSpecImpl for Version {
    open spec fn obeys_eq_spec() -> bool {
        true
    }

    open spec fn eq_spec(&self, other: &Version) -> bool {
        self@ == other@
    }
}

impl Eq for Version {

}

} // verus!
