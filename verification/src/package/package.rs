use vstd::prelude::*;
use std::cmp::Ordering;
use vstd::std_specs::cmp::{PartialEqSpec, PartialOrdSpec};
use crate::grammar::{parsed, VersionView};
use crate::order::opposite;
use crate::precedence::{
    lemma_precedence_dual, lemma_precedence_reflexive, lemma_precedence_transitive, precedence,
};
use crate::version::{Version, VersionParseError};

verus! {

/// A package as a mathematical value: its name and its version.
pub struct PackageView {
    pub name: Seq<char>,
    pub version: VersionView,
}

/// A package that may be installed on a host: a name and a semantic
/// version.
#[derive(Clone, Debug)]
pub struct Package {
    pub name: String,
    pub version: Version,
}

impl View for Package {
    type V = PackageView;

    open spec fn view(&self) -> PackageView {
        PackageView { name: self.name@, version: self.version@ }
    }
}

impl Package {
    /// The package `name` at `version`.
    pub fn new(name: &str, version: Version) -> (p: Package)
        ensures
            p@ == (PackageView { name: name@, version: version@ }),
    {
        Package { name: name.to_owned(), version }
    }

    /// The package `name` at the version that the text `version` denotes.
    ///
    /// Fails exactly where `Version::parse` fails on `version`, with its
    /// error.
    pub fn parse(name: &str, version: &str) -> (r: Result<Package, VersionParseError>)
        ensures
            r is Ok <==> parsed(version@) is Some && parsed(version@).unwrap().fits(),
            match r {
                Ok(p) => p@.name == name@ && parsed(version@) == Some(p@.version),
                Err(e) => e.input@ == version@,
            },
    {
        match Version::parse(version) {
            Ok(v) => Ok(Package::new(name, v)),
            Err(e) => Err(e),
        }
    }
}

impl PartialEq for Package {
    /// Two packages are equal where their names are and their versions are.
    fn eq(&self, other: &Package) -> (r: bool) {
        self.name == other.name && self.version == other.version
    }
}

impl vstd::std_specs::cmp::PartialEqSpecImpl for Package {
    open spec fn obeys_eq_spec() -> bool {
        true
    }

    open spec fn eq_spec(&self, other: &Package) -> bool {
        self@ == other@
    }
}

impl Eq for Package {

}

impl PartialOrd for Package {
    /// Packages of one name are ordered by the precedence of their versions;
    /// packages of different names are not ordered at all.
    fn partial_cmp(&self, other: &Package) -> (r: Option<Ordering>) {
        if self.name == other.name {
            Some(self.version.precedence(&other.version))
        } else {
            None
        }
    }
}

impl vstd::std_specs::cmp::PartialOrdSpecImpl for Package {
    open spec fn obeys_partial_cmp_spec() -> bool {
        true
    }

    open spec fn partial_cmp_spec(&self, other: &Package) -> Option<Ordering> {
        if self@.name == other@.name {
            Some(precedence(self@.version, other@.version))
        } else {
            None
        }
    }
}

/// Equal packages are ordered, and neither comes before the other.
pub proof fn lemma_equal_packages_are_level(a: Package, b: Package)
    requires
        a.eq_spec(&b),
    ensures
        a.partial_cmp_spec(&b) == Some(Ordering::Equal),
{
    lemma_precedence_reflexive(a@.version, b@.version);
}

/// Two packages are ordered exactly where they have the same name.
pub proof fn lemma_ordered_within_a_name(a: Package, b: Package)
    ensures
        a.partial_cmp_spec(&b) is Some <==> a@.name == b@.name,
{
}

/// Asked the other way round, the order of two packages is the opposite:
/// where `a` comes before `b`, `b` comes after `a`, and where one is not
/// ordered relative to the other, neither is.
pub proof fn lemma_order_of_packages_is_dual(a: Package, b: Package)
    ensures
        b.partial_cmp_spec(&a) == match a.partial_cmp_spec(&b) {
            Some(o) => Some(opposite(o)),
            None => None,
        },
{
    lemma_precedence_dual(a@.version, b@.version);
}

/// A package that comes before one that comes before a third comes before
/// the third.
pub proof fn lemma_order_of_packages_is_transitive(a: Package, b: Package, c: Package)
    requires
        a.partial_cmp_spec(&b) == Some(Ordering::Less),
        b.partial_cmp_spec(&c) == Some(Ordering::Less),
    ensures
        a.partial_cmp_spec(&c) == Some(Ordering::Less),
{
    lemma_precedence_transitive(a@.version, b@.version, c@.version);
}

} // verus!
