use vstd::prelude::*;
use crate::grammar::rendered_core;
use crate::never::Never;
use crate::package::{Detect, Package, PackageView};

verus! {

/// The directory below which Homebrew keeps what it has installed.
pub open spec fn default_base_dir() -> Seq<char> {
    "/usr/local/Cellar/"@
}

/// The path at which a package is installed below `base_dir`:
/// `base_dir/name/MAJOR.MINOR.PATCH`. Pre-release and build metadata have no
/// part in it.
pub open spec fn install_path(base_dir: Seq<char>, pkg: PackageView) -> Seq<char> {
    base_dir + seq!['/'] + pkg.name + seq!['/'] + rendered_core(
        pkg.version.major,
        pkg.version.minor,
        pkg.version.patch,
    )
}

/// A detector that looks for a package in the directory layout of
/// [Homebrew](https://brew.sh/): a package is installed where something
/// exists at `base_dir/name/MAJOR.MINOR.PATCH`.
pub struct Homebrew {
    pub base_dir: String,
}

/// Asks the file system whether anything exists at `path`, by
/// `std::path::Path::exists`. The answer depends on what is on disk when the
/// call is made, so nothing is claimed of it.
#[verifier::external_body]
fn path_exists(path: &str) -> (found: bool) {
    std::path::Path::new(path).exists()
}

impl Homebrew {
    /// A detector that looks below the default directory,
    /// `/usr/local/Cellar/`.
    pub fn new() -> (r: Self)
        ensures
            r.base_dir@ == default_base_dir(),
    {
        Homebrew { base_dir: "/usr/local/Cellar/".to_owned() }
    }

    /// A detector that looks below `path`.
    pub fn with_base_dir(path: &str) -> (r: Self)
        ensures
            r.base_dir@ == path@,
    {
        Homebrew { base_dir: path.to_owned() }
    }

    /// The path at which this detector looks for `pkg`.
    pub fn install_path(&self, pkg: &Package) -> (r: String)
        ensures
            r@ == install_path(self.base_dir@, pkg@),
    {
        proof {
            reveal_strlit("/");
            assert("/"@ =~= seq!['/']);
        }
        let mut r = self.base_dir.clone();
        r.append("/");
        r.append(pkg.name.as_str());
        r.append("/");
        let core = pkg.version.core_string();
        r.append(core.as_str());
        r
    }

    /// What detection makes of the answer of the file system: the package is
    /// installed where something was found at its install path, and not
    /// installed where nothing was. It is never an error.
    pub fn outcome(found: bool) -> (r: Result<bool, Never>)
        ensures
            r matches Ok(installed) && installed == found,
    {
        Ok(found)
    }
}

impl Default for Homebrew {
    fn default() -> (r: Self)
        ensures
            r.base_dir@ == default_base_dir(),
    {
        Homebrew::new()
    }
}

impl Detect for Homebrew {
    type Error = Never;

    /// Looks once, at the install path of `pkg`, and reports what was found
    /// there. Whatever the file system answers, the result is `Ok`.
    fn detect(&self, pkg: &Package) -> (r: Result<bool, Never>)
        ensures
            r is Ok,
    {
        let path = self.install_path(pkg);
        Homebrew::outcome(path_exists(path.as_str()))
    }
}

/// Two packages of one name whose versions have the same three numbers are
/// looked for at the same path, whatever their pre-releases and build
/// metadata.
pub proof fn lemma_install_path_ignores_metadata(base_dir: Seq<char>, p: PackageView, q: PackageView)
    requires
        p.name == q.name,
        p.version.major == q.version.major,
        p.version.minor == q.version.minor,
        p.version.patch == q.version.patch,
    ensures
        install_path(base_dir, p) == install_path(base_dir, q),
{
}

} // verus!
