use vstd::prelude::*;

verus! {

/// A type with no values.
///
/// `Never` says that a value of some type is never produced: a function that
/// returns `Result<T, Never>` can only return `Ok`, and one that returns
/// `Option<Never>` can only return `None`.
///
/// Its single variant wraps `Infallible`, which itself has no values, so the
/// variant can never be built.
#[derive(Debug)]
pub enum Never {
    Impossible(std::convert::Infallible),
}

} // verus!
