//! Host values that the library carries but does not look inside.

use vstd::prelude::*;

verus! {

/// A filesystem path, carried through errors and launch options.
#[verifier::external_type_specification]
#[verifier::external_body]
pub struct ExPathBuf(std::path::PathBuf);

/// An operating-system error, carried through errors.
#[verifier::external_type_specification]
#[verifier::external_body]
pub struct ExIoError(std::io::Error);

/// A monotonic clock reading, carried through state snapshots.
#[verifier::external_type_specification]
#[verifier::external_body]
pub struct ExInstant(std::time::Instant);

/// Trusted: `PathBuf::clone`, so that values holding a path can be cloned.
/// Nothing is stated of the copy.
pub assume_specification[ <std::path::PathBuf as std::clone::Clone>::clone ](
    path: &std::path::PathBuf,
) -> std::path::PathBuf;

/// What `Path::display` renders of a path; it depends on the path alone.
pub uninterp spec fn path_display(path: std::path::PathBuf) -> Seq<char>;

/// Trusted: `Path::display` rendered with `ToString::to_string`. The result
/// is named `path_display` of the path.
#[verifier::external_body]
pub(crate) fn path_text(path: &std::path::PathBuf) -> (r: String)
    ensures
        r@ == path_display(*path),
{
    path.display().to_string()
}

/// Trusted: `io::Error`'s `Display` rendered with `ToString::to_string`. What
/// it renders is not stated.
#[verifier::external_body]
pub(crate) fn io_error_text(error: &std::io::Error) -> String {
    error.to_string()
}

/// Trusted: `Instant::elapsed` in whole seconds (`Duration::as_secs`). The
/// value depends on the clock, so nothing is stated of it.
#[verifier::external_body]
pub(crate) fn elapsed_secs(since: &std::time::Instant) -> u64 {
    since.elapsed().as_secs()
}

} // verus!
