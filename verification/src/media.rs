//! Media types guessed from file names.

use vstd::prelude::*;

verus! {

/// The media type that `mime_guess` guesses for a path, written out as text.
pub uninterp spec fn guessed_mime(path: Seq<char>) -> Seq<char>;

/// Calls `mime_guess::from_path(path).first_or_octet_stream()` and writes the
/// media type out with `to_string`. The guess is a table lookup on the extension
/// of the path's file name, so it depends on the path alone. The crate documents
/// that a path without an extension (one without any `.` has none) gets an empty
/// guess, which `first_or_octet_stream` turns into `application/octet-stream`.
/// Which type a known extension maps to is left to the name `guessed_mime`.
#[verifier::external_body]
pub(crate) fn guess_mime(path: &str) -> (m: String)
    ensures
        m@ == guessed_mime(path@),
        !path@.contains('.') ==> m@ == "application/octet-stream"@,
{
    mime_guess::from_path(path).first_or_octet_stream().to_string()
}

} // verus!
