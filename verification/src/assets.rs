//! Serving the bundled web assets: fonts and script or style files.

use vstd::prelude::*;
use crate::media::{guess_mime, guessed_mime};
use crate::reply::{content, message, bytes_reply, text_reply, Reply, ReplyView, Status};

verus! {

/// A file's bytes are served with the media type guessed from its path; a file
/// that could not be read is a not-found reply with the given message.
pub open spec fn spec_asset_reply(file_path: Seq<char>, contents: Option<Seq<u8>>, missing: Seq<char>) -> ReplyView {
    match contents {
        Some(bytes) => bytes_reply(guessed_mime(file_path), bytes),
        None => text_reply(Status::NotFound, missing),
    }
}

/// The reply for an asset at `file_path`, given its bytes where it could be read.
pub fn asset_reply(file_path: &str, contents: Option<Vec<u8>>, missing: String) -> (r: Reply)
    ensures
        r@ == spec_asset_reply(file_path@, match contents {
            Some(b) => Some(b@),
            None => None,
        }, missing@),
{
    match contents {
        Some(bytes) => content(guess_mime(file_path), bytes),
        None => message(Status::NotFound, missing),
    }
}

/// The reply for a font file.
pub fn font_reply(file_path: &str, contents: Option<Vec<u8>>) -> (r: Reply)
    ensures
        r@ == spec_asset_reply(file_path@, match contents {
            Some(b) => Some(b@),
            None => None,
        }, "Font file not found"@),
{
    asset_reply(file_path, contents, "Font file not found".to_owned())
}

/// The reply for a script or style file.
pub fn astro_reply(file_path: &str, contents: Option<Vec<u8>>) -> (r: Reply)
    ensures
        r@ == spec_asset_reply(file_path@, match contents {
            Some(b) => Some(b@),
            None => None,
        }, "File not found"@),
{
    asset_reply(file_path, contents, "File not found".to_owned())
}

} // verus!
