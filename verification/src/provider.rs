//! Start-up decisions: which storage the server uses, and what it reports when
//! it prepares the storage directory.

use vstd::prelude::*;
use crate::text::concat;

verus! {

/// The lowercase form of a text, as `str::to_lowercase` computes it.
pub uninterp spec fn lowercase(s: Seq<char>) -> Seq<char>;

/// Every character of `s` is an ASCII character.
pub open spec fn is_ascii_text(s: Seq<char>) -> bool {
    forall|i: int| 0 <= i < s.len() ==> (s[i] as int) < 128
}

/// The ASCII lowercase of a character: `A` to `Z` become `a` to `z`, every other
/// character stays.
pub open spec fn ascii_lower(c: char) -> char {
    if 'A' <= c && c <= 'Z' {
        ((c as int) + 32) as char
    } else {
        c
    }
}

/// Calls `str::to_lowercase` (std). Its result depends on the text alone. On
/// ASCII text it lowercases character by character as `to_ascii_lowercase`
/// does, since the Unicode lowercase mapping of an ASCII character is its ASCII
/// lowercase; which characters it gives for other text (the full Unicode
/// mapping) is left to the name `lowercase`.
#[verifier::external_body]
fn to_lowercase(s: &str) -> (r: String)
    ensures
        r@ == lowercase(s@),
        is_ascii_text(s@) ==> r@ == s@.map_values(|c: char| ascii_lower(c)),
{
    s.to_lowercase()
}

/// The provider setting in force: the configured one, or `ONDISK` by default.
pub open spec fn provider_setting(configured: Option<Seq<char>>) -> Seq<char> {
    match configured {
        Some(p) => p,
        None => "ONDISK"@,
    }
}

/// Whether a lowercased provider setting names the on-disk storage.
pub fn names_ondisk(lowered: &str) -> (b: bool)
    ensures
        b == (lowered@ == "ondisk"@),
{
    lowered.to_owned() == "ondisk".to_owned()
}

/// Whether the server keeps its images on disk: the provider setting, lowercased,
/// is `ondisk`. Without a setting it does.
pub fn uses_ondisk_storage(configured: Option<&str>) -> (b: bool)
    ensures
        b == (lowercase(provider_setting(match configured {
            Some(p) => Some(p@),
            None => None,
        })) == "ondisk"@),
        configured is None ==> b,
{
    let setting = match configured {
        Some(p) => p,
        None => "ONDISK",
    };
    let lowered = to_lowercase(setting);
    proof {
        if configured is None {
            reveal_strlit("ONDISK");
            reveal_strlit("ondisk");
            assert(is_ascii_text(setting@));
            assert(lowered@ =~= "ondisk"@);
        }
    }
    names_ondisk(lowered.as_str())
}

/// What is reported after trying to create the storage directory at `path`:
/// that it was created, or the failure.
pub fn creation_report(path: &str, outcome: Result<(), &str>) -> (s: String)
    ensures
        s@ == (match outcome {
            Ok(()) => "Created directory: "@ + path@,
            Err(e) => "Failed to create directory: "@ + e@,
        }),
{
    match outcome {
        Ok(()) => concat("Created directory: ", path),
        Err(e) => concat("Failed to create directory: ", e),
    }
}

} // verus!
