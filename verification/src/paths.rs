//! Where files live: joining paths the way a Unix path buffer joins them, and
//! the locations of stored images, uploads and the bundled web assets.

use vstd::prelude::*;
use crate::text::{chars_of, concat, string_of};

verus! {

/// `part` appended to `base` as a Unix path buffer does it: an absolute `part`
/// (one that starts with `/`) replaces `base`; otherwise a `/` separates the two
/// unless `base` is empty or already ends with one.
pub open spec fn joined(base: Seq<char>, part: Seq<char>) -> Seq<char> {
    if part.len() > 0 && part[0] == '/' {
        part
    } else if base.len() > 0 && base.last() != '/' {
        base.push('/') + part
    } else {
        base + part
    }
}

/// The directory, relative to the working directory, that holds stored images.
pub open spec fn storage_dir() -> Seq<char> {
    "ondisk_storage"@
}

/// The directory of the bundled font files.
pub open spec fn fonts_dir() -> Seq<char> {
    "./apps/pixakit.ui/dist/fonts/"@
}

/// The directory of the bundled script and style files.
pub open spec fn astro_dir() -> Seq<char> {
    "./apps/pixakit.ui/dist/_astro/"@
}

/// Joins `part` onto `base`.
pub fn join_path(base: &str, part: &str) -> (p: String)
    ensures
        p@ == joined(base@, part@),
{
    let q = chars_of(part);
    if q.len() > 0 && q[0] == '/' {
        return string_of(&q);
    }
    let mut out = chars_of(base);
    if out.len() > 0 && out[out.len() - 1] != '/' {
        out.push('/');
    }
    let mut rest = q;
    out.append(&mut rest);
    string_of(&out)
}

/// The name of the storage directory.
pub fn storage_dir_name() -> (s: String)
    ensures
        s@ == storage_dir(),
{
    "ondisk_storage".to_owned()
}

/// The storage directory under the working directory `current_dir`.
pub fn storage_location(current_dir: &str) -> (p: String)
    ensures
        p@ == joined(current_dir@, storage_dir()),
{
    let name = storage_dir_name();
    join_path(current_dir, name.as_str())
}

/// The directory that an upload writes into: the storage directory, or the
/// `path` of the request joined onto it.
pub fn upload_base_path(path: Option<&str>) -> (p: String)
    ensures
        p@ == (match path {
            Some(sub) => joined(storage_dir(), sub@),
            None => storage_dir(),
        }),
{
    let name = storage_dir_name();
    match path {
        Some(sub) => join_path(name.as_str(), sub),
        None => name,
    }
}

/// The file that an image request for `tail` reads.
pub fn image_file_path(tail: &str) -> (p: String)
    ensures
        p@ == joined(storage_dir(), tail@),
{
    let name = storage_dir_name();
    join_path(name.as_str(), tail)
}

/// The font file that a request for `tail` under the font route reads.
pub fn font_file_path(tail: &str) -> (p: String)
    ensures
        p@ == fonts_dir() + tail@,
{
    concat("./apps/pixakit.ui/dist/fonts/", tail)
}

/// The asset file that a request for `tail` under the asset route reads.
pub fn astro_file_path(tail: &str) -> (p: String)
    ensures
        p@ == astro_dir() + tail@,
{
    concat("./apps/pixakit.ui/dist/_astro/", tail)
}

/// A relative part never leaves the base it is joined onto: the joined path
/// starts with the base and, where the base does not end with a separator,
/// with a separator after it.
pub proof fn lemma_relative_join_keeps_base(base: Seq<char>, part: Seq<char>)
    requires
        base.len() > 0,
        base.last() != '/',
        !(part.len() > 0 && part[0] == '/'),
    ensures
        joined(base, part).take(base.len() as int + 1) == base.push('/'),
{
    assert(joined(base, part).take(base.len() as int + 1) =~= base.push('/'));
}


/// An upload path that is not absolute stays inside the storage directory: the
/// directory it names starts with `ondisk_storage/`.
pub proof fn lemma_upload_within_storage(sub: Seq<char>)
    requires
        !(sub.len() > 0 && sub[0] == '/'),
    ensures
        joined(storage_dir(), sub).take(storage_dir().len() as int + 1) == storage_dir().push('/'),
{
    reveal_strlit("ondisk_storage");
    lemma_relative_join_keeps_base(storage_dir(), sub);
}

} // verus!
