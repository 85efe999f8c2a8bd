//! Serving a stored image: the cache key of a request, and the decisions taken
//! after the cache lookup and after reading the file. The caller runs the cache
//! and the disk in between.

use vstd::prelude::*;
use crate::media::{guess_mime, guessed_mime};
use crate::paths::{image_file_path, joined, storage_dir};
use crate::reply::{content, failure, bytes_reply, error_reply, BodyView, Reply, ReplyView, Status};
use crate::text::{chars_of, decimal, is_digit, lemma_decimal_injective, lemma_decimal_value, push_decimal, string_of, concat};

verus! {

/// The query part of a cache key: the requested sizes, width first, joined by
/// `&` behind a `?`, or nothing where no size was asked for.
pub open spec fn size_query(width: Option<u32>, height: Option<u32>) -> Seq<char> {
    match (width, height) {
        (None, None) => Seq::empty(),
        (Some(w), None) => "?width="@ + decimal(w as nat),
        (None, Some(h)) => "?height="@ + decimal(h as nat),
        (Some(w), Some(h)) => "?width="@ + decimal(w as nat) + "&height="@ + decimal(h as nat),
    }
}

/// The key under which the image for `tail` at the requested sizes is cached.
pub open spec fn cache_key(tail: Seq<char>, width: Option<u32>, height: Option<u32>) -> Seq<char> {
    "/images/"@ + tail + size_query(width, height)
}

/// The content type of an image served from the cache.
pub open spec fn cached_type() -> Seq<char> {
    "image/webp"@
}

/// Where a request for an image looks: a cache key and a file.
pub struct ImageLookup {
    pub cache_key: String,
    pub file_path: String,
}

/// Builds the cache key and the file path of a request for `tail` with the
/// given sizes.
pub fn plan_image_lookup(tail: &str, width: Option<u32>, height: Option<u32>) -> (l: ImageLookup)
    ensures
        l.cache_key@ == cache_key(tail@, width, height),
        l.file_path@ == joined(storage_dir(), tail@),
{
    let mut key = chars_of("/images/");
    let mut t = chars_of(tail);
    key.append(&mut t);
    match (width, height) {
        (None, None) => {
            assert(key@ =~= cache_key(tail@, width, height));
        },
        (Some(w), None) => {
            let mut q = chars_of("?width=");
            key.append(&mut q);
            push_decimal(&mut key, w);
            assert(key@ =~= cache_key(tail@, width, height));
        },
        (None, Some(h)) => {
            let mut q = chars_of("?height=");
            key.append(&mut q);
            push_decimal(&mut key, h);
            assert(key@ =~= cache_key(tail@, width, height));
        },
        (Some(w), Some(h)) => {
            let mut q = chars_of("?width=");
            key.append(&mut q);
            push_decimal(&mut key, w);
            let mut r = chars_of("&height=");
            key.append(&mut r);
            push_decimal(&mut key, h);
            assert(key@ =~= cache_key(tail@, width, height));
        },
    }
    ImageLookup { cache_key: string_of(&key), file_path: image_file_path(tail) }
}

/// What follows the cache lookup: serve the cached bytes, or read the file.
pub enum AfterCache {
    Serve(Reply),
    ReadFile(String),
}

/// The abstract decision after the cache lookup.
pub enum AfterCacheView {
    Serve(ReplyView),
    ReadFile(Seq<char>),
}

impl View for AfterCache {
    type V = AfterCacheView;

    open spec fn view(&self) -> AfterCacheView {
        match self {
            AfterCache::Serve(r) => AfterCacheView::Serve(r@),
            AfterCache::ReadFile(p) => AfterCacheView::ReadFile(p@),
        }
    }
}

/// Cached bytes are served as a webp image; without them the file is read.
pub open spec fn spec_after_cache(file_path: Seq<char>, cached: Option<Seq<u8>>) -> AfterCacheView {
    match cached {
        Some(bytes) => AfterCacheView::Serve(bytes_reply(cached_type(), bytes)),
        None => AfterCacheView::ReadFile(file_path),
    }
}

/// Decides what follows the cache lookup, given what the cache held under the
/// request's key.
pub fn after_cache_lookup(lookup: &ImageLookup, cached: Option<Vec<u8>>) -> (o: AfterCache)
    ensures
        o@ == spec_after_cache(lookup.file_path@, match cached {
            Some(b) => Some(b@),
            None => None,
        }),
{
    match cached {
        Some(bytes) => AfterCache::Serve(content("image/webp".to_owned(), bytes)),
        None => AfterCache::ReadFile(lookup.file_path.clone()),
    }
}

/// What reading the image file gave: no such regular file, a failure with its
/// message, or the file's bytes.
pub enum FileRead {
    Missing,
    Failed(String),
    Read(Vec<u8>),
}

/// The abstract outcome of reading the file.
pub enum FileReadView {
    Missing,
    Failed(Seq<char>),
    Read(Seq<u8>),
}

impl View for FileRead {
    type V = FileReadView;

    open spec fn view(&self) -> FileReadView {
        match self {
            FileRead::Missing => FileReadView::Missing,
            FileRead::Failed(e) => FileReadView::Failed(e@),
            FileRead::Read(b) => FileReadView::Read(b@),
        }
    }
}

/// What follows reading the file: an entry to store in the cache, if any, and
/// the reply.
pub struct AfterFile {
    pub store: Option<(String, Vec<u8>)>,
    pub reply: Reply,
}

/// The abstract outcome after reading the file.
pub struct AfterFileView {
    pub store: Option<(Seq<char>, Seq<u8>)>,
    pub reply: ReplyView,
}

impl View for AfterFile {
    type V = AfterFileView;

    open spec fn view(&self) -> AfterFileView {
        AfterFileView {
            store: match self.store {
                Some((k, b)) => Some((k@, b@)),
                None => None,
            },
            reply: self.reply@,
        }
    }
}

/// A missing file is a not-found error; a failed read a server error that names
/// the failure; read bytes are stored under the key and served with the media
/// type guessed from the file path.
pub open spec fn spec_after_file(key: Seq<char>, file_path: Seq<char>, read: FileReadView) -> AfterFileView {
    match read {
        FileReadView::Missing => AfterFileView {
            store: None,
            reply: error_reply(Status::NotFound, "File not found"@),
        },
        FileReadView::Failed(e) => AfterFileView {
            store: None,
            reply: error_reply(Status::ServerError, "Failed to read file: "@ + e),
        },
        FileReadView::Read(bytes) => AfterFileView {
            store: Some((key, bytes)),
            reply: bytes_reply(guessed_mime(file_path), bytes),
        },
    }
}

/// The reply and cache entry for a file's bytes, given the media type guessed
/// for its path.
pub fn stored_file_outcome(key: String, media_type: String, bytes: Vec<u8>) -> (o: AfterFile)
    ensures
        o@ == (AfterFileView {
            store: Some((key@, bytes@)),
            reply: bytes_reply(media_type@, bytes@),
        }),
{
    let copy = bytes.clone();
    assert(copy@ == bytes@);
    AfterFile { store: Some((key, copy)), reply: content(media_type, bytes) }
}

/// Decides what follows reading the image file.
pub fn after_file_read(lookup: &ImageLookup, read: FileRead) -> (o: AfterFile)
    ensures
        o@ == spec_after_file(lookup.cache_key@, lookup.file_path@, read@),
{
    match read {
        FileRead::Missing => AfterFile {
            store: None,
            reply: failure(Status::NotFound, "File not found".to_owned()),
        },
        FileRead::Failed(e) => {
            AfterFile {
                store: None,
                reply: failure(Status::ServerError, concat("Failed to read file: ", e.as_str())),
            }
        },
        FileRead::Read(bytes) => {
            let media_type = guess_mime(lookup.file_path.as_str());
            stored_file_outcome(lookup.cache_key.clone(), media_type, bytes)
        },
    }
}


/// No character of `s` is `c`.
pub open spec fn lacks(s: Seq<char>, c: char) -> bool {
    forall|i: int| 0 <= i < s.len() ==> s[i] != c
}

/// Where two texts free of `c` are each followed by a rest that is empty or
/// starts with `c`, equal concatenations have equal parts.
proof fn lemma_cut(x1: Seq<char>, r1: Seq<char>, x2: Seq<char>, r2: Seq<char>, c: char)
    requires
        x1 + r1 == x2 + r2,
        lacks(x1, c),
        lacks(x2, c),
        r1.len() == 0 || r1[0] == c,
        r2.len() == 0 || r2[0] == c,
    ensures
        x1 == x2,
        r1 == r2,
{
    let s = x1 + r1;
    if x1.len() < x2.len() {
        if r1.len() > 0 {
            assert(s[x1.len() as int] == r1[0]);
            assert(s[x1.len() as int] == (x2 + r2)[x1.len() as int]);
            assert(x2[x1.len() as int] != c);
        } else {
            assert((x2 + r2).len() >= x2.len());
        }
    } else if x2.len() < x1.len() {
        if r2.len() > 0 {
            assert((x2 + r2)[x2.len() as int] == r2[0]);
            assert(s[x2.len() as int] == x1[x2.len() as int]);
            assert(x1[x2.len() as int] != c);
        } else {
            assert(s.len() >= x1.len());
        }
    }
    assert(x1 =~= s.take(x1.len() as int));
    assert(x2 =~= (x2 + r2).take(x2.len() as int));
    assert(r1 =~= s.skip(x1.len() as int));
    assert(r2 =~= (x2 + r2).skip(x2.len() as int));
}

proof fn lemma_decimal_lacks(n: nat, c: char)
    requires
        !is_digit(c),
    ensures
        lacks(decimal(n), c),
{
    lemma_decimal_value(n);
}

/// The sizes can be read back from a size query.
proof fn lemma_size_query_injective(w1: Option<u32>, h1: Option<u32>, w2: Option<u32>, h2: Option<u32>)
    requires
        size_query(w1, h1) == size_query(w2, h2),
    ensures
        w1 == w2,
        h1 == h2,
{
    reveal_strlit("?width=");
    reveal_strlit("?height=");
    reveal_strlit("&height=");
    let q = size_query(w1, h1);
    let wl = "?width="@;
    let hl = "?height="@;
    let al = "&height="@;
    match (w1, h1) {
        (None, None) => {
            assert(q.len() == 0);
            match (w2, h2) {
                (None, None) => {},
                (Some(w), None) => { assert(size_query(w2, h2)[0] == '?'); },
                (None, Some(h)) => { assert(size_query(w2, h2)[0] == '?'); },
                (Some(w), Some(h)) => { assert(size_query(w2, h2)[0] == '?'); },
            }
        },
        _ => {
            assert(q.len() > 1);
            match (w1, h1, w2, h2) {
                (Some(a), None, Some(b), None) => {
                    assert(decimal(a as nat) =~= q.skip(7));
                    assert(decimal(b as nat) =~= size_query(w2, h2).skip(7));
                    lemma_decimal_injective(a as nat, b as nat);
                },
                (None, Some(a), None, Some(b)) => {
                    assert(decimal(a as nat) =~= q.skip(8));
                    assert(decimal(b as nat) =~= size_query(w2, h2).skip(8));
                    lemma_decimal_injective(a as nat, b as nat);
                },
                (Some(a), Some(b), Some(c), Some(d)) => {
                    let da = decimal(a as nat);
                    let dc = decimal(c as nat);
                    lemma_decimal_lacks(a as nat, '&');
                    lemma_decimal_lacks(c as nat, '&');
                    assert(q.skip(7) =~= da + (al + decimal(b as nat)));
                    assert(size_query(w2, h2).skip(7) =~= dc + (al + decimal(d as nat)));
                    lemma_cut(da, al + decimal(b as nat), dc, al + decimal(d as nat), '&');
                    lemma_decimal_injective(a as nat, c as nat);
                    assert(decimal(b as nat) =~= (al + decimal(b as nat)).skip(8));
                    assert(decimal(d as nat) =~= (al + decimal(d as nat)).skip(8));
                    lemma_decimal_injective(b as nat, d as nat);
                },
                (Some(a), None, Some(c), Some(d)) => {
                    let da = decimal(a as nat);
                    let dc = decimal(c as nat);
                    lemma_decimal_lacks(a as nat, '&');
                    lemma_decimal_lacks(c as nat, '&');
                    assert(q.skip(7) =~= da + Seq::<char>::empty());
                    assert(size_query(w2, h2).skip(7) =~= dc + (al + decimal(d as nat)));
                    lemma_cut(da, Seq::<char>::empty(), dc, al + decimal(d as nat), '&');
                },
                (Some(a), Some(b), Some(c), None) => {
                    let da = decimal(a as nat);
                    let dc = decimal(c as nat);
                    lemma_decimal_lacks(a as nat, '&');
                    lemma_decimal_lacks(c as nat, '&');
                    assert(q.skip(7) =~= da + (al + decimal(b as nat)));
                    assert(size_query(w2, h2).skip(7) =~= dc + Seq::<char>::empty());
                    lemma_cut(da, al + decimal(b as nat), dc, Seq::<char>::empty(), '&');
                },
                (_, _, None, None) => {
                    assert(size_query(w2, h2).len() == 0);
                },
                _ => {
                    assert(q[1] == size_query(w2, h2)[1]);
                },
            }
        },
    }
}

/// Two image requests share a cache key exactly when they ask for the same path
/// at the same sizes, for paths without a `?` (a request path cannot hold one).
pub proof fn lemma_cache_key_injective(
    tail1: Seq<char>,
    width1: Option<u32>,
    height1: Option<u32>,
    tail2: Seq<char>,
    width2: Option<u32>,
    height2: Option<u32>,
)
    requires
        lacks(tail1, '?'),
        lacks(tail2, '?'),
    ensures
        cache_key(tail1, width1, height1) == cache_key(tail2, width2, height2) <==> (tail1 == tail2
            && width1 == width2 && height1 == height2),
{
    reveal_strlit("/images/");
    reveal_strlit("?width=");
    reveal_strlit("?height=");
    let k1 = cache_key(tail1, width1, height1);
    let k2 = cache_key(tail2, width2, height2);
    if k1 == k2 {
        let q1 = size_query(width1, height1);
        let q2 = size_query(width2, height2);
        assert(k1.skip(8) =~= tail1 + q1);
        assert(k2.skip(8) =~= tail2 + q2);
        lemma_cut(tail1, q1, tail2, q2, '?');
        lemma_size_query_injective(width1, height1, width2, height2);
    }
}

/// An image that a first request read from disk and stored is what a later
/// request for the same path and sizes is served, byte for byte, where the cache
/// hands back what was stored under the key.
pub proof fn lemma_stored_image_served(
    tail: Seq<char>,
    width: Option<u32>,
    height: Option<u32>,
    bytes: Seq<u8>,
)
    ensures
        ({
            let key = cache_key(tail, width, height);
            let path = joined(storage_dir(), tail);
            &&& spec_after_file(key, path, FileReadView::Read(bytes)).store == Some((key, bytes))
            &&& spec_after_cache(path, Some(bytes)) == AfterCacheView::Serve(
                bytes_reply(cached_type(), bytes),
            )
        }),
{
}


/// A file that was read is served whole: the reply carries exactly the bytes
/// read, which are also exactly the bytes stored under the request's key, with
/// the media type guessed from the file's path.
pub proof fn lemma_read_file_served_whole(key: Seq<char>, file_path: Seq<char>, bytes: Seq<u8>)
    ensures
        ({
            let o = spec_after_file(key, file_path, FileReadView::Read(bytes));
            &&& o.store == Some((key, bytes))
            &&& o.reply.status == Status::Success
            &&& o.reply.content_type == Some(guessed_mime(file_path))
            &&& o.reply.body == BodyView::Bytes(bytes)
            &&& o.store matches Some((_, stored)) && o.reply.body == BodyView::Bytes(stored)
        }),
{
}

} // verus!
