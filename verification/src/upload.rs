//! Checks on an uploaded form field before it is written to disk: the file name
//! taken from its content disposition, its media type, and where it goes.

use vstd::prelude::*;
use crate::paths::{join_path, joined};
use crate::reply::{error_reply, failure, message, text_reply, Reply, ReplyView, Status};
use crate::text::{chars_of, concat, string_of};

verus! {

/// `p` occurs in `s` at index `i`.
pub open spec fn matches_at(s: Seq<char>, p: Seq<char>, i: int) -> bool {
    0 <= i && i + p.len() <= s.len() && s.subrange(i, i + p.len()) == p
}

/// `i` is the first index at which `p` occurs in `s`.
pub open spec fn is_first_match(s: Seq<char>, p: Seq<char>, i: int) -> bool {
    matches_at(s, p, i) && forall|j: int| 0 <= j < i ==> !matches_at(s, p, j)
}

/// The text that marks the file name in a content disposition.
pub open spec fn marker() -> Seq<char> {
    "filename="@
}

/// `s` up to the first occurrence of `p`, or all of `s` where `p` does not occur.
pub open spec fn up_to_match(s: Seq<char>, p: Seq<char>) -> Seq<char> {
    if exists|k: int| is_first_match(s, p, k) {
        s.take(choose|k: int| is_first_match(s, p, k))
    } else {
        s
    }
}

/// The second piece of `cd` split at each `filename=`: the text between the
/// first occurrence and the next one (or the end); none where there is no
/// occurrence.
pub open spec fn filename_field(cd: Seq<char>) -> Option<Seq<char>> {
    if exists|i: int| is_first_match(cd, marker(), i) {
        let i = choose|i: int| is_first_match(cd, marker(), i);
        Some(up_to_match(cd.skip(i + marker().len()), marker()))
    } else {
        None
    }
}

/// `s` without its leading double quotes.
pub open spec fn trim_start_quotes(s: Seq<char>) -> Seq<char>
    decreases s.len(),
{
    if s.len() > 0 && s[0] == '"' {
        trim_start_quotes(s.drop_first())
    } else {
        s
    }
}

/// `s` without its trailing double quotes.
pub open spec fn trim_end_quotes(s: Seq<char>) -> Seq<char>
    decreases s.len(),
{
    if s.len() > 0 && s.last() == '"' {
        trim_end_quotes(s.drop_last())
    } else {
        s
    }
}

/// `s` without the double quotes at either end.
pub open spec fn trim_quotes(s: Seq<char>) -> Seq<char> {
    trim_end_quotes(trim_start_quotes(s))
}

/// The file name that a content disposition value names, if it names one.
pub open spec fn named_file(cd: Option<Seq<char>>) -> Option<Seq<char>> {
    match cd {
        Some(v) => match filename_field(v) {
            Some(f) => Some(trim_quotes(f)),
            None => None,
        },
        None => None,
    }
}

/// Whether `p` occurs in `s` at index `i`.
fn matches_here(s: &Vec<char>, p: &Vec<char>, i: usize) -> (b: bool)
    requires
        i <= s.len(),
    ensures
        b == matches_at(s@, p@, i as int),
{
    if p.len() > s.len() - i {
        return false;
    }
    let mut k: usize = 0;
    while k < p.len()
        invariant
            i + p.len() <= s.len(),
            k <= p.len(),
            forall|j: int| 0 <= j < k ==> s@[i + j] == p@[j],
        decreases p.len() - k,
    {
        if s[i + k] != p[k] {
            assert(s@.subrange(i as int, i + p.len())[k as int] != p@[k as int]);
            return false;
        }
        k = k + 1;
    }
    assert(s@.subrange(i as int, i + p.len()) =~= p@);
    true
}

/// The first index at which `p` occurs in `s`.
fn find(s: &Vec<char>, p: &Vec<char>) -> (r: Option<usize>)
    ensures
        match r {
            Some(i) => is_first_match(s@, p@, i as int),
            None => forall|i: int| !matches_at(s@, p@, i),
        },
{
    let mut i: usize = 0;
    loop
        invariant
            i <= s.len(),
            forall|j: int| 0 <= j < i ==> !matches_at(s@, p@, j),
        ensures
            i == s.len(),
            forall|j: int| 0 <= j <= i ==> !matches_at(s@, p@, j),
        decreases s.len() - i,
    {
        if matches_here(s, p, i) {
            return Some(i);
        }
        if i == s.len() {
            break;
        }
        i = i + 1;
    }
    assert forall|j: int| !matches_at(s@, p@, j) by {
        if 0 <= j < i {
        } else if j == i {
        }
    }
    None
}

/// The characters of `s` from `start` up to `end`.
fn slice_chars(s: &Vec<char>, start: usize, end: usize) -> (r: Vec<char>)
    requires
        start <= end <= s.len(),
    ensures
        r@ == s@.subrange(start as int, end as int),
{
    let mut r: Vec<char> = Vec::new();
    let mut k = start;
    while k < end
        invariant
            start <= k <= end <= s.len(),
            r@ == s@.subrange(start as int, k as int),
        decreases end - k,
    {
        r.push(s[k]);
        k = k + 1;
        assert(r@ =~= s@.subrange(start as int, k as int));
    }
    r
}

/// `s` without the double quotes at either end.
fn trimmed(s: &Vec<char>) -> (r: Vec<char>)
    ensures
        r@ == trim_quotes(s@),
{
    let mut start: usize = 0;
    assert(s@.skip(0) =~= s@);
    while start < s.len() && s[start] == '"'
        invariant
            start <= s.len(),
            trim_start_quotes(s@) == trim_start_quotes(s@.skip(start as int)),
        decreases s.len() - start,
    {
        assert(s@.skip(start as int).drop_first() =~= s@.skip(start + 1));
        start = start + 1;
    }
    assert(trim_start_quotes(s@) == s@.skip(start as int));
    let mut end: usize = s.len();
    while end > start && s[end - 1] == '"'
        invariant
            start <= end <= s.len(),
            trim_quotes(s@) == trim_end_quotes(s@.subrange(start as int, end as int)),
        decreases end - start,
    {
        assert(s@.subrange(start as int, end as int).drop_last() =~= s@.subrange(
            start as int,
            end - 1,
        ));
        end = end - 1;
    }
    assert(s@.skip(start as int).subrange(0, end - start) =~= s@.subrange(start as int, end as int));
    slice_chars(s, start, end)
}

/// The file name that a content disposition value names: the text after the
/// first `filename=`, up to a further `filename=` if there is one, without the
/// double quotes at either end. None where the value is absent or names none.
pub fn extract_filename(content_disposition: Option<&str>) -> (f: Option<String>)
    ensures
        match f {
            Some(name) => named_file(match content_disposition {
                Some(v) => Some(v@),
                None => None,
            }) == Some(name@),
            None => named_file(match content_disposition {
                Some(v) => Some(v@),
                None => None,
            }) is None,
        },
{
    let value = match content_disposition {
        Some(v) => v,
        None => return None,
    };
    let cd = chars_of(value);
    let pat = chars_of("filename=");
    match find(&cd, &pat) {
        None => {
            assert(!exists|i: int| is_first_match(cd@, marker(), i));
            None
        },
        Some(i) => {
            assert(is_first_match(cd@, marker(), i as int));
            assert forall|j: int| is_first_match(cd@, marker(), j) implies j == i by {
                if j < i {
                    assert(!matches_at(cd@, marker(), j));
                } else if j > i {
                    assert(!matches_at(cd@, marker(), i as int));
                }
            }
            assert(i + pat.len() <= cd.len());
            let rest = slice_chars(&cd, i + pat.len(), cd.len());
            assert(rest@ =~= cd@.skip(i + marker().len()));
            let field = match find(&rest, &pat) {
                Some(k) => {
                    assert forall|j: int| is_first_match(rest@, marker(), j) implies j == k by {
                        if j < k {
                            assert(!matches_at(rest@, marker(), j));
                        } else if j > k {
                            assert(!matches_at(rest@, marker(), k as int));
                        }
                    }
                    let r = slice_chars(&rest, 0, k);
                    assert(r@ =~= rest@.take(k as int));
                    r
                },
                None => {
                    assert(!exists|k: int| is_first_match(rest@, marker(), k));
                    rest
                },
            };
            let name = trimmed(&field);
            Some(string_of(&name))
        },
    }
}

/// Whether a field's top-level media type is that of an image. The media type
/// parser lowercases the type, and the field's type is compared with the
/// `image` name by its text; a field without a media type is no image.
pub fn is_image_media(top_type: Option<&str>) -> (b: bool)
    ensures
        b == (match top_type {
            Some(t) => t@ == "image"@,
            None => false,
        }),
{
    match top_type {
        Some(t) => t.to_owned() == "image".to_owned(),
        None => false,
    }
}

/// Where a field is saved, or the reply that refuses it: a field must name a
/// file (checked first) and be an image.
pub open spec fn spec_plan_save(
    base: Seq<char>,
    cd: Option<Seq<char>>,
    top_type: Option<Seq<char>>,
) -> Result<Seq<char>, ReplyView> {
    match named_file(cd) {
        None => Err(error_reply(Status::BadRequest, "Filename not found in content disposition"@)),
        Some(name) => if top_type == Some("image"@) {
            Ok(joined(base, name))
        } else {
            Err(error_reply(Status::BadRequest, "Only image files are allowed"@))
        },
    }
}

/// The view of a save decision.
pub open spec fn save_view(r: Result<String, Reply>) -> Result<Seq<char>, ReplyView> {
    match r {
        Ok(p) => Ok(p@),
        Err(e) => Err(e@),
    }
}

/// Decides where an uploaded field is written under `base_path`, given its
/// content disposition and its top-level media type, or which reply refuses it.
pub fn plan_file_save(base_path: &str, content_disposition: Option<&str>, top_type: Option<&str>) -> (r:
    Result<String, Reply>)
    ensures
        save_view(r) == spec_plan_save(
            base_path@,
            match content_disposition {
                Some(v) => Some(v@),
                None => None,
            },
            match top_type {
                Some(t) => Some(t@),
                None => None,
            },
        ),
{
    let name = match extract_filename(content_disposition) {
        Some(n) => n,
        None => {
            return Err(
                failure(Status::BadRequest, "Filename not found in content disposition".to_owned()),
            );
        },
    };
    if !is_image_media(top_type) {
        return Err(failure(Status::BadRequest, "Only image files are allowed".to_owned()));
    }
    Ok(join_path(base_path, name.as_str()))
}

/// The reply when the upload directory cannot be created.
pub fn directory_failure(error: &str) -> (r: Reply)
    ensures
        r@ == error_reply(Status::ServerError, "Failed to create directory: "@ + error@),
{
    failure(Status::ServerError, concat("Failed to create directory: ", error))
}

/// The reply once every field has been saved.
pub fn upload_done() -> (r: Reply)
    ensures
        r@ == text_reply(Status::Success, "File uploaded successfully"@),
{
    message(Status::Success, "File uploaded successfully".to_owned())
}


proof fn lemma_trim_start(s: Seq<char>)
    ensures
        trim_start_quotes(s).len() == 0 || trim_start_quotes(s)[0] != '"',
    decreases s.len(),
{
    if s.len() > 0 && s[0] == '"' {
        lemma_trim_start(s.drop_first());
    }
}

proof fn lemma_trim_end(s: Seq<char>)
    ensures
        trim_end_quotes(s).len() <= s.len(),
        trim_end_quotes(s) == s.take(trim_end_quotes(s).len() as int),
        trim_end_quotes(s).len() == 0 || trim_end_quotes(s).last() != '"',
    decreases s.len(),
{
    if s.len() > 0 && s.last() == '"' {
        lemma_trim_end(s.drop_last());
        let r = trim_end_quotes(s.drop_last());
        assert(r =~= s.take(r.len() as int));
    } else {
        assert(s =~= s.take(s.len() as int));
    }
}

/// A file name taken from a content disposition neither starts nor ends with a
/// double quote.
pub proof fn lemma_named_file_unquoted(cd: Option<Seq<char>>)
    ensures
        named_file(cd) matches Some(name) ==> (name.len() == 0 || (name[0] != '"' && name.last()
            != '"')),
{
    if let Some(v) = cd {
        if let Some(f) = filename_field(v) {
            lemma_trim_start(f);
            let t = trim_start_quotes(f);
            lemma_trim_end(t);
            let r = trim_end_quotes(t);
            if r.len() > 0 {
                assert(r[0] == t.take(r.len() as int)[0]);
            }
        }
    }
}


/// A field is saved only as an image that names a file, and then at the base
/// path joined with that name; a named field of any other media type gets the
/// image-only refusal, and a field that names no file the missing-name refusal.
pub proof fn lemma_only_images_saved(base: Seq<char>, cd: Option<Seq<char>>, top_type: Option<Seq<char>>)
    ensures
        spec_plan_save(base, cd, top_type) is Ok ==> top_type == Some("image"@) && named_file(
            cd,
        ) is Some,
        spec_plan_save(base, cd, top_type) matches Ok(path) ==> path == joined(
            base,
            named_file(cd)->0,
        ),
        named_file(cd) is Some && top_type != Some("image"@) ==> spec_plan_save(base, cd, top_type)
            == Err::<Seq<char>, ReplyView>(
            error_reply(Status::BadRequest, "Only image files are allowed"@),
        ),
        named_file(cd) is None ==> spec_plan_save(base, cd, top_type) == Err::<Seq<char>, ReplyView>(
            error_reply(Status::BadRequest, "Filename not found in content disposition"@),
        ),
{
}

/// Where a first match of `p` in `s` is known, it is the one `choose` picks.
proof fn lemma_first_match_unique(s: Seq<char>, p: Seq<char>, i: int)
    requires
        is_first_match(s, p, i),
    ensures
        (choose|k: int| is_first_match(s, p, k)) == i,
{
    let k = choose|k: int| is_first_match(s, p, k);
    if k < i {
        assert(!matches_at(s, p, k));
    } else if k > i {
        assert(!matches_at(s, p, i));
    }
}

proof fn lemma_marker_chars()
    ensures
        marker().len() == 9,
        marker()[0] == 'f',
        forall|k: int| 1 <= k < 9 ==> marker()[k] != 'f' && marker()[k] != '"',
        marker()[0] != '"',
{
    reveal_strlit("filename=");
    let m = marker();
    assert(m =~= seq!['f', 'i', 'l', 'e', 'n', 'a', 'm', 'e', '=']);
}

/// After a text free of the marker, the marker itself is the first match.
proof fn lemma_marker_first_after(p: Seq<char>, rest: Seq<char>)
    requires
        forall|j: int| !matches_at(p, marker(), j),
    ensures
        is_first_match(p + marker() + rest, marker(), p.len() as int),
{
    lemma_marker_chars();
    let m = marker();
    let cd = p + m + rest;
    let i0 = p.len() as int;
    assert(cd.subrange(i0, i0 + m.len()) =~= m);
    assert forall|j: int| 0 <= j < i0 implies !matches_at(cd, m, j) by {
        if j + m.len() <= i0 {
            assert(!matches_at(p, m, j));
            assert(cd.subrange(j, j + m.len()) =~= p.subrange(j, j + m.len()));
        } else if matches_at(cd, m, j) {
            let k = i0 - j;
            assert(cd[i0] == m[0]);
            assert(cd.subrange(j, j + m.len())[k] == cd[i0]);
        }
    }
}

/// A quoted text free of the marker holds no marker.
proof fn lemma_quoted_no_marker(n: Seq<char>)
    requires
        forall|j: int| !matches_at(n, marker(), j),
    ensures
        forall|j: int| !matches_at(seq!['"'] + n + seq!['"'], marker(), j),
{
    lemma_marker_chars();
    let m = marker();
    let rest = seq!['"'] + n + seq!['"'];
    assert forall|j: int| !matches_at(rest, m, j) by {
        if matches_at(rest, m, j) {
            if j == 0 {
                assert(rest.subrange(0, m.len() as int)[0] == rest[0]);
            } else if j + m.len() <= n.len() + 1 {
                assert(!matches_at(n, m, j - 1));
                assert(rest.subrange(j, j + m.len()) =~= n.subrange(j - 1, j - 1 + m.len()));
            } else {
                let last = n.len() as int + 1;
                assert(rest[last] == '"');
                assert(rest.subrange(j, j + m.len())[last - j] == rest[last]);
            }
        }
    }
}

/// Trimming a quoted text free of quotes gives the text.
proof fn lemma_trim_quoted(n: Seq<char>)
    requires
        forall|j: int| 0 <= j < n.len() ==> n[j] != '"',
    ensures
        trim_quotes(seq!['"'] + n + seq!['"']) == n,
{
    let q = seq!['"'];
    let rest = q + n + q;
    let nq = n + q;
    assert(rest.drop_first() =~= nq);
    assert(trim_start_quotes(rest) == trim_start_quotes(nq));
    if n.len() == 0 {
        assert(nq.drop_first() =~= Seq::<char>::empty());
        assert(trim_start_quotes(nq) == trim_start_quotes(nq.drop_first()));
        assert(trim_start_quotes(Seq::<char>::empty()) =~= Seq::<char>::empty());
        assert(trim_end_quotes(Seq::<char>::empty()) =~= n);
    } else {
        assert(nq[0] == n[0]);
        assert(trim_start_quotes(nq) == nq);
        assert(nq.drop_last() =~= n);
        assert(trim_end_quotes(nq) == trim_end_quotes(n));
        assert(n.last() != '"');
        assert(trim_end_quotes(n) == n);
    }
}

/// The file name written in a disposition is what is extracted, whole and of any
/// length: for a value `p` + `filename="` + `n` + `"` where neither `p` nor `n`
/// holds `filename=` and `n` holds no double quote, the name is exactly `n`.
pub proof fn lemma_written_filename_extracted(p: Seq<char>, n: Seq<char>)
    requires
        forall|j: int| !matches_at(p, marker(), j),
        forall|j: int| !matches_at(n, marker(), j),
        forall|j: int| 0 <= j < n.len() ==> n[j] != '"',
    ensures
        named_file(Some(p + "filename=\""@ + n + "\""@)) == Some(n),
{
    reveal_strlit("filename=");
    reveal_strlit("filename=\"");
    reveal_strlit("\"");
    let m = marker();
    let rest = seq!['"'] + n + seq!['"'];
    let cd = p + "filename=\""@ + n + "\""@;
    assert(cd =~= p + m + rest);
    let i0 = p.len() as int;
    lemma_marker_first_after(p, rest);
    lemma_first_match_unique(cd, m, i0);
    assert(cd.skip(i0 + m.len()) =~= rest);
    lemma_quoted_no_marker(n);
    assert(!exists|k: int| is_first_match(rest, m, k));
    lemma_trim_quoted(n);
}

} // verus!
