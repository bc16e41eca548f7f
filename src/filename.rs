//! Where a fetched resource is written: the file name, chosen by precedence,
//! and the path under the target directory, with the directory-collision rule.
use vstd::prelude::*;
use crate::error::DownloadError;
use crate::external::{opt_view, named_capture, capture_group};
use crate::text::{last_segment, split_last_segment, has_suffix, joined_path, join_path};
use vstd::string::StringExecFns;
use vstd::string::StrSliceExecFns;

verus! {

broadcast use vstd::string::group_string_axioms;

/// The pattern that picks a quoted file name out of a `Content-Disposition`
/// header value.
pub const DISPOSITION_PATTERN: &'static str = "filename=\"(?P<filename>[^\"]+)\"";

/// The capture group of `DISPOSITION_PATTERN` that holds the file name.
pub const DISPOSITION_GROUP: &'static str = "filename";

/// Name that a single fetch gives a resource whose URL ends in `/`.
pub const DEFAULT_NAME: &'static str = "default";

/// Name that a mirror gives a resource whose URL ends in `/`.
pub const INDEX_NAME: &'static str = "index.html";

/// Suffix added to a file name whose path is taken by a directory.
pub const COLLISION_SUFFIX: &'static str = "_file";

/// The file name that a `Content-Disposition` header value suggests.
pub open spec fn disposition_name(header: Option<Seq<char>>) -> Option<Seq<char>> {
    match header {
        Some(h) => named_capture(DISPOSITION_PATTERN@, h, DISPOSITION_GROUP@),
        None => None,
    }
}

/// Whether a resource is fetched on its own or as one link of a mirrored
/// page; the two name a URL that ends in `/` differently.
#[derive(Clone, Copy, Debug, PartialEq, Eq, Structural)]
pub enum FetchMode {
    Single,
    Mirror,
}

/// The name taken from the URL itself: its last segment, or, where that
/// segment is empty, `default` for a single fetch and `index.html` for a
/// mirrored link.
pub open spec fn url_file_name(url: Seq<char>, mode: FetchMode) -> Seq<char> {
    if last_segment(url).len() > 0 {
        last_segment(url)
    } else if mode == FetchMode::Single {
        DEFAULT_NAME@
    } else {
        INDEX_NAME@
    }
}

/// The file name by precedence: the explicit name, else the suggested one,
/// else the URL's last segment (all of a URL without `/`). Only an empty URL
/// has no segment to name the file after.
pub open spec fn chosen_name(url: Seq<char>, explicit: Option<Seq<char>>, suggested: Option<Seq<char>>, mode: FetchMode) -> Result<Seq<char>, DownloadError> {
    match explicit {
        Some(e) => Ok(e),
        None => match suggested {
            Some(d) => Ok(d),
            None => if url.len() > 0 {
                Ok(url_file_name(url, mode))
            } else {
                Err(DownloadError::PathResolution)
            },
        },
    }
}

/// The view of a name or an error.
pub open spec fn name_view(r: Result<String, DownloadError>) -> Result<Seq<char>, DownloadError> {
    match r {
        Ok(s) => Ok(s@),
        Err(e) => Err(e),
    }
}

/// Chooses the file name for `url` from the explicit name and the name that
/// the response suggested.
pub fn choose_file_name(url: &str, explicit: &Option<String>, suggested: &Option<String>, mode: FetchMode) -> (r: Result<String, DownloadError>)
    ensures
        name_view(r) == chosen_name(url@, opt_view(*explicit), opt_view(*suggested), mode),
{
    match explicit {
        Some(e) => Ok(e.clone()),
        None => match suggested {
            Some(d) => Ok(d.clone()),
            None => {
                if url.unicode_len() == 0 {
                    return Err(DownloadError::PathResolution);
                }
                let seg = split_last_segment(url);
                if seg.unicode_len() > 0 {
                    Ok(seg)
                } else {
                    match mode {
                        FetchMode::Single => Ok(String::from_str(DEFAULT_NAME)),
                        FetchMode::Mirror => Ok(String::from_str(INDEX_NAME)),
                    }
                }
            },
        },
    }
}

/// Chooses the file name for `url` from the explicit name and the response's
/// `Content-Disposition` header value, if any.
pub fn file_name_for(url: &str, explicit: &Option<String>, content_disposition: &Option<String>, mode: FetchMode) -> (r: Result<String, DownloadError>)
    ensures
        name_view(r) == chosen_name(url@, opt_view(*explicit), disposition_name(opt_view(*content_disposition)), mode),
{
    let suggested = match (explicit, content_disposition) {
        (None, Some(h)) => capture_group(DISPOSITION_PATTERN, h.as_str(), DISPOSITION_GROUP),
        _ => None,
    };
    choose_file_name(url, explicit, &suggested, mode)
}

/// The path for `name` under `dir`; where that path is taken by a
/// directory, the path for `name` with the collision suffix instead.
pub open spec fn placed_path(dir: Seq<char>, name: Seq<char>, taken_by_dir: bool) -> Seq<char> {
    if taken_by_dir {
        joined_path(dir, name + COLLISION_SUFFIX@)
    } else {
        joined_path(dir, name)
    }
}

/// The whole resolution: the chosen name placed under `dir`.
pub open spec fn resolution(url: Seq<char>, explicit: Option<Seq<char>>, suggested: Option<Seq<char>>, mode: FetchMode, dir: Seq<char>, taken_by_dir: bool) -> Result<Seq<char>, DownloadError> {
    match chosen_name(url, explicit, suggested, mode) {
        Ok(n) => Ok(placed_path(dir, n, taken_by_dir)),
        Err(e) => Err(e),
    }
}

/// The path for `name` under `dir`, before the collision rule: the path to
/// probe for an existing directory.
pub fn candidate_path(dir: &str, name: &str) -> (r: String)
    ensures
        r@ == joined_path(dir@, name@),
{
    join_path(dir, name)
}

/// The path for `name` under `dir`, where `taken_by_dir` tells whether the
/// candidate path is an existing directory. The suffix is added once only.
pub fn place_file(dir: &str, name: &str, taken_by_dir: bool) -> (r: String)
    ensures
        r@ == placed_path(dir@, name@, taken_by_dir),
{
    if taken_by_dir {
        let suffixed = String::from_str(name).concat(COLLISION_SUFFIX);
        join_path(dir, suffixed.as_str())
    } else {
        join_path(dir, name)
    }
}

/// With no explicit name and no suggested one, a non-empty URL that does
/// not end in `/` is written under its last segment (all of it where it
/// holds no `/`), in either mode.
pub proof fn lemma_plain_url_uses_last_segment(url: Seq<char>, mode: FetchMode, dir: Seq<char>)
    requires
        url.len() > 0,
        url.last() != '/',
    ensures
        last_segment(url).len() > 0,
        resolution(url, None, None, mode, dir, false) == Ok::<Seq<char>, DownloadError>(joined_path(dir, last_segment(url))),
{
}

/// A URL that ends in `/` is written as `default` by a single fetch, and as
/// `index.html` under the target directory when mirrored.
pub proof fn lemma_directory_url_names(url: Seq<char>, dir: Seq<char>)
    requires
        has_suffix(url, seq!['/']),
    ensures
        resolution(url, None, None, FetchMode::Single, dir, false) == Ok::<Seq<char>, DownloadError>(joined_path(dir, DEFAULT_NAME@)),
        resolution(url, None, None, FetchMode::Mirror, dir, false) == Ok::<Seq<char>, DownloadError>(joined_path(dir, INDEX_NAME@)),
{
    assert(url[url.len() - 1] == seq!['/'][0]);
    assert(last_segment(url).len() == 0);
}

/// An explicit file name decides the result alone: neither the URL, the
/// suggested name nor the mode matters.
pub proof fn lemma_explicit_name_decides(
    url1: Seq<char>,
    url2: Seq<char>,
    name: Seq<char>,
    suggested1: Option<Seq<char>>,
    suggested2: Option<Seq<char>>,
    mode1: FetchMode,
    mode2: FetchMode,
    dir: Seq<char>,
    taken_by_dir: bool,
)
    ensures
        resolution(url1, Some(name), suggested1, mode1, dir, taken_by_dir) == resolution(url2, Some(name), suggested2, mode2, dir, taken_by_dir),
        resolution(url1, Some(name), suggested1, mode1, dir, taken_by_dir) == Ok::<Seq<char>, DownloadError>(placed_path(dir, name, taken_by_dir)),
{
}

/// Where the path for a name is an existing directory, the name with the
/// collision suffix is used in its place, once: a URL named after its last
/// segment is then written under that segment with the suffix.
pub proof fn lemma_collision_adds_suffix(url: Seq<char>, mode: FetchMode, dir: Seq<char>, name: Seq<char>)
    requires
        last_segment(url).len() > 0,
    ensures
        placed_path(dir, name, true) == joined_path(dir, name + COLLISION_SUFFIX@),
        resolution(url, None, None, mode, dir, true) == Ok::<Seq<char>, DownloadError>(
            joined_path(dir, last_segment(url) + COLLISION_SUFFIX@),
        ),
{
    assert(url.len() > 0);
}

} // verus!
