//! The calls this library makes into `regex`, `url`, `scraper` and std's
//! string functions that vstd leaves unspecified. Each result that
//! takes more than a few lines to state is given a name.
use vstd::prelude::*;

verus! {

/// The view of an optional string.
pub open spec fn opt_view(o: Option<String>) -> Option<Seq<char>> {
    match o {
        Some(s) => Some(s@),
        None => None,
    }
}

/// The view of the attribute rows of selected elements.
pub open spec fn rows_view(rows: Seq<Vec<Option<String>>>) -> Seq<Seq<Option<Seq<char>>>> {
    rows.map_values(|row: Vec<Option<String>>| row@.map_values(|o: Option<String>| opt_view(o)))
}

/// The text of group `group` in the leftmost match of the regular expression
/// `pattern` in `text`; `None` where the pattern does not compile, nothing
/// matches, or the group took no part in the match.
pub uninterp spec fn named_capture(pattern: Seq<char>, text: Seq<char>, group: Seq<char>) -> Option<Seq<char>>;

/// Relies on `regex::Regex::new`, `Regex::captures` and `Captures::name`.
#[verifier::external_body]
pub(crate) fn capture_group(pattern: &str, text: &str, group: &str) -> (r: Option<String>)
    ensures
        opt_view(r) == named_capture(pattern@, text@, group@),
{
    let re = regex::Regex::new(pattern).ok()?;
    let caps = re.captures(text)?;
    caps.name(group).map(|m| m.as_str().to_string())
}

/// The path of the URL `s` as `url::Url` parses it; `None` where `s` does not
/// parse as an absolute URL.
pub uninterp spec fn url_path_of(s: Seq<char>) -> Option<Seq<char>>;

/// Relies on `url::Url::parse` and `Url::path`.
#[verifier::external_body]
pub(crate) fn parse_url_path(s: &str) -> (r: Option<String>)
    ensures
        opt_view(r) == url_path_of(s@),
{
    url::Url::parse(s).ok().map(|u| u.path().to_string())
}

/// The URL `base` with its path replaced by `path`, serialized; `None` where
/// `base` does not parse.
pub uninterp spec fn url_with_path(base: Seq<char>, path: Seq<char>) -> Option<Seq<char>>;

/// Longest text, in characters, that a URL handed to `Url::set_path` may be
/// built from here: the resulting serialization stays within `u32` bytes.
pub const MAX_URL_CHARS: usize = 300_000_000;

/// Relies on `url::Url::parse`, `Url::set_path` and the URL's `Display`.
/// `set_path` panics only where the serialization outgrows `u32` bytes; a
/// character takes at most four bytes, and at most three times as many once
/// percent-encoded, so the bound on the two lengths rules that out.
#[verifier::external_body]
pub(crate) fn replace_url_path(base: &str, path: &str) -> (r: Option<String>)
    requires
        base@.len() + path@.len() <= MAX_URL_CHARS,
    ensures
        opt_view(r) == url_with_path(base@, path@),
        r is Some <==> url_path_of(base@) is Some,
{
    let mut u = url::Url::parse(base).ok()?;
    u.set_path(path);
    Some(u.to_string())
}

/// For each element of the HTML document `html` that the CSS selector
/// `selector` picks, in the order in which `Html::select` walks the parsed
/// tree, the value of each attribute named in
/// `names`; `None` where the selector does not parse.
pub uninterp spec fn element_attrs(html: Seq<char>, selector: Seq<char>, names: Seq<Seq<char>>) -> Option<Seq<Seq<Option<Seq<char>>>>>;

/// Relies on `scraper::Html::parse_document`, `scraper::Selector::parse`,
/// `Html::select` and `Element::attr`: one row per selected element, one
/// entry per requested attribute name.
#[verifier::external_body]
pub(crate) fn select_attributes(html: &str, selector: &str, names: &Vec<String>) -> (r: Option<Vec<Vec<Option<String>>>>)
    ensures
        match r {
            Some(rows) => {
                &&& element_attrs(html@, selector@, names@.map_values(|n: String| n@)) == Some(rows_view(rows@))
                &&& forall|i: int| 0 <= i < rows@.len() ==> (#[trigger] rows@[i])@.len() == names@.len()
            },
            None => element_attrs(html@, selector@, names@.map_values(|n: String| n@)) is None,
        },
{
    let sel = scraper::Selector::parse(selector).ok()?;
    let doc = scraper::Html::parse_document(html);
    Some(doc.select(&sel).map(|e| names.iter().map(|n| e.value().attr(n).map(|v| v.to_string())).collect()).collect())
}

/// `s` in lower case, as `str::to_lowercase` maps it.
pub uninterp spec fn lower_of(s: Seq<char>) -> Seq<char>;

/// Relies on `str::to_lowercase`.
#[verifier::external_body]
pub(crate) fn lowercase(s: &str) -> (r: String)
    ensures
        r@ == lower_of(s@),
{
    s.to_lowercase()
}

/// `s` without leading and trailing white space, as `str::trim` cuts it.
pub uninterp spec fn trimmed(s: Seq<char>) -> Seq<char>;

/// Relies on `str::trim`.
#[verifier::external_body]
pub(crate) fn trim(s: &str) -> (r: String)
    ensures
        r@ == trimmed(s@),
{
    s.trim().to_string()
}

} // verus!
