//! Which extracted links a mirror fetches: a link is dropped when it ends
//! with a rejected suffix, or when its path starts with an excluded prefix,
//! both compared in lower case.
use vstd::prelude::*;
use crate::external::{opt_view, lower_of, lowercase, url_path_of, parse_url_path};
use crate::links::{
    strings_view, extracted_links, extract_links, candidate_links, dedup, resolved_link, link_value, LINK_SELECTOR,
    HREF, SRC,
};
use crate::external::element_attrs;
use crate::filename::{resolution, FetchMode, lemma_plain_url_uses_last_segment};
use crate::text::{joined_path, last_segment};
use crate::error::DownloadError;
use crate::text::{has_suffix, has_prefix, ends_with, starts_with};

verus! {

/// The filters of a mirror run. A list that is absent filters nothing.
pub struct FilterCriteria {
    pub reject_suffixes: Option<Vec<String>>,
    pub exclude_path_prefixes: Option<Vec<String>>,
}

/// The view of an optional list of strings.
pub open spec fn opt_strings_view(o: Option<Vec<String>>) -> Option<Seq<Seq<char>>> {
    match o {
        Some(v) => Some(strings_view(v@)),
        None => None,
    }
}

/// `s` ends with one of `suffixes`.
pub open spec fn ends_with_any(s: Seq<char>, suffixes: Seq<Seq<char>>) -> bool {
    exists|i: int| 0 <= i < suffixes.len() && has_suffix(s, #[trigger] suffixes[i])
}

/// `s` starts with one of `prefixes`.
pub open spec fn starts_with_any(s: Seq<char>, prefixes: Seq<Seq<char>>) -> bool {
    exists|i: int| 0 <= i < prefixes.len() && has_prefix(s, #[trigger] prefixes[i])
}

/// Each item of `v` in lower case.
pub open spec fn lower_all(v: Seq<Seq<char>>) -> Seq<Seq<char>> {
    v.map_values(|s: Seq<char>| lower_of(s))
}

/// The URL `url` passes the reject list: there is none, or the URL in lower
/// case ends with none of its entries in lower case.
pub open spec fn passes_reject(url: Seq<char>, rejects: Option<Seq<Seq<char>>>) -> bool {
    match rejects {
        Some(r) => !ends_with_any(lower_of(url), lower_all(r)),
        None => true,
    }
}

/// The URL `url` passes the exclude list: there is none, the URL's path
/// cannot be read, or the path in lower case starts with none of its entries
/// in lower case.
pub open spec fn passes_exclude(url: Seq<char>, excludes: Option<Seq<Seq<char>>>) -> bool {
    match excludes {
        Some(x) => match url_path_of(url) {
            Some(p) => !starts_with_any(lower_of(p), lower_all(x)),
            None => true,
        },
        None => true,
    }
}

/// The URL is fetched: it passes both lists.
pub open spec fn keeps(url: Seq<char>, rejects: Option<Seq<Seq<char>>>, excludes: Option<Seq<Seq<char>>>) -> bool {
    passes_reject(url, rejects) && passes_exclude(url, excludes)
}

/// Whether `s` ends with one of `suffixes`.
pub fn matches_any_suffix(s: &str, suffixes: &Vec<String>) -> (r: bool)
    ensures
        r == ends_with_any(s@, strings_view(suffixes@)),
{
    let mut i: usize = 0;
    while i < suffixes.len()
        invariant
            i <= suffixes@.len(),
            forall|j: int| 0 <= j < i ==> !has_suffix(s@, #[trigger] strings_view(suffixes@)[j]),
        decreases suffixes.len() - i,
    {
        if ends_with(s, suffixes[i].as_str()) {
            assert(has_suffix(s@, strings_view(suffixes@)[i as int]));
            return true;
        }
        i = i + 1;
    }
    false
}

/// Whether `s` starts with one of `prefixes`.
pub fn matches_any_prefix(s: &str, prefixes: &Vec<String>) -> (r: bool)
    ensures
        r == starts_with_any(s@, strings_view(prefixes@)),
{
    let mut i: usize = 0;
    while i < prefixes.len()
        invariant
            i <= prefixes@.len(),
            forall|j: int| 0 <= j < i ==> !has_prefix(s@, #[trigger] strings_view(prefixes@)[j]),
        decreases prefixes.len() - i,
    {
        if starts_with(s, prefixes[i].as_str()) {
            assert(has_prefix(s@, strings_view(prefixes@)[i as int]));
            return true;
        }
        i = i + 1;
    }
    false
}

/// Each string of `v` in lower case.
fn lowercase_all(v: &Vec<String>) -> (r: Vec<String>)
    ensures
        strings_view(r@) == lower_all(strings_view(v@)),
{
    let mut out: Vec<String> = Vec::new();
    let mut i: usize = 0;
    while i < v.len()
        invariant
            i <= v@.len(),
            strings_view(out@) == lower_all(strings_view(v@)).subrange(0, i as int),
        decreases v.len() - i,
    {
        let l = lowercase(v[i].as_str());
        assert(l@ == lower_all(strings_view(v@))[i as int]);
        let ghost old_out = out@;
        out.push(l);
        assert(strings_view(out@) =~= strings_view(old_out).push(l@));
        i = i + 1;
        assert(strings_view(out@) =~= lower_all(strings_view(v@)).subrange(0, i as int));
    }
    assert(lower_all(strings_view(v@)).subrange(0, v@.len() as int) =~= lower_all(strings_view(v@)));
    out
}

impl FilterCriteria {
    /// Whether a mirror fetches the link `url`.
    pub fn keeps_url(&self, url: &str) -> (r: bool)
        ensures
            r == keeps(url@, opt_strings_view(self.reject_suffixes), opt_strings_view(self.exclude_path_prefixes)),
    {
        if let Some(rejects) = &self.reject_suffixes {
            let lower_url = lowercase(url);
            let lower_rejects = lowercase_all(rejects);
            if matches_any_suffix(lower_url.as_str(), &lower_rejects) {
                return false;
            }
        }
        if let Some(excludes) = &self.exclude_path_prefixes {
            let path = parse_url_path(url);
            if let Some(p) = path {
                let lower_path = lowercase(p.as_str());
                let lower_excludes = lowercase_all(excludes);
                if matches_any_prefix(lower_path.as_str(), &lower_excludes) {
                    return false;
                }
            }
        }
        true
    }

    /// The links of `links` that a mirror fetches, in their order.
    pub fn select_targets(&self, links: &Vec<String>) -> (r: Vec<String>)
        ensures
            strings_view(r@) == strings_view(links@).filter(
                |u: Seq<char>| keeps(u, opt_strings_view(self.reject_suffixes), opt_strings_view(self.exclude_path_prefixes)),
            ),
    {
        let ghost f = |u: Seq<char>| keeps(u, opt_strings_view(self.reject_suffixes), opt_strings_view(self.exclude_path_prefixes));
        let mut out: Vec<String> = Vec::new();
        let mut i: usize = 0;
        assert(strings_view(links@).subrange(0, 0).filter(f) =~= Seq::<Seq<char>>::empty());
        while i < links.len()
            invariant
                i <= links@.len(),
                f == (|u: Seq<char>| keeps(u, opt_strings_view(self.reject_suffixes), opt_strings_view(self.exclude_path_prefixes))),
                strings_view(out@) == strings_view(links@).subrange(0, i as int).filter(f),
            decreases links.len() - i,
        {
            let ghost pre = strings_view(links@).subrange(0, i as int);
            let ghost next = strings_view(links@).subrange(0, i + 1);
            assert(next.drop_last() =~= pre);
            reveal(Seq::filter);
            if self.keeps_url(links[i].as_str()) {
                out.push(links[i].clone());
                assert(strings_view(out@) =~= pre.filter(f).push(links@[i as int]@));
            } else {
                assert(strings_view(out@) =~= pre.filter(f));
            }
            i = i + 1;
        }
        assert(strings_view(links@).subrange(0, links@.len() as int) =~= strings_view(links@));
        out
    }
}

/// The URLs that mirroring the page `html`, fetched from `seed`, goes on to
/// fetch: the page's links, filtered.
pub fn mirror_targets(html: &str, seed: &str, criteria: &FilterCriteria) -> (r: Vec<String>)
    ensures
        strings_view(r@) == extracted_links(html@, seed@).filter(
            |u: Seq<char>| keeps(u, opt_strings_view(criteria.reject_suffixes), opt_strings_view(criteria.exclude_path_prefixes)),
        ),
{
    let links = extract_links(html, seed);
    criteria.select_targets(&links)
}

/// A link whose lower-case form ends with a rejected suffix in lower case is
/// not fetched, whatever the exclude list.
pub proof fn lemma_rejected_suffix_drops(url: Seq<char>, rejects: Seq<Seq<char>>, excludes: Option<Seq<Seq<char>>>, i: int)
    requires
        0 <= i < rejects.len(),
        has_suffix(lower_of(url), lower_of(rejects[i])),
    ensures
        !keeps(url, Some(rejects), excludes),
{
    assert(lower_all(rejects)[i] == lower_of(rejects[i]));
}

/// A link whose lower-case path starts with an excluded prefix in lower case
/// is not fetched, whatever the reject list.
pub proof fn lemma_excluded_prefix_drops(url: Seq<char>, path: Seq<char>, rejects: Option<Seq<Seq<char>>>, excludes: Seq<Seq<char>>, i: int)
    requires
        url_path_of(url) == Some(path),
        0 <= i < excludes.len(),
        has_prefix(lower_of(path), lower_of(excludes[i])),
    ensures
        !keeps(url, rejects, Some(excludes)),
{
    assert(lower_all(excludes)[i] == lower_of(excludes[i]));
}

/// Without either list every link is fetched.
pub proof fn lemma_no_filters_keep_all(url: Seq<char>)
    ensures
        keeps(url, None, None),
{
}

/// A page whose linking elements are one with a first attribute `v1` and
/// one with only a second attribute `v2`, mirrored without filters, leads
/// to exactly the two resolved URLs being fetched, each written under the
/// target directory by its last segment.
pub proof fn lemma_mirror_two_links(
    html: Seq<char>,
    seed: Seq<char>,
    v1: Seq<char>,
    v2: Seq<char>,
    u1: Seq<char>,
    u2: Seq<char>,
    dir: Seq<char>,
)
    requires
        element_attrs(html, LINK_SELECTOR@, seq![HREF@, SRC@]) == Some(
            seq![seq![Some(v1), None::<Seq<char>>], seq![None::<Seq<char>>, Some(v2)]],
        ),
        resolved_link(seed, v1) == Some(u1),
        resolved_link(seed, v2) == Some(u2),
        u1 != u2,
        u1.len() > 0 && u1.last() != '/',
        u2.len() > 0 && u2.last() != '/',
    ensures
        extracted_links(html, seed).filter(|u: Seq<char>| keeps(u, None, None)) == seq![u1, u2],
        resolution(u1, None, None, FetchMode::Mirror, dir, false) == Ok::<Seq<char>, DownloadError>(joined_path(dir, last_segment(u1))),
        resolution(u2, None, None, FetchMode::Mirror, dir, false) == Ok::<Seq<char>, DownloadError>(joined_path(dir, last_segment(u2))),
{
    let rows = seq![seq![Some(v1), None::<Seq<char>>], seq![None::<Seq<char>>, Some(v2)]];
    let r1 = rows.drop_last();
    let e = Seq::<Seq<Option<Seq<char>>>>::empty();
    assert(r1.drop_last() =~= e);
    assert(candidate_links(seed, e) == Seq::<Seq<char>>::empty());
    assert(r1.last() == rows[0]);
    assert(rows.last() == rows[1]);
    assert(link_value(rows[0]) == Some(v1));
    assert(link_value(rows[1]) == Some(v2));
    assert(candidate_links(seed, r1) == Seq::<Seq<char>>::empty().push(u1));
    assert(candidate_links(seed, r1) =~= seq![u1]);
    assert(candidate_links(seed, rows) =~= seq![u1, u2]);
    let c = seq![u1, u2];
    assert(c.drop_last() =~= seq![u1]);
    assert(seq![u1].drop_last() =~= Seq::<Seq<char>>::empty());
    assert(dedup(Seq::<Seq<char>>::empty()) == Seq::<Seq<char>>::empty());
    assert(!Seq::<Seq<char>>::empty().contains(u1));
    assert(seq![u1].last() == u1);
    assert(dedup(seq![u1]) == Seq::<Seq<char>>::empty().push(u1));
    assert(dedup(seq![u1]) =~= seq![u1]);
    assert(!seq![u1].contains(u2)) by {
        if seq![u1].contains(u2) {
            assert(seq![u1][0] == u2);
        }
    }
    assert(dedup(c) =~= seq![u1, u2]);
    let f = |u: Seq<char>| keeps(u, None, None);
    reveal(Seq::filter);
    assert(seq![u1, u2].drop_last() =~= seq![u1]);
    assert(seq![u1].filter(f) =~= seq![u1]);
    assert(seq![u1, u2].filter(f) =~= seq![u1, u2]);
    lemma_plain_url_uses_last_segment(u1, FetchMode::Mirror, dir);
    lemma_plain_url_uses_last_segment(u2, FetchMode::Mirror, dir);
}

} // verus!
