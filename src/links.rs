//! The one-level mirror pipeline's pure part: the links of a page, resolved
//! against the page's origin and deduplicated, and the filters that decide
//! which of them are fetched.
use vstd::prelude::*;
use crate::external::{
    opt_view, rows_view, element_attrs, select_attributes, url_with_path, replace_url_path,
    MAX_URL_CHARS,
};
use crate::text::{collapse_slashes, collapse_double_slashes};
use vstd::string::StrSliceExecFns;
use vstd::string::StringExecFns;

verus! {

broadcast use vstd::string::group_string_axioms;

/// The elements whose links a mirrored page contributes.
pub const LINK_SELECTOR: &'static str = "a, link, img";

/// The attribute read first.
pub const HREF: &'static str = "href";

/// The attribute read where the first is absent.
pub const SRC: &'static str = "src";

/// The views of a list of strings.
pub open spec fn strings_view(v: Seq<String>) -> Seq<Seq<char>> {
    v.map_values(|s: String| s@)
}

/// The link an element holds: its first attribute, else its second.
pub open spec fn link_value(row: Seq<Option<Seq<char>>>) -> Option<Seq<char>> {
    if row.len() > 0 && row[0] is Some {
        row[0]
    } else if row.len() > 1 {
        row[1]
    } else {
        None
    }
}

/// The absolute URL for the link `v`: doubled slashes collapsed, then set as
/// the path of `base`. Links too long to hand to the URL parser are dropped.
pub open spec fn resolved_link(base: Seq<char>, v: Seq<char>) -> Option<Seq<char>> {
    if base.len() + collapse_slashes(v).len() <= MAX_URL_CHARS {
        url_with_path(base, collapse_slashes(v))
    } else {
        None
    }
}

/// The resolved links of the elements `rows`, in document order, repeats kept.
pub open spec fn candidate_links(base: Seq<char>, rows: Seq<Seq<Option<Seq<char>>>>) -> Seq<Seq<char>>
    decreases rows.len(),
{
    if rows.len() == 0 {
        Seq::empty()
    } else {
        let prev = candidate_links(base, rows.drop_last());
        match link_value(rows.last()) {
            Some(v) => match resolved_link(base, v) {
                Some(u) => prev.push(u),
                None => prev,
            },
            None => prev,
        }
    }
}

/// `s` with every repeat of an earlier item left out.
pub open spec fn dedup(s: Seq<Seq<char>>) -> Seq<Seq<char>>
    decreases s.len(),
{
    if s.len() == 0 {
        Seq::empty()
    } else {
        let d = dedup(s.drop_last());
        if d.contains(s.last()) {
            d
        } else {
            d.push(s.last())
        }
    }
}

/// The links of the page `html` against `base`: none where the selector is
/// refused.
pub open spec fn extracted_links(html: Seq<char>, base: Seq<char>) -> Seq<Seq<char>> {
    match element_attrs(html, LINK_SELECTOR@, seq![HREF@, SRC@]) {
        Some(rows) => dedup(candidate_links(base, rows)),
        None => Seq::empty(),
    }
}

/// Whether `v` holds `s`.
pub fn contains_string(v: &Vec<String>, s: &String) -> (r: bool)
    ensures
        r == strings_view(v@).contains(s@),
{
    let mut i: usize = 0;
    while i < v.len()
        invariant
            i <= v@.len(),
            forall|j: int| 0 <= j < i ==> v@[j]@ != s@,
        decreases v.len() - i,
    {
        if v[i] == *s {
            assert(strings_view(v@)[i as int] == s@);
            return true;
        }
        i = i + 1;
    }
    assert(!strings_view(v@).contains(s@)) by {
        if strings_view(v@).contains(s@) {
            let k = choose|k: int| 0 <= k < strings_view(v@).len() && strings_view(v@)[k] == s@;
            assert(v@[k]@ == s@);
        }
    }
    false
}

/// The absolute URLs that the anchor, link and image elements of `html`
/// point at, each once, in the order of first appearance. Each keeps the
/// origin of `base`: the link, its doubled slashes collapsed, becomes the
/// path of `base`.
pub fn extract_links(html: &str, base: &str) -> (r: Vec<String>)
    ensures
        strings_view(r@) == extracted_links(html@, base@),
{
    let names: Vec<String> = vec![String::from_str(HREF), String::from_str(SRC)];
    assert(names@.map_values(|n: String| n@) =~= seq![HREF@, SRC@]);
    let rows = match select_attributes(html, LINK_SELECTOR, &names) {
        Some(rows) => rows,
        None => {
            return Vec::new();
        },
    };
    let ghost rv = rows_view(rows@);
    let base_len = base.unicode_len();
    let mut out: Vec<String> = Vec::new();
    let mut i: usize = 0;
    assert(rv.subrange(0, 0) =~= Seq::<Seq<Option<Seq<char>>>>::empty());
    assert(strings_view(out@) =~= Seq::<Seq<char>>::empty());
    while i < rows.len()
        invariant
            i <= rows@.len(),
            rv == rows_view(rows@),
            base_len == base@.len(),
            forall|k: int| 0 <= k < rows@.len() ==> (#[trigger] rows@[k])@.len() == 2,
            strings_view(out@) == dedup(candidate_links(base@, rv.subrange(0, i as int))),
        decreases rows.len() - i,
    {
        let ghost pre = rv.subrange(0, i as int);
        let ghost next = rv.subrange(0, i + 1);
        assert(next.drop_last() =~= pre);
        assert(next.last() == rv[i as int]);
        let row = &rows[i];
        assert(rv[i as int] == row@.map_values(|o: Option<String>| opt_view(o)));
        assert(rv[i as int].len() == 2);
        assert(rv[i as int][0] == opt_view(row@[0]));
        assert(rv[i as int][1] == opt_view(row@[1]));
        let ghost lv = link_value(rv[i as int]);
        let ghost prev = candidate_links(base@, pre);
        let value: Option<&String> = match &row[0] {
            Some(v) => Some(v),
            None => match &row[1] {
                Some(v) => Some(v),
                None => None,
            },
        };
        assert(lv == match value {
            Some(v) => Some(v@),
            None => None::<Seq<char>>,
        });
        if let Some(v) = value {
            let c = collapse_double_slashes(v.as_str());
            let c_len = c.unicode_len();
            if base_len <= MAX_URL_CHARS && c_len <= MAX_URL_CHARS - base_len {
                let ru = replace_url_path(base, c.as_str());
                assert(resolved_link(base@, v@) == opt_view(ru));
                if let Some(u) = ru {
                    assert(candidate_links(base@, next) == prev.push(u@));
                    assert(prev.push(u@).drop_last() =~= prev);
                    if !contains_string(&out, &u) {
                        out.push(u);
                        assert(strings_view(out@) =~= dedup(prev).push(u@));
                    }
                } else {
                    assert(candidate_links(base@, next) == prev);
                }
            } else {
                assert(resolved_link(base@, v@) is None);
                assert(candidate_links(base@, next) == prev);
            }
        } else {
            assert(candidate_links(base@, next) == prev);
        }
        i = i + 1;
    }
    assert(rv.subrange(0, rows@.len() as int) =~= rv);
    out
}

/// Deduplicating keeps exactly the items of `s`, each once.
pub proof fn lemma_dedup(s: Seq<Seq<char>>)
    ensures
        dedup(s).no_duplicates(),
        forall|x: Seq<char>| dedup(s).contains(x) <==> s.contains(x),
    decreases s.len(),
{
    if s.len() > 0 {
        lemma_dedup(s.drop_last());
        let d = dedup(s.drop_last());
        assert forall|x: Seq<char>| dedup(s).contains(x) <==> s.contains(x) by {
            if s.contains(x) && x != s.last() {
                let k = choose|k: int| 0 <= k < s.len() && s[k] == x;
                assert(s.drop_last()[k] == x);
            }
            if s.drop_last().contains(x) {
                let k = choose|k: int| 0 <= k < s.drop_last().len() && s.drop_last()[k] == x;
                assert(s[k] == x);
            }
            if !d.contains(s.last()) && x == s.last() {
                assert(d.push(s.last())[d.len() as int] == x);
            }
            if !d.contains(s.last()) && d.push(s.last()).contains(x) && x != s.last() {
                let k = choose|k: int| 0 <= k < d.push(s.last()).len() && d.push(s.last())[k] == x;
                assert(d[k] == x);
            }
            if d.contains(x) && !d.contains(s.last()) {
                let k = choose|k: int| 0 <= k < d.len() && d[k] == x;
                assert(d.push(s.last())[k] == x);
            }
            assert(s[s.len() - 1] == s.last());
        }
        if !d.contains(s.last()) {
            let e = d.push(s.last());
            assert forall|i: int, j: int| 0 <= i < e.len() && 0 <= j < e.len() && i != j implies e[i] != e[j] by {
                if i < d.len() && j < d.len() {
                } else if i == d.len() {
                    assert(d[j] == e[j]);
                } else {
                    assert(d[i] == e[i]);
                }
            }
        }
    }
}

/// The links of a page hold no repeats, and running the extraction again on
/// the same page and base gives the same set of links.
pub proof fn lemma_extraction_idempotent(html: Seq<char>, base: Seq<char>, first: Seq<Seq<char>>, second: Seq<Seq<char>>)
    requires
        first == extracted_links(html, base),
        second == extracted_links(html, base),
    ensures
        first.no_duplicates(),
        first.to_set() == second.to_set(),
{
    match element_attrs(html, LINK_SELECTOR@, seq![HREF@, SRC@]) {
        Some(rows) => lemma_dedup(candidate_links(base, rows)),
        None => {},
    }
}

} // verus!
