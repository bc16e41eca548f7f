//! Batch mode's pure part: the URLs of an input file, one per line, and the
//! summary of the downloads once every worker has finished.
use vstd::prelude::*;
use crate::error::DownloadError;
use crate::links::strings_view;
use crate::text::{chars_of, string_of};

verus! {

/// The pieces of `s` between line feeds, the last one included even when
/// empty.
pub open spec fn line_pieces(s: Seq<char>) -> Seq<Seq<char>>
    decreases s.len(),
{
    if s.len() == 0 {
        seq![Seq::empty()]
    } else {
        let p = line_pieces(s.drop_last());
        if s.last() == '\n' {
            p.push(Seq::empty())
        } else {
            p.update(p.len() - 1, p.last().push(s.last()))
        }
    }
}

/// A line without its carriage return, if it ends in one.
pub open spec fn strip_cr(l: Seq<char>) -> Seq<char> {
    if l.len() > 0 && l.last() == '\r' {
        l.drop_last()
    } else {
        l
    }
}

/// The lines of `s` as a buffered reader yields them: split at line feeds,
/// each without a trailing carriage return, and no empty line after a final
/// line feed.
pub open spec fn lines_of(s: Seq<char>) -> Seq<Seq<char>> {
    let p = line_pieces(s);
    let q = if p.last().len() == 0 {
        p.drop_last()
    } else {
        p
    };
    q.map_values(|l: Seq<char>| strip_cr(l))
}

/// The lines `us` written one after another with a line feed between two.
pub open spec fn join_lines(us: Seq<Seq<char>>) -> Seq<char>
    decreases us.len(),
{
    if us.len() == 0 {
        Seq::empty()
    } else if us.len() == 1 {
        us[0]
    } else {
        join_lines(us.drop_last()) + seq!['\n'] + us.last()
    }
}

proof fn lemma_pieces_nonempty(s: Seq<char>)
    ensures
        line_pieces(s).len() > 0,
    decreases s.len(),
{
    if s.len() > 0 {
        lemma_pieces_nonempty(s.drop_last());
    }
}

/// Text without a line feed extends the last piece.
proof fn lemma_pieces_extend(x: Seq<char>, t: Seq<char>)
    requires
        forall|i: int| 0 <= i < t.len() ==> t[i] != '\n',
    ensures
        line_pieces(x + t) == line_pieces(x).update(line_pieces(x).len() - 1, line_pieces(x).last() + t),
    decreases t.len(),
{
    lemma_pieces_nonempty(x);
    let p = line_pieces(x);
    if t.len() == 0 {
        assert(x + t =~= x);
        assert(p.last() + t =~= p.last());
        assert(p.update(p.len() - 1, p.last()) =~= p);
    } else {
        let t0 = t.drop_last();
        lemma_pieces_extend(x, t0);
        assert((x + t).drop_last() =~= x + t0);
        assert((x + t).last() == t.last());
        assert(t.last() == t[t.len() - 1]);
        let q = p.update(p.len() - 1, p.last() + t0);
        assert(q.last() == p.last() + t0);
        assert((p.last() + t0).push(t.last()) =~= p.last() + t);
        assert(q.update(q.len() - 1, q.last().push(t.last())) =~= p.update(p.len() - 1, p.last() + t));
    }
}

/// The pieces of lines joined by line feeds are those lines.
proof fn lemma_pieces_of_joined(us: Seq<Seq<char>>)
    requires
        us.len() > 0,
        forall|k: int, i: int| 0 <= k < us.len() && 0 <= i < us[k].len() ==> #[trigger] us[k][i] != '\n',
    ensures
        line_pieces(join_lines(us)) == us,
    decreases us.len(),
{
    let e = Seq::<char>::empty();
    if us.len() == 1 {
        lemma_pieces_extend(e, us[0]);
        assert(e + us[0] =~= us[0]);
        assert(line_pieces(e) =~= seq![e]);
        assert(e + us[0] =~= us[0]);
        assert(seq![e].update(0, e + us[0]) =~= us);
    } else {
        let front = us.drop_last();
        lemma_pieces_of_joined(front);
        let j = join_lines(front);
        let jn = j + seq!['\n'];
        assert(jn =~= j.push('\n'));
        assert(jn.drop_last() =~= j);
        assert(line_pieces(jn) == front.push(e));
        let last = us.last();
        assert(last == us[us.len() - 1]);
        lemma_pieces_extend(jn, last);
        assert(front.push(e).update(front.len() as int, e + last) =~= us);
    }
}

/// A batch file made of URLs, each on its own line, gives back exactly those
/// URLs in order, one download each: lines hold no line feed, end in no
/// carriage return, and the last is not empty.
pub proof fn lemma_batch_lines(us: Seq<Seq<char>>)
    requires
        us.len() > 0,
        us.last().len() > 0,
        forall|k: int, i: int| 0 <= k < us.len() && 0 <= i < us[k].len() ==> #[trigger] us[k][i] != '\n',
        forall|k: int| 0 <= k < us.len() ==> strip_cr(#[trigger] us[k]) == us[k],
    ensures
        lines_of(join_lines(us)) == us,
{
    lemma_pieces_of_joined(us);
    assert(us.map_values(|l: Seq<char>| strip_cr(l)) =~= us);
}

/// The characters `cs[from..to]` as a string, without a trailing carriage
/// return.
fn line_string(cs: &Vec<char>, from: usize, to: usize) -> (r: String)
    requires
        from <= to <= cs@.len(),
    ensures
        r@ == strip_cr(cs@.subrange(from as int, to as int)),
{
    if to > from && cs[to - 1] == '\r' {
        let r = string_of(cs, from, to - 1);
        assert(r@ =~= cs@.subrange(from as int, to as int).drop_last());
        r
    } else {
        string_of(cs, from, to)
    }
}

/// The URLs of a batch input file: its lines, in order.
pub fn batch_urls(text: &str) -> (r: Vec<String>)
    ensures
        strings_view(r@) == lines_of(text@),
{
    let cs = chars_of(text);
    let n = cs.len();
    let mut out: Vec<String> = Vec::new();
    let mut start: usize = 0;
    let mut i: usize = 0;
    assert(cs@.subrange(0, 0) =~= Seq::<char>::empty());
    assert(line_pieces(Seq::<char>::empty()) =~= seq![Seq::<char>::empty()]);
    while i < n
        invariant
            n == cs@.len(),
            cs@ == text@,
            start <= i <= n,
            line_pieces(cs@.subrange(0, i as int)).len() > 0,
            line_pieces(cs@.subrange(0, i as int)).last() == cs@.subrange(start as int, i as int),
            strings_view(out@) == line_pieces(cs@.subrange(0, i as int)).drop_last().map_values(|l: Seq<char>| strip_cr(l)),
        decreases n - i,
    {
        let ghost pre = cs@.subrange(0, i as int);
        let ghost next = cs@.subrange(0, i + 1);
        let ghost p = line_pieces(pre);
        assert(next.drop_last() =~= pre);
        assert(next.last() == cs@[i as int]);
        if cs[i] == '\n' {
            let l = line_string(&cs, start, i);
            let ghost old_out = out@;
            out.push(l);
            assert(line_pieces(next) == p.push(Seq::empty()));
            assert(p.push(Seq::<char>::empty()).drop_last() =~= p);
            assert(strings_view(out@) =~= strings_view(old_out).push(l@));
            assert(strings_view(out@) =~= p.map_values(|l: Seq<char>| strip_cr(l)));
            start = i + 1;
            assert(cs@.subrange(start as int, i + 1) =~= Seq::<char>::empty());
        } else {
            let ghost q = p.update(p.len() - 1, p.last().push(cs@[i as int]));
            assert(line_pieces(next) == q);
            assert(q.drop_last() =~= p.drop_last());
            assert(cs@.subrange(start as int, i + 1) =~= cs@.subrange(start as int, i as int).push(cs@[i as int]));
        }
        i = i + 1;
    }
    assert(cs@.subrange(0, n as int) =~= text@);
    let ghost p = line_pieces(text@);
    if start < n {
        let l = line_string(&cs, start, n);
        let ghost old_out = out@;
        out.push(l);
        assert(p.drop_last().push(p.last()) =~= p);
        assert(strings_view(out@) =~= strings_view(old_out).push(l@));
        assert(strings_view(out@) =~= p.map_values(|l: Seq<char>| strip_cr(l)));
    }
    out
}

/// The number of failed downloads among `outcomes`, one per URL, where
/// `None` marks a download that succeeded.
pub open spec fn count_failed(outcomes: Seq<Option<DownloadError>>) -> nat
    decreases outcomes.len(),
{
    if outcomes.len() == 0 {
        0
    } else {
        count_failed(outcomes.drop_last()) + if outcomes.last() is Some {
            1nat
        } else {
            0nat
        }
    }
}

/// The counts of a finished batch.
pub struct BatchSummary {
    pub succeeded: usize,
    pub failed: usize,
}

impl BatchSummary {
    /// Counts the outcomes of a batch whose workers have all finished: a
    /// failed download leaves the others counted as they went.
    pub fn of(outcomes: &Vec<Option<DownloadError>>) -> (r: Self)
        ensures
            r.failed == count_failed(outcomes@),
            r.succeeded + r.failed == outcomes@.len(),
    {
        let mut failed: usize = 0;
        let mut i: usize = 0;
        while i < outcomes.len()
            invariant
                i <= outcomes@.len(),
                failed == count_failed(outcomes@.subrange(0, i as int)),
                failed <= i,
            decreases outcomes.len() - i,
        {
            assert(outcomes@.subrange(0, i + 1).drop_last() =~= outcomes@.subrange(0, i as int));
            if outcomes[i].is_some() {
                failed = failed + 1;
            }
            i = i + 1;
        }
        assert(outcomes@.subrange(0, outcomes@.len() as int) =~= outcomes@);
        BatchSummary { succeeded: outcomes.len() - failed, failed }
    }
}

} // verus!
