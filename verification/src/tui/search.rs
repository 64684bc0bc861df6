//! Full-text search over what the runs printed: a few hits of each run, the
//! newest run first, so that one chatty log does not drown the others.
use crate::store::{RunMeta, RunView};
use crate::text::{texts, trim_end, trimmed_end};
use crate::tui::viewer::{line_mentions, mentions, normalize_cr, normalized, plain, plain_lines};
use vstd::prelude::*;

verus! {

/// A search stops reading logs once it has this many hits.
pub const MAX_HITS: usize = 500;

/// Hits that one run can give.
pub const HITS_PER_RUN: usize = 5;

/// One match: which run, which line, what it said.
pub struct Hit {
    pub meta: RunMeta,
    pub line: usize,
    pub text: String,
}

/// A hit as contracts speak of it.
#[verifier::ext_equal]
pub ghost struct HitView {
    pub meta: RunView,
    pub line: usize,
    pub text: Seq<char>,
}

impl View for Hit {
    type V = HitView;

    open spec fn view(&self) -> HitView {
        HitView { meta: self.meta@, line: self.line, text: self.text@ }
    }
}

pub open spec fn hit_views(v: Seq<Hit>) -> Seq<HitView> {
    v.map_values(|h: Hit| h@)
}

/// The hit on a line.
pub open spec fn hit_on(m: RunView, lines: Seq<Seq<char>>, line: int) -> HitView {
    HitView { meta: m, line: line as usize, text: trim_end(lines[line]) }
}

/// The hits in a log: the first lines that mention `query`, as many as one run
/// can give.
pub open spec fn line_hits(m: RunView, lines: Seq<Seq<char>>, query: Seq<char>) -> Seq<HitView>
    decreases lines.len(),
{
    if lines.len() == 0 {
        seq![]
    } else {
        let rest = line_hits(m, lines.drop_last(), query);
        if rest.len() < HITS_PER_RUN && mentions(lines.last(), query) {
            rest.push(hit_on(m, lines, lines.len() - 1))
        } else {
            rest
        }
    }
}

/// The hits in the log of a run; none where it cannot be read.
pub open spec fn run_hits(m: RunView, log: Option<Seq<u8>>, query: Seq<char>) -> Seq<HitView> {
    match log {
        Some(bytes) => line_hits(m, plain_lines(normalized(bytes)), query),
        None => seq![],
    }
}

/// The hits in the first `n` runs, once there are enough no more.
pub open spec fn hits_after(
    runs: Seq<RunView>,
    logs: Seq<Option<Seq<u8>>>,
    query: Seq<char>,
    n: nat,
) -> Seq<HitView>
    decreases n,
{
    if n == 0 {
        seq![]
    } else {
        let had = hits_after(runs, logs, query, (n - 1) as nat);
        if had.len() < MAX_HITS {
            had + run_hits(runs[n - 1], logs[n - 1], query)
        } else {
            had
        }
    }
}

/// Adds the hits in the log of a run.
pub fn add_hits(hits: &mut Vec<Hit>, meta: &RunMeta, log: Vec<u8>, query: &str)
    ensures
        hit_views(final(hits)@) == hit_views(old(hits)@) + run_hits(meta@, Some(log@), query@),
        forall|k: int|
            old(hits)@.len() <= k < final(hits)@.len() ==> (#[trigger] final(hits)@[k]).line
                < usize::MAX,
{
    let bytes = normalize_cr(log);
    let lines = plain(bytes.as_slice());
    let ghost all = texts(lines@);
    let ghost had = hit_views(hits@);
    let mut per_run: usize = 0;
    let mut i: usize = 0;
    proof {
        assert(all.take(0) =~= seq![]);
        assert(line_hits(meta@, all.take(0), query@) =~= seq![]);
        assert(had + line_hits(meta@, all.take(0), query@) =~= had);
    }
    while i < lines.len() && per_run < HITS_PER_RUN
        invariant
            i <= lines@.len(),
            all == texts(lines@),
            per_run == line_hits(meta@, all.take(i as int), query@).len(),
            hit_views(hits@) == had + line_hits(meta@, all.take(i as int), query@),
            forall|k: int|
                old(hits)@.len() <= k < hits@.len() ==> (#[trigger] hits@[k]).line < usize::MAX,
        decreases lines@.len() - i,
    {
        let ghost part = all.take(i as int);
        let ghost more = all.take(i + 1);
        proof {
            assert(more.drop_last() =~= part);
            assert(more.last() == lines@[i as int]@);
        }
        if line_mentions(lines[i].as_str(), query) {
            let hit = Hit {
                meta: meta.clone(),
                line: i,
                text: trimmed_end(lines[i].as_str()),
            };
            proof {
                assert(hit@ == hit_on(meta@, more, i as int));
                assert(hit_views(hits@.push(hit)) =~= hit_views(hits@).push(hit@));
                assert(had + line_hits(meta@, part, query@).push(hit@) =~= (had + line_hits(
                    meta@,
                    part,
                    query@,
                )).push(hit@));
            }
            hits.push(hit);
            per_run = per_run + 1;
        }
        i = i + 1;
    }
    proof {
        lemma_enough_hits(meta@, all, query@, i as int);
    }
}

/// Once a run has given all its hits, further lines add none.
proof fn lemma_enough_hits(m: RunView, lines: Seq<Seq<char>>, query: Seq<char>, n: int)
    requires
        0 <= n <= lines.len(),
        n == lines.len() || line_hits(m, lines.take(n), query).len() >= HITS_PER_RUN,
    ensures
        line_hits(m, lines, query) == line_hits(m, lines.take(n), query),
    decreases lines.len(),
{
    if n == lines.len() {
        assert(lines.take(n) =~= lines);
    } else {
        assert(lines.drop_last().take(n) =~= lines.take(n));
        lemma_enough_hits(m, lines.drop_last(), query, n);
    }
}

// ----------------------------------------------------------------- laws --

/// A run gives at most five hits. Each is a line that mentions the query,
/// without the white space at its end, and they come in the order of the log.
pub proof fn law_run_hits(m: RunView, lines: Seq<Seq<char>>, query: Seq<char>)
    requires
        lines.len() <= usize::MAX,
    ensures
        ({
            let hits = line_hits(m, lines, query);
            &&& hits.len() <= HITS_PER_RUN
            &&& forall|k: int|
                0 <= k < hits.len() ==> {
                    let h = #[trigger] hits[k];
                    h.line < lines.len() && h == hit_on(m, lines, h.line as int) && mentions(
                        lines[h.line as int],
                        query,
                    )
                }
            &&& forall|k: int, l: int| 0 <= k < l < hits.len() ==> hits[k].line < hits[l].line
        }),
    decreases lines.len(),
{
    if lines.len() > 0 {
        let part = lines.drop_last();
        let had = line_hits(m, part, query);
        let hits = line_hits(m, lines, query);
        law_run_hits(m, part, query);
        assert forall|k: int| 0 <= k < hits.len() implies {
            let h = #[trigger] hits[k];
            h.line < lines.len() && h == hit_on(m, lines, h.line as int) && mentions(
                lines[h.line as int],
                query,
            )
        } by {
            if k < had.len() {
                assert(hits[k] == had[k]);
            }
        }
        assert forall|k: int, l: int| 0 <= k < l < hits.len() implies hits[k].line
            < hits[l].line by {
            assert(hits[k] == had[k]);
            if l < had.len() {
                assert(hits[l] == had[l]);
            }
        }
    }
}

/// A line that mentions the query is a hit, unless five lines before it are.
pub proof fn law_mentions_are_hits(
    m: RunView,
    lines: Seq<Seq<char>>,
    query: Seq<char>,
    line: int,
)
    requires
        0 <= line < lines.len() <= usize::MAX,
        mentions(lines[line], query),
    ensures
        line_hits(m, lines, query).contains(hit_on(m, lines, line)) || line_hits(
            m,
            lines.take(line),
            query,
        ).len() >= HITS_PER_RUN,
    decreases lines.len(),
{
    let part = lines.drop_last();
    let had = line_hits(m, part, query);
    let hits = line_hits(m, lines, query);
    if line == lines.len() - 1 {
        assert(lines.take(line) =~= part);
        if had.len() < HITS_PER_RUN {
            assert(hits[had.len() as int] == hit_on(m, lines, line));
        }
    } else {
        assert(part.take(line) =~= lines.take(line));
        assert(part[line] == lines[line]);
        law_mentions_are_hits(m, part, query, line);
        if had.contains(hit_on(m, part, line)) {
            let k = choose|k: int| 0 <= k < had.len() && had[k] == hit_on(m, part, line);
            assert(hits[k] == hit_on(m, lines, line));
        }
    }
}

/// A search gives fewer than 505 hits: it reads another log only while there
/// are fewer than 500, and a log adds at most five.
pub proof fn law_searches_are_bounded(
    runs: Seq<RunView>,
    logs: Seq<Option<Seq<u8>>>,
    query: Seq<char>,
    n: nat,
)
    requires
        forall|k: int|
            0 <= k < n ==> (#[trigger] logs[k] matches Some(bytes) ==> plain_lines(
                normalized(bytes),
            ).len() <= usize::MAX),
    ensures
        hits_after(runs, logs, query, n).len() < MAX_HITS + HITS_PER_RUN,
    decreases n,
{
    if n > 0 {
        law_searches_are_bounded(runs, logs, query, (n - 1) as nat);
        if let Some(bytes) = logs[n - 1] {
            law_run_hits(runs[n - 1], plain_lines(normalized(bytes)), query);
        }
    }
}

/// Hits come in the order of the runs: those of a later run follow those of
/// the runs before it, whose hits stay as they are.
pub proof fn law_hits_follow_the_runs(
    runs: Seq<RunView>,
    logs: Seq<Option<Seq<u8>>>,
    query: Seq<char>,
    n: nat,
    k: nat,
)
    requires
        k <= n,
    ensures
        hits_after(runs, logs, query, k).len() <= hits_after(runs, logs, query, n).len(),
        hits_after(runs, logs, query, n).take(hits_after(runs, logs, query, k).len() as int)
            == hits_after(runs, logs, query, k),
    decreases n,
{
    let first = hits_after(runs, logs, query, k);
    let all = hits_after(runs, logs, query, n);
    if k < n {
        law_hits_follow_the_runs(runs, logs, query, (n - 1) as nat, k);
        let had = hits_after(runs, logs, query, (n - 1) as nat);
        assert(all.take(first.len() as int) =~= had.take(first.len() as int));
    } else {
        assert(all.take(first.len() as int) =~= first);
    }
}

} // verus!
