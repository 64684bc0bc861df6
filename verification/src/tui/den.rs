//! The den: what your library adds up to.
use crate::store::{now_ms, run_views, RunMeta, RunView};
use crate::text::same;
use vstd::prelude::*;

verus! {

/// Library-wide stats for the Den view, computed on entry.
pub struct DenStats {
    pub total: usize,
    pub bytes: u64,
    pub ok: usize,
    pub failed: usize,
    pub today: usize,
    /// (command, times run): the command you keep coming back to.
    pub most_run: Option<(String, usize)>,
    /// (command, duration_ms): the longest sit.
    pub longest: Option<(String, u64)>,
}

/// The stats as contracts speak of them.
#[verifier::ext_equal]
pub ghost struct DenView {
    pub total: nat,
    pub bytes: nat,
    pub ok: nat,
    pub failed: nat,
    pub today: nat,
    pub most_run: Option<(Seq<char>, nat)>,
    pub longest: Option<(Seq<char>, u64)>,
}

impl View for DenStats {
    type V = DenView;

    open spec fn view(&self) -> DenView {
        DenView {
            total: self.total as nat,
            bytes: self.bytes as nat,
            ok: self.ok as nat,
            failed: self.failed as nat,
            today: self.today as nat,
            most_run: match self.most_run {
                Some(m) => Some((m.0@, m.1 as nat)),
                None => None,
            },
            longest: match self.longest {
                Some(l) => Some((l.0@, l.1)),
                None => None,
            },
        }
    }
}

/// The bytes of all runs together.
pub open spec fn total_bytes(runs: Seq<RunView>) -> nat
    decreases runs.len(),
{
    if runs.len() == 0 {
        0
    } else {
        total_bytes(runs.drop_last()) + runs.last().bytes as nat
    }
}

/// How many runs have a property.
pub open spec fn count(runs: Seq<RunView>, p: spec_fn(RunView) -> bool) -> nat
    decreases runs.len(),
{
    if runs.len() == 0 {
        0
    } else {
        count(runs.drop_last(), p) + if p(runs.last()) {
            1nat
        } else {
            0
        }
    }
}

/// How often a command was run.
pub open spec fn times_run(runs: Seq<RunView>, cmdline: Seq<char>) -> nat {
    count(runs, |m: RunView| m.cmdline() == cmdline)
}

/// The command that was run most often, and how often; of several, the one
/// that came to that number first.
pub open spec fn most_run(runs: Seq<RunView>) -> Option<(Seq<char>, nat)>
    decreases runs.len(),
{
    if runs.len() == 0 {
        None
    } else {
        let command = runs.last().cmdline();
        let times = times_run(runs, command);
        match most_run(runs.drop_last()) {
            Some(best) => if times > best.1 {
                Some((command, times))
            } else {
                Some(best)
            },
            None => Some((command, times)),
        }
    }
}

/// The run that took longest, by its command and duration; of several, the
/// first.
pub open spec fn longest(runs: Seq<RunView>) -> Option<(Seq<char>, u64)>
    decreases runs.len(),
{
    if runs.len() == 0 {
        None
    } else {
        let m = runs.last();
        match longest(runs.drop_last()) {
            Some(best) => if m.duration_ms > best.1 {
                Some((m.cmdline(), m.duration_ms))
            } else {
                Some(best)
            },
            None => Some((m.cmdline(), m.duration_ms)),
        }
    }
}

pub open spec fn failed(m: RunView) -> bool {
    m.exit_code is Some && !m.success()
}

/// Whether a run started no more than a day before `now`.
pub open spec fn today(now: u64, m: RunView) -> bool {
    m.started_ms + 86_400_000 >= now
}

/// The stats of a library at the time `now`.
pub open spec fn den_view(now: u64, runs: Seq<RunView>) -> DenView {
    DenView {
        total: runs.len(),
        bytes: total_bytes(runs),
        ok: count(runs, |m: RunView| m.success()),
        failed: count(runs, |m: RunView| failed(m)),
        today: count(runs, |m: RunView| today(now, m)),
        most_run: most_run(runs),
        longest: longest(runs),
    }
}

proof fn lemma_count_bound(runs: Seq<RunView>, p: spec_fn(RunView) -> bool)
    ensures
        count(runs, p) <= runs.len(),
    decreases runs.len(),
{
    if runs.len() > 0 {
        lemma_count_bound(runs.drop_last(), p);
    }
}

proof fn lemma_total_grows(runs: Seq<RunView>, n: int)
    requires
        0 <= n <= runs.len(),
    ensures
        total_bytes(runs.take(n)) <= total_bytes(runs),
    decreases runs.len(),
{
    if n == runs.len() {
        assert(runs.take(n) =~= runs);
    } else {
        assert(runs.drop_last().take(n) =~= runs.take(n));
        lemma_total_grows(runs.drop_last(), n);
    }
}

/// How often each command was run so far.
struct Tally {
    names: Vec<String>,
    counts: Vec<usize>,
}

impl Tally {
    /// The tally has every command of `runs` once, with its number of runs.
    spec fn of(self, runs: Seq<RunView>) -> bool {
        &&& self.names@.len() == self.counts@.len()
        &&& forall|k: int|
            0 <= k < self.names@.len() ==> self.counts@[k] == times_run(
                runs,
                #[trigger] self.names@[k]@,
            )
        &&& forall|k: int, l: int|
            0 <= k < l < self.names@.len() ==> self.names@[k]@ != self.names@[l]@
        &&& forall|c: Seq<char>|
            (forall|k: int| 0 <= k < self.names@.len() ==> #[trigger] self.names@[k]@ != c)
                ==> #[trigger] times_run(runs, c) == 0
    }

    /// Counts one more run of a command; the result is how often it ran.
    fn bump(&mut self, name: &str, Ghost(before): Ghost<Seq<RunView>>, Ghost(m): Ghost<RunView>) -> (n:
        usize)
        requires
            old(self).of(before),
            m.cmdline() == name@,
            before.len() < usize::MAX,
        ensures
            final(self).of(before.push(m)),
            n == times_run(before.push(m), name@),
    {
        let ghost after = before.push(m);
        proof {
            assert(after.drop_last() =~= before);
            assert forall|c: Seq<char>| #[trigger] times_run(after, c) == times_run(before, c) + if c
                == name@ {
                1nat
            } else {
                0
            } by {}
        }
        let mut k: usize = 0;
        while k < self.names.len()
            invariant
                k <= self.names@.len(),
                *self == *old(self),
                old(self).of(before),
                m.cmdline() == name@,
                before.len() < usize::MAX,
                forall|i: int| 0 <= i < k ==> #[trigger] self.names@[i]@ != name@,
                after == before.push(m),
                forall|c: Seq<char>| #[trigger]
                    times_run(after, c) == times_run(before, c) + if c == name@ {
                        1nat
                    } else {
                        0
                    },
            decreases self.names@.len() - k,
        {
            if same(self.names[k].as_str(), name) {
                proof {
                    lemma_count_bound(before, |r: RunView| r.cmdline() == name@);
                }
                let n: usize = self.counts[k] + 1;
                self.counts.set(k, n);
                proof {
                    assert forall|i: int| 0 <= i < self.names@.len() implies self.counts@[i]
                        == times_run(after, #[trigger] self.names@[i]@) by {
                        assert(times_run(after, self.names@[i]@) == times_run(
                            before,
                            self.names@[i]@,
                        ) + if self.names@[i]@ == name@ {
                            1nat
                        } else {
                            0
                        });
                    }
                    assert forall|c: Seq<char>|
                        (forall|i: int| 0 <= i < self.names@.len() ==> #[trigger] self.names@[i]@ != c)
                            implies #[trigger] times_run(after, c) == 0 by {
                        assert(self.names@[k as int]@ != c);
                        assert(times_run(before, c) == 0);
                    }
                }
                return n;
            }
            k = k + 1;
        }
        let ghost had = self.names@;
        self.names.push(name.to_owned());
        self.counts.push(1);
        proof {
            assert(times_run(before, name@) == 0);
            assert forall|i: int| 0 <= i < self.names@.len() implies self.counts@[i] == times_run(
                after,
                #[trigger] self.names@[i]@,
            ) by {
                if i < had.len() {
                    assert(self.names@[i] == had[i]);
                }
            }
            assert forall|i: int, l: int| 0 <= i < l < self.names@.len() implies self.names@[i]@
                != self.names@[l]@ by {
                assert(self.names@[i] == had[i]);
                if l < had.len() {
                    assert(self.names@[l] == had[l]);
                }
            }
            assert forall|c: Seq<char>|
                (forall|i: int| 0 <= i < self.names@.len() ==> #[trigger] self.names@[i]@ != c)
                    implies #[trigger] times_run(after, c) == 0 by {
                assert(self.names@[had.len() as int]@ == name@);
                assert forall|i: int| 0 <= i < had.len() implies #[trigger] had[i]@ != c by {
                    assert(self.names@[i] == had[i]);
                }
                assert(times_run(before, c) == 0);
            }
        }
        1
    }
}

impl DenStats {
    /// Whether the bytes of `runs` can be added up.
    pub fn fits(runs: &[RunMeta]) -> (res: bool)
        ensures
            res == (total_bytes(run_views(runs@)) <= u64::MAX),
    {
        let ghost all = run_views(runs@);
        let size: usize = runs.len();
        let mut total: u64 = 0;
        let mut i: usize = 0;
        while i < size
            invariant
                i <= size,
                size == runs@.len(),
                all == run_views(runs@),
                total == total_bytes(all.take(i as int)),
            decreases size - i,
        {
            proof {
                assert(all.take(i + 1).drop_last() =~= all.take(i as int));
                assert(all.take(i + 1).last() == runs@[i as int]@);
                lemma_total_grows(all, i + 1);
            }
            match total.checked_add(runs[i].bytes) {
                Some(n) => {
                    total = n;
                },
                None => {
                    return false;
                },
            }
            i = i + 1;
        }
        assert(all.take(i as int) =~= all);
        true
    }

    /// The stats of `runs`, now.
    pub fn compute(runs: &[RunMeta]) -> (res: DenStats)
        requires
            total_bytes(run_views(runs@)) <= u64::MAX,
        ensures
            exists|now: u64| res@ == #[trigger] den_view(now, run_views(runs@)),
    {
        let now: u64 = now_ms();
        DenStats::compute_at(now, runs)
    }

    /// The stats of `runs` at the time `now`.
    pub fn compute_at(now: u64, runs: &[RunMeta]) -> (res: DenStats)
        requires
            total_bytes(run_views(runs@)) <= u64::MAX,
        ensures
            res@ == den_view(now, run_views(runs@)),
    {
        let day_ago: u64 = now.saturating_sub(86_400_000);
        let ghost all = run_views(runs@);
        let size: usize = runs.len();
        let mut stats = DenStats {
            total: size,
            bytes: 0,
            ok: 0,
            failed: 0,
            today: 0,
            most_run: None,
            longest: None,
        };
        let mut tally = Tally { names: Vec::new(), counts: Vec::new() };
        let mut i: usize = 0;
        proof {
            assert(all.take(0) =~= seq![]);
            assert forall|c: Seq<char>| #[trigger] times_run(all.take(0), c) == 0 by {}
        }
        while i < size
            invariant
                i <= size,
                size == runs@.len(),
                all == run_views(runs@),
                total_bytes(all) <= u64::MAX,
                day_ago == (if now >= 86_400_000 {
                    now - 86_400_000
                } else {
                    0
                }),
                tally.of(all.take(i as int)),
                stats.total == size,
                stats@ == (DenView { total: size as nat, ..den_view(now, all.take(i as int)) }),
            decreases size - i,
        {
            let ghost part = all.take(i as int);
            let ghost more = all.take(i + 1);
            let m = &runs[i];
            proof {
                assert(more =~= part.push(m@));
                assert(more.drop_last() =~= part);
                assert(more.last() == m@);
                lemma_total_grows(all, i + 1);
                lemma_count_bound(part, |m: RunView| m.success());
                lemma_count_bound(part, |m: RunView| failed(m));
                lemma_count_bound(part, |m: RunView| today(now, m));
            }
            stats.bytes = stats.bytes + m.bytes;
            match m.exit_code {
                Some(code) => if code == 0 {
                    stats.ok = stats.ok + 1;
                } else {
                    stats.failed = stats.failed + 1;
                },
                None => {},
            }
            if m.started_ms >= day_ago {
                stats.today = stats.today + 1;
            }
            let cmdline = m.cmdline();
            let n: usize = tally.bump(cmdline.as_str(), Ghost(part), Ghost(m@));
            let more_often = match &stats.most_run {
                Some(best) => n > best.1,
                None => true,
            };
            if more_often {
                stats.most_run = Some((cmdline.clone(), n));
            }
            let longer = match &stats.longest {
                Some(best) => m.duration_ms > best.1,
                None => true,
            };
            if longer {
                stats.longest = Some((cmdline, m.duration_ms));
            }
            i = i + 1;
        }
        assert(all.take(i as int) =~= all);
        stats
    }
}

// ----------------------------------------------------------------- laws --

/// The comfort command was run as often as the den says, and no command was
/// run more often; only an empty library has none.
pub proof fn law_comfort_command(runs: Seq<RunView>)
    ensures
        most_run(runs) is None <==> runs.len() == 0,
        most_run(runs) matches Some((command, times)) ==> {
            &&& times > 0
            &&& times == times_run(runs, command)
            &&& forall|other: Seq<char>| #[trigger] times_run(runs, other) <= times
        },
    decreases runs.len(),
{
    if runs.len() > 0 {
        let part = runs.drop_last();
        law_comfort_command(part);
        let last = runs.last().cmdline();
        assert forall|c: Seq<char>| #[trigger] times_run(runs, c) == times_run(part, c) + if c
            == last {
            1nat
        } else {
            0
        } by {}
        if part.len() == 0 {
            assert forall|c: Seq<char>| #[trigger] times_run(part, c) == 0 by {}
        }
    }
}

/// The longest sit is a run of the library, and none took longer; only an
/// empty library has none.
pub proof fn law_longest_sit(runs: Seq<RunView>)
    ensures
        longest(runs) is None <==> runs.len() == 0,
        longest(runs) matches Some((command, took)) ==> {
            &&& exists|i: int|
                0 <= i < runs.len() && (#[trigger] runs[i]).cmdline() == command
                    && runs[i].duration_ms == took
            &&& forall|i: int| 0 <= i < runs.len() ==> (#[trigger] runs[i]).duration_ms <= took
        },
    decreases runs.len(),
{
    if runs.len() > 0 {
        let part = runs.drop_last();
        law_longest_sit(part);
        let at = runs.len() - 1;
        if let Some(best) = longest(part) {
            let i = choose|i: int|
                0 <= i < part.len() && (#[trigger] part[i]).cmdline() == best.0
                    && part[i].duration_ms == best.1;
            assert(runs[i] == part[i]);
        }
        assert(runs[at] == runs.last());
        assert forall|i: int| 0 <= i < runs.len() implies (#[trigger] runs[i]).duration_ms
            <= longest(runs).unwrap().1 by {
            if i < at {
                assert(runs[i] == part[i]);
            }
        }
    }
}

/// Of the runs in the library, those that went well and those that failed are
/// distinct, and no count exceeds the total.
pub proof fn law_den_adds_up(now: u64, runs: Seq<RunView>)
    ensures
        den_view(now, runs).ok + den_view(now, runs).failed <= den_view(now, runs).total,
        den_view(now, runs).today <= den_view(now, runs).total,
    decreases runs.len(),
{
    if runs.len() > 0 {
        law_den_adds_up(now, runs.drop_last());
    }
}

} // verus!
