//! What holds of the library on the screen, whatever is pressed.
use crate::order::{arranged, in_rank, law_sorted_lists_stay, law_sorting_is_determined};
use crate::store::{RunState, RunView};
use crate::text::{contains, folded, stands_at};
use crate::tui::app::{
    lemma_passing, moved, newest_first, passes, passing, place_of, AppView, Mode, WantView,
};
use crate::tui::keys::Key;
use crate::tui::screen;
use crate::tui::search::{hits_after, MAX_HITS};
use crate::tui::viewer::{first_index, ViewerView};
use vstd::prelude::*;

verus! {

// ------------------------------------------------------------- the list --

/// The list shows exactly the runs that pass the filter, in their order.
pub proof fn law_list_shows_what_passes(runs: Seq<RunView>, needle: Seq<char>)
    requires
        runs.len() <= usize::MAX,
    ensures
        ({
            let shown = passing(runs, needle);
            &&& forall|i: int|
                0 <= i < runs.len() ==> (passes(#[trigger] runs[i], needle) <==> shown.contains(
                    i as usize,
                ))
            &&& forall|k: int| 0 <= k < shown.len() ==> #[trigger] shown[k] < runs.len()
            &&& forall|k: int, l: int| 0 <= k < l < shown.len() ==> shown[k] < shown[l]
        }),
    decreases runs.len(),
{
    lemma_passing(runs, needle);
    if runs.len() > 0 {
        let part = runs.drop_last();
        let had = passing(part, needle);
        let now = passing(runs, needle);
        let at = runs.len() - 1;
        law_list_shows_what_passes(part, needle);
        if passes(runs[at], needle) {
            assert(now[had.len() as int] == at as usize);
        }
        assert forall|i: int| 0 <= i < runs.len() implies (passes(#[trigger] runs[i], needle)
            <==> now.contains(i as usize)) by {
            if i < at {
                assert(runs[i] == part[i]);
                if had.contains(i as usize) {
                    let k = choose|k: int| 0 <= k < had.len() && had[k] == i as usize;
                    assert(now[k] == i as usize);
                }
                if now.contains(i as usize) {
                    let k = choose|k: int| 0 <= k < now.len() && now[k] == i as usize;
                    assert(k < had.len() ==> had[k] == now[k]);
                }
            } else if now.contains(at as usize) {
                let k = choose|k: int| 0 <= k < now.len() && now[k] == at as usize;
                if k < had.len() {
                    assert(had[k] == now[k]);
                }
            }
        }
        assert forall|k: int, l: int| 0 <= k < l < now.len() implies now[k] < now[l] by {
            assert(had[k] == now[k]);
            if l < had.len() {
                assert(had[l] == now[l]);
            }
        }
    }
}

/// To filter the list is to show, in their order, exactly the runs whose
/// command or directory mentions the filter, whatever its case, or all of
/// them where there is none. The cursor stays where it was as far as the list
/// reaches, and the library and the filter stay what they were.
pub proof fn law_filtering_is_exact(s: AppView)
    requires
        s.runs.len() <= usize::MAX,
    ensures
        ({
            let t = s.refiltered();
            let needle = folded(s.filter);
            &&& forall|i: int|
                0 <= i < s.runs.len() ==> (t.filtered.contains(i as usize) <==> s.filter.len() == 0
                    || contains(folded((#[trigger] s.runs[i]).cmdline()), needle) || contains(
                    folded(s.runs[i].cwd),
                    needle,
                ))
            &&& forall|k: int| 0 <= k < t.filtered.len() ==> #[trigger] t.filtered[k] < s.runs.len()
            &&& forall|k: int, l: int|
                0 <= k < l < t.filtered.len() ==> t.filtered[k] < t.filtered[l]
            &&& t.selected == if t.filtered.len() == 0 {
                0
            } else if s.selected < t.filtered.len() {
                s.selected
            } else {
                (t.filtered.len() - 1) as nat
            }
            &&& t.selected_run() == if t.filtered.len() == 0 {
                None
            } else {
                Some(s.runs[t.filtered[t.selected as int] as int])
            }
            &&& t == (AppView { filtered: t.filtered, selected: t.selected, ..s })
        }),
{
    let t = s.refiltered();
    let needle = folded(s.filter);
    law_list_shows_what_passes(s.runs, needle);
    assert forall|i: int| 0 <= i < s.runs.len() implies (t.filtered.contains(i as usize)
        <==> s.filter.len() == 0 || contains(folded((#[trigger] s.runs[i]).cmdline()), needle)
        || contains(folded(s.runs[i].cwd), needle)) by {
        assert(passes(s.runs[i], needle) <==> t.filtered.contains(i as usize));
        let cwd = folded(s.runs[i].cwd);
        if s.filter.len() == 0 {
            assert(needle =~= seq![]);
        } else if needle.len() == 0 {
            assert(cwd.subrange(0, 0) =~= needle);
            assert(stands_at(cwd, needle, 0));
        }
    }
}

/// Without a filter the list shows every run.
pub proof fn law_no_filter_shows_all(s: AppView)
    requires
        s.wf(),
        s.filter.len() == 0,
    ensures
        s.filtered == Seq::new(s.runs.len(), |i: int| i as usize),
{
    assert(folded(s.filter) =~= seq![]);
    lemma_all_pass(s.runs);
}

proof fn lemma_all_pass(runs: Seq<RunView>)
    ensures
        passing(runs, seq![]) == Seq::new(runs.len(), |i: int| i as usize),
    decreases runs.len(),
{
    if runs.len() > 0 {
        lemma_all_pass(runs.drop_last());
    }
    assert(passing(runs, seq![]) =~= Seq::new(runs.len(), |i: int| i as usize));
}

/// The runs are listed from the newest to the oldest.
pub proof fn law_runs_are_newest_first(runs: Seq<RunView>, loaded: Seq<RunView>, i: int, j: int)
    requires
        newest_first(runs, loaded),
        0 <= i < j < runs.len(),
    ensures
        runs[i].started_ms >= runs[j].started_ms,
{
    let newer = |a: RunView, b: RunView| a.started_ms > b.started_ms;
    let order = choose|order: Seq<int>| #[trigger]
        arranged(runs, loaded, order) && in_rank(runs, order, newer);
    assert(newer(runs[i], runs[j]) || !newer(runs[j], runs[i]));
}

/// Runs that were read newest first are listed as they were read; in
/// particular runs of the same moment keep their order.
pub proof fn law_moments_keep_their_order(runs: Seq<RunView>, loaded: Seq<RunView>)
    requires
        newest_first(runs, loaded),
        forall|i: int, j: int|
            0 <= i < j < loaded.len() ==> loaded[i].started_ms >= loaded[j].started_ms,
    ensures
        runs == loaded,
{
    law_sorted_lists_stay(runs, loaded, |a: RunView, b: RunView| a.started_ms > b.started_ms);
}

/// What was read decides the list: there is one newest-first order.
pub proof fn law_reading_decides_the_list(a: Seq<RunView>, b: Seq<RunView>, loaded: Seq<RunView>)
    requires
        newest_first(a, loaded),
        newest_first(b, loaded),
    ensures
        a == b,
{
    let newer = |x: RunView, y: RunView| x.started_ms > y.started_ms;
    law_sorting_is_determined(a, b, loaded, newer);
}

/// Reading the library again leaves the cursor on the run it was on, wherever
/// that stands now.
pub proof fn law_reload_keeps_the_cursor(s: AppView, runs: Seq<RunView>, i: int)
    requires
        s.wf(),
        s.selected_run() is Some,
        runs.len() <= usize::MAX,
        0 <= i < runs.len(),
        runs[i].id == s.selected_run().unwrap().id,
        passes(runs[i], folded(s.filter)),
    ensures
        s.reloaded(runs).selected_run() is Some,
        s.reloaded(runs).selected_run().unwrap().id == s.selected_run().unwrap().id,
{
    let shown = passing(runs, folded(s.filter));
    let id = s.selected_run().unwrap().id;
    law_list_shows_what_passes(runs, folded(s.filter));
    assert(shown.contains(i as usize));
    let k = choose|k: int| 0 <= k < shown.len() && shown[k] == i as usize;
    lemma_place_found(runs, shown, id, k);
}

proof fn lemma_place_found(runs: Seq<RunView>, shown: Seq<usize>, id: Seq<char>, k: int)
    requires
        0 <= k < shown.len(),
        runs[shown[k] as int].id == id,
    ensures
        place_of(runs, shown, id) < shown.len(),
        runs[shown[place_of(runs, shown, id) as int] as int].id == id,
    decreases shown.len(),
{
    if runs[shown[0] as int].id != id {
        let rest = shown.drop_first();
        assert(rest[k - 1] == shown[k]);
        lemma_place_found(runs, rest, id, k - 1);
        assert(rest[place_of(runs, rest, id) as int] == shown[place_of(runs, shown, id) as int]);
    }
}

/// A run that is gone from the library leaves the cursor inside the list.
pub proof fn law_reload_keeps_the_state_sound(s: AppView, runs: Seq<RunView>)
    requires
        s.wf(),
        runs.len() <= usize::MAX,
    ensures
        s.reloaded(runs).wf(),
        s.reloaded(runs).filter == s.filter,
        s.reloaded(runs).mode == s.mode,
        s.reloaded(runs).view == s.view,
        s.reloaded(runs).viewer == s.viewer,
{
}

// ----------------------------------------------------------------- keys --

/// Whatever is pressed, the list keeps showing what passes the filter, every
/// cursor stays on an item, and the viewer's matches stay those of its query.
pub proof fn law_keys_keep_the_state_sound(s: AppView, key: Key, now: u64)
    requires
        s.wf(),
    ensures
        s.keyed(key, now).0.wf(),
{
    let quiet = AppView { status: None, ..s };
    match s.mode {
        Mode::Normal => {
            lemma_list_key(quiet, key, now);
            lemma_results_key(quiet, key);
            lemma_viewer_key(quiet, key);
            lemma_raft_key(quiet, key);
            lemma_normal_key(quiet, key, now);
        },
        Mode::ConfirmDelete => {},
        _ => {
            lemma_input_key(quiet, key);
        },
    }
}

proof fn lemma_normal_key(s: AppView, key: Key, now: u64)
    requires
        s.wf(),
        s.list_key(key, now).0.wf(),
        s.results_key(key).0.wf(),
        s.viewer_key(key).wf(),
        s.raft_key(key).0.wf(),
    ensures
        s.normal_key(key, now).0.wf(),
{
}

proof fn lemma_list_key(s: AppView, key: Key, now: u64)
    requires
        s.wf(),
    ensures
        s.list_key(key, now).0.wf(),
{
}

proof fn lemma_results_key(s: AppView, key: Key)
    requires
        s.wf(),
    ensures
        s.results_key(key).0.wf(),
{
}

proof fn lemma_viewer_key(s: AppView, key: Key)
    requires
        s.wf(),
    ensures
        s.viewer_key(key).wf(),
{
    if let Some(v) = s.viewer {
        assert(v.keyed(key).wf());
    }
}

proof fn lemma_raft_key(s: AppView, key: Key)
    requires
        s.wf(),
    ensures
        s.raft_key(key).0.wf(),
{
    assert(s.boarding().wf());
    assert(s.phoning().wf());
}

proof fn lemma_input_key(s: AppView, key: Key)
    requires
        s.wf(),
    ensures
        s.input_key(key).0.wf(),
{
    if let Some(v) = s.viewer {
        lemma_searched(v, s.input);
    }
}

proof fn lemma_searched(v: ViewerView, query: Seq<char>)
    requires
        v.wf(),
    ensures
        v.searched(query).wf(),
{
    let found = v.with_query(query);
    let next = first_index(found.matches, |m: usize| m >= v.scroll);
    assert(next <= found.matches.len()) by {
        lemma_first_index_bound(found.matches, |m: usize| m >= v.scroll);
    }
}

proof fn lemma_first_index_bound(s: Seq<usize>, p: spec_fn(usize) -> bool)
    ensures
        first_index(s, p) <= s.len(),
    decreases s.len(),
{
    if s.len() > 0 {
        lemma_first_index_bound(s.drop_first(), p);
    }
}

/// No key changes the runs: only reading the library does.
pub proof fn law_keys_keep_the_runs(s: AppView, key: Key, now: u64)
    ensures
        s.keyed(key, now).0.runs == s.runs,
        s.keyed(key, now).0.root == s.root,
        s.keyed(key, now).0.tick == s.tick,
{
}

/// Esc clears an active filter before it quits: the first shows the whole
/// list again, the second leaves.
pub proof fn law_esc_clears_before_it_quits(s: AppView, now: u64)
    requires
        s.wf(),
        s.running,
        s.mode == Mode::Normal,
        s.view == screen::View::List,
        s.qr is None,
        s.filter.len() > 0,
    ensures
        ({
            let once = s.keyed(Key::Esc, now).0;
            &&& once.running
            &&& once.filter.len() == 0
            &&& once.filtered.len() == s.runs.len()
            &&& once.view == screen::View::List
            &&& !once.keyed(Key::Esc, now).0.running
        }),
{
    let once = s.keyed(Key::Esc, now).0;
    lemma_list_key(AppView { status: None, ..s }, Key::Esc, now);
    law_no_filter_shows_all(once);
}

/// The program ends only where `q` or Esc is pressed on the splash screen or
/// in the list, with no prompt open.
pub proof fn law_quitting(s: AppView, key: Key, now: u64)
    requires
        s.running,
    ensures
        !s.keyed(key, now).0.running ==> {
            &&& key == Key::Char('q') || key == Key::Esc
            &&& s.mode == Mode::Normal
            &&& s.view == screen::View::Splash || s.view == screen::View::List
        },
{
}

/// An open QR code takes the next key, whatever it is, and closes; nothing
/// else changes but that a message goes.
pub proof fn law_qr_takes_the_next_key(s: AppView, key: Key, now: u64)
    requires
        s.mode == Mode::Normal,
        s.view != screen::View::Splash,
        s.qr is Some,
    ensures
        s.keyed(key, now) == (AppView { qr: None, status: None, ..s }, WantView::Nothing),
{
}

/// A message lasts until the next key: what a key leaves does not depend on it.
pub proof fn law_messages_last_one_key(s: AppView, msg: Option<Seq<char>>, key: Key, now: u64)
    ensures
        s.keyed(key, now) == (AppView { status: msg, ..s }).keyed(key, now),
{
}

/// A run is deleted only by `y` at the prompt that asks, and it is the
/// selected one; any other key cancels.
pub proof fn law_deletion_is_confirmed(s: AppView, key: Key, now: u64)
    ensures
        s.keyed(key, now).1 matches WantView::Delete(id) ==> {
            &&& s.mode == Mode::ConfirmDelete
            &&& key == Key::Char('y')
            &&& s.selected_run() is Some
            &&& s.selected_run().unwrap().id == id
        },
        s.mode == Mode::ConfirmDelete ==> s.keyed(key, now).0.mode == Mode::Normal,
        s.mode == Mode::ConfirmDelete && key != Key::Char('y') ==> s.keyed(key, now) == (
            AppView { mode: Mode::Normal, status: None, ..s },
            WantView::Nothing,
        ),
        s.mode != Mode::ConfirmDelete ==> s.keyed(key, now).0.mode != Mode::ConfirmDelete,
{
}

/// A run that is still going is not put up for deletion.
pub proof fn law_live_runs_are_not_deleted(s: AppView)
    requires
        s.selected_run() is Some,
        s.selected_run().unwrap().state(true) == RunState::Running,
        s.mode == Mode::Normal,
    ensures
        s.delete_requested(true).mode == Mode::Normal,
        s.delete_requested(true) == s.says("that run is still going — can't delete it"@),
{
}

/// An ssh session is asked for only for a machine that is online and is not
/// this one, and only from the raft.
pub proof fn law_boarding(s: AppView, key: Key, now: u64)
    requires
        s.pending_ssh is None,
    ensures
        s.keyed(key, now).0.pending_ssh is Some ==> {
            &&& s.view == screen::View::Raft
            &&& key == Key::Enter
            &&& s.peer_selected < s.peers.len()
            &&& s.peers[s.peer_selected as int].online
            &&& !s.peers[s.peer_selected as int].is_self
            &&& s.keyed(key, now).0.pending_ssh == Some(
                s.peers[s.peer_selected as int].target(s.user),
            )
        },
{
}

/// The filter follows the input while it is typed; Esc takes it away and Enter
/// keeps it.
pub proof fn law_filter_follows_the_input(s: AppView, c: char, now: u64)
    requires
        s.mode == Mode::FilterInput,
    ensures
        s.keyed(Key::Char(c), now).0.filter == s.input.push(c),
        s.keyed(Key::Char(c), now).0.filtered == passing(s.runs, folded(s.input.push(c))),
        s.keyed(Key::Char(c), now).0.mode == Mode::FilterInput,
        s.keyed(Key::Esc, now).0.filter.len() == 0,
        s.keyed(Key::Enter, now).0.filter == s.filter,
        s.keyed(Key::Enter, now).0.mode == Mode::Normal,
{
}

/// Backspace takes back what was typed last.
pub proof fn law_backspace_undoes_typing(s: AppView, c: char, now: u64)
    requires
        s.mode != Mode::Normal,
        s.mode != Mode::ConfirmDelete,
    ensures
        s.keyed(Key::Char(c), now).0.keyed(Key::Backspace, now).0.input == s.input,
{
    assert(s.input.push(c).drop_last() =~= s.input);
}

/// The cursor keys stay inside a list, and at its ends they stop.
pub proof fn law_cursors_stay_inside(key: Key, at: nat, len: nat)
    requires
        at < len,
    ensures
        moved(key, at, len) < len,
        moved(Key::Char('g'), at, len) == 0,
        moved(Key::Char('G'), at, len) == len - 1,
        at + 1 < len ==> moved(Key::Up, moved(Key::Down, at, len), len) == at,
{
}

// ---------------------------------------------------------------- views --

/// Prompts belong to their views, and the viewer is there when it is shown.
pub open spec fn coherent(s: AppView) -> bool {
    &&& s.mode == Mode::FilterInput || s.mode == Mode::SearchInput || s.mode == Mode::ConfirmDelete
        ==> s.view == screen::View::List
    &&& s.mode == Mode::ViewerSearchInput ==> s.view == screen::View::Viewer
    &&& s.view == screen::View::Viewer <==> s.viewer is Some
}

/// Every key keeps prompts with their views.
pub proof fn law_keys_keep_prompts_with_views(s: AppView, key: Key, now: u64)
    requires
        coherent(s),
    ensures
        coherent(s.keyed(key, now).0),
{
}

/// So does every outcome that a key asked for.
pub proof fn law_outcomes_keep_prompts_with_views(
    s: AppView,
    key: Key,
    now: u64,
    runs: Seq<RunView>,
    v: ViewerView,
    found: Result<Seq<crate::fleet::PeerView>, Seq<char>>,
    alive: bool,
)
    requires
        coherent(s),
    ensures
        ({
            let (next, want) = s.keyed(key, now);
            &&& coherent(next.reloaded(runs))
            &&& want is Open ==> coherent(next.viewing(Ok(v)))
            &&& want is AskRaft ==> coherent(next.rafting(found))
            &&& want is ProbeSelected ==> coherent(next.delete_requested(alive))
            &&& want is Search ==> coherent(next.search_ended())
        }),
{
}

/// Esc leads back from where Enter led: from a run to the list, from a hit to
/// the results.
pub proof fn law_esc_leads_back(s: AppView, key: Key, v: ViewerView, now: u64)
    requires
        s.mode == Mode::Normal,
        s.qr is None,
        s.view == screen::View::List || s.view == screen::View::Results,
        s.keyed(key, now).1 matches WantView::Open(o) && o.from_results == v.from_results,
    ensures
        s.keyed(key, now).0.viewing(Ok(v)).keyed(Key::Esc, now).0.view == s.view,
{
}

// --------------------------------------------------------------- search --

/// The state after the logs of the first `n` runs were handed in, for as long
/// as the search goes on.
pub open spec fn collected(s: AppView, logs: Seq<Option<Seq<u8>>>, n: nat) -> AppView
    decreases n,
{
    if n == 0 {
        s
    } else {
        let had = collected(s, logs, (n - 1) as nat);
        if had.hits.len() < MAX_HITS {
            had.with_hits(n - 1, logs[n - 1])
        } else {
            had
        }
    }
}

/// A search collects the hits of the runs in their order, the newest first,
/// and changes nothing else.
pub proof fn law_search_collects(s: AppView, logs: Seq<Option<Seq<u8>>>, n: nat)
    requires
        s.hits.len() == 0,
    ensures
        collected(s, logs, n) == (AppView {
            hits: hits_after(s.runs, logs, s.content_query, n),
            ..s
        }),
    decreases n,
{
    if n > 0 {
        law_search_collects(s, logs, (n - 1) as nat);
    } else {
        assert(s.hits =~= seq![]);
    }
    assert(collected(s, logs, n) =~= (AppView {
        hits: hits_after(s.runs, logs, s.content_query, n),
        ..s
    }));
}

// ----------------------------------------------------------------- time --

/// The list is read again on its own in every tenth tick, and only while it is
/// shown and no prompt is open; a run in the viewer is looked at in every tick
/// for as long as it is live.
pub proof fn law_ticks(s: AppView)
    ensures
        s.ticked().1 is Refresh <==> s.view == screen::View::List && s.mode == Mode::Normal
            && s.ticked().0.tick % 10 == 0,
        s.ticked().1 is Poll <==> s.view == screen::View::Viewer && s.viewer is Some
            && s.viewer.unwrap().live,
        s.ticked().0 == (AppView { tick: s.ticked().0.tick, ..s }),
{
}

} // verus!
