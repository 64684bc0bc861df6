//! What each key does in each view, and what becomes of what it asked for.
use crate::fleet::{qr_of, PeerView};
use crate::store::RunView;
use crate::text::{folded, is_space};
use crate::text_laws::law_what_trimming_leaves;
use crate::tui::app::{
    blank, loaded_runs, moved, place_of, AppView, Loaded, Mode, OpeningView, WantView,
};
use crate::tui::den::den_view;
use crate::tui::keys::Key;
use crate::tui::screen;
use crate::tui::search::HitView;
use crate::tui::viewer::ViewerView;
use vstd::prelude::*;

verus! {

/// A state whose message a key has cleared.
pub open spec fn quiet(s: AppView) -> AppView {
    AppView { status: None, ..s }
}

/// No prompt is open, no QR code is shown, and the view is `view`.
pub open spec fn shows(s: AppView, view: screen::View) -> bool {
    s.mode == Mode::Normal && s.qr is None && s.view == view
}

// -------------------------------------------------------------- cursors --

/// The cursor keys: one item on or back, or to an end, and no further; no
/// other key moves a cursor, and in an empty list it stays at the top.
pub proof fn law_cursor_keys(at: nat, len: nat, c: char)
    requires
        at < len || at == 0,
    ensures
        at + 1 < len ==> moved(Key::Down, at, len) == at + 1,
        at + 1 == len ==> moved(Key::Down, at, len) == at,
        at > 0 ==> moved(Key::Up, at, len) == at - 1,
        at == 0 ==> moved(Key::Up, at, len) == 0,
        moved(Key::Char('j'), at, len) == moved(Key::Down, at, len),
        moved(Key::Char('k'), at, len) == moved(Key::Up, at, len),
        moved(Key::Char('g'), at, len) == 0,
        len > 0 ==> moved(Key::Char('G'), at, len) == len - 1,
        len == 0 ==> moved(Key::Down, at, len) == 0 && moved(Key::Char('G'), at, len) == 0,
        c != 'j' && c != 'k' && c != 'g' && c != 'G' ==> moved(Key::Char(c), at, len) == at,
        moved(Key::PageUp, at, len) == at,
        moved(Key::PageDown, at, len) == at,
        moved(Key::Enter, at, len) == at,
        moved(Key::Backspace, at, len) == at,
        moved(Key::Other, at, len) == at,
{
}

// ------------------------------------------------------------- the list --

/// The splash screen goes away at any key; `q` and Esc leave the program.
pub proof fn law_splash_keys(s: AppView, key: Key, now: u64)
    requires
        s.mode == Mode::Normal,
        s.view == screen::View::Splash,
    ensures
        key == Key::Char('q') || key == Key::Esc ==> s.keyed(key, now) == (
            AppView { running: false, ..quiet(s) },
            WantView::Nothing,
        ),
        key != Key::Char('q') && key != Key::Esc ==> s.keyed(key, now) == (
            AppView { view: screen::View::List, ..quiet(s) },
            WantView::Nothing,
        ),
{
}

/// In the list Enter opens the selected run from its top, `R` runs its command
/// again, word for word and in its directory, and `x` asks whether it can be
/// deleted. Where there is no run they do nothing.
pub proof fn law_keys_on_a_run(s: AppView, m: RunView, now: u64)
    requires
        shows(s, screen::View::List),
    ensures
        s.selected_run() == Some(m) ==> {
            &&& s.keyed(Key::Enter, now) == (
                quiet(s),
                WantView::Open(
                    OpeningView { meta: m, jump_to: None, query: None, from_results: false },
                ),
            )
            &&& s.keyed(Key::Char('R'), now) == (
                quiet(s),
                WantView::Rerun { args: seq!["run"@, "--"@] + m.cmd, cmd: m.cmd, cwd: m.cwd },
            )
            &&& s.keyed(Key::Char('x'), now) == (quiet(s), WantView::ProbeSelected)
        },
        s.filtered.len() == 0 ==> {
            &&& s.keyed(Key::Enter, now) == (quiet(s), WantView::Nothing)
            &&& s.keyed(Key::Char('R'), now) == (quiet(s), WantView::Nothing)
            &&& s.keyed(Key::Char('x'), now) == (quiet(s), WantView::Nothing)
        },
{
}

/// The other keys of the list: `/` edits the filter, `s` starts a search, `r`
/// reads the library again, `t` asks for the raft, `o` opens the den, `q`
/// leaves, and the cursor keys move the cursor.
pub proof fn law_list_keys(s: AppView, c: char, now: u64)
    requires
        shows(s, screen::View::List),
    ensures
        s.keyed(Key::Char('/'), now) == (
            AppView { input: s.filter, mode: Mode::FilterInput, ..quiet(s) },
            WantView::Nothing,
        ),
        s.keyed(Key::Char('s'), now) == (
            AppView { input: Seq::<char>::empty(), mode: Mode::SearchInput, ..quiet(s) },
            WantView::Nothing,
        ),
        s.keyed(Key::Char('r'), now) == (quiet(s), WantView::Reload),
        s.keyed(Key::Char('t'), now) == (quiet(s), WantView::AskRaft),
        s.keyed(Key::Char('o'), now) == (
            AppView { den: Some(den_view(now, s.runs)), view: screen::View::Den, ..quiet(s) },
            WantView::Nothing,
        ),
        s.keyed(Key::Char('q'), now) == (
            AppView { running: false, ..quiet(s) },
            WantView::Nothing,
        ),
        s.filter.len() == 0 ==> s.keyed(Key::Esc, now) == s.keyed(Key::Char('q'), now),
        s.keyed(Key::Down, now) == (
            AppView { selected: moved(Key::Down, s.selected, s.filtered.len()), ..quiet(s) },
            WantView::Nothing,
        ),
        s.keyed(Key::Up, now) == (
            AppView { selected: moved(Key::Up, s.selected, s.filtered.len()), ..quiet(s) },
            WantView::Nothing,
        ),
        c == 'j' || c == 'k' || c == 'g' || c == 'G' ==> s.keyed(Key::Char(c), now) == (
            AppView { selected: moved(Key::Char(c), s.selected, s.filtered.len()), ..quiet(s) },
            WantView::Nothing,
        ),
        c != '/' && c != 's' && c != 'r' && c != 't' && c != 'o' && c != 'q' && c != 'R' && c != 'x'
            && c != 'j' && c != 'k' && c != 'g' && c != 'G' ==> s.keyed(Key::Char(c), now) == (
            quiet(s),
            WantView::Nothing,
        ),
{
}

// ----------------------------------------------------- results and den --

/// In the results Enter opens the run of the selected hit at its line, with
/// the query that found it; `q` and Esc lead back to the list.
pub proof fn law_results_keys(s: AppView, h: HitView, c: char, now: u64)
    requires
        shows(s, screen::View::Results),
    ensures
        s.hit_selected < s.hits.len() && s.hits[s.hit_selected as int] == h ==> s.keyed(
            Key::Enter,
            now,
        ) == (
            quiet(s),
            WantView::Open(
                OpeningView {
                    meta: h.meta,
                    jump_to: Some(h.line),
                    query: Some(s.content_query),
                    from_results: true,
                },
            ),
        ),
        s.hits.len() == 0 ==> s.keyed(Key::Enter, now) == (quiet(s), WantView::Nothing),
        s.keyed(Key::Esc, now) == (
            AppView { view: screen::View::List, ..quiet(s) },
            WantView::Nothing,
        ),
        s.keyed(Key::Char('q'), now) == s.keyed(Key::Esc, now),
        s.keyed(Key::Down, now) == (
            AppView { hit_selected: moved(Key::Down, s.hit_selected, s.hits.len()), ..quiet(s) },
            WantView::Nothing,
        ),
        s.keyed(Key::Up, now) == (
            AppView { hit_selected: moved(Key::Up, s.hit_selected, s.hits.len()), ..quiet(s) },
            WantView::Nothing,
        ),
        c != 'q' ==> s.keyed(Key::Char(c), now) == (
            AppView { hit_selected: moved(Key::Char(c), s.hit_selected, s.hits.len()), ..quiet(s) },
            WantView::Nothing,
        ),
{
}

/// The den leads back to the list by `q`, Esc or `o`; other keys do nothing.
pub proof fn law_den_keys(s: AppView, key: Key, now: u64)
    requires
        shows(s, screen::View::Den),
    ensures
        key == Key::Char('q') || key == Key::Esc || key == Key::Char('o') ==> s.keyed(key, now) == (
            AppView { view: screen::View::List, ..quiet(s) },
            WantView::Nothing,
        ),
        key != Key::Char('q') && key != Key::Esc && key != Key::Char('o') ==> s.keyed(key, now) == (
            quiet(s),
            WantView::Nothing,
        ),
{
}

// --------------------------------------------------------------- viewer --

/// In the viewer `q` and Esc close it and lead back to where it was opened
/// from, `/` edits its query, and every other key is the viewer's own.
pub proof fn law_viewer_keys(s: AppView, v: ViewerView, key: Key, now: u64)
    requires
        shows(s, screen::View::Viewer),
        s.viewer == Some(v),
    ensures
        (key == Key::Char('q') || key == Key::Esc) && v.from_results ==> s.keyed(key, now) == (
            AppView { view: screen::View::Results, viewer: None, ..quiet(s) },
            WantView::Nothing,
        ),
        (key == Key::Char('q') || key == Key::Esc) && !v.from_results ==> s.keyed(key, now) == (
            AppView { view: screen::View::List, viewer: None, ..quiet(s) },
            WantView::Nothing,
        ),
        key == Key::Char('/') ==> s.keyed(key, now) == (
            AppView { input: v.query, mode: Mode::ViewerSearchInput, ..quiet(s) },
            WantView::Nothing,
        ),
        key != Key::Char('q') && key != Key::Esc && key != Key::Char('/') ==> s.keyed(key, now) == (
            AppView { viewer: Some(v.keyed(key)), ..quiet(s) },
            WantView::Nothing,
        ),
{
}

// ----------------------------------------------------------------- raft --

/// On the raft Enter boards the selected machine, unless it is this one or
/// offline, which is said; `p` shows its address for a phone; `r` asks again.
pub proof fn law_raft_keys(s: AppView, p: PeerView, c: char, now: u64)
    requires
        shows(s, screen::View::Raft),
    ensures
        s.peer_selected < s.peers.len() && s.peers[s.peer_selected as int] == p ==> {
            let enter = s.keyed(Key::Enter, now);
            let phone = s.keyed(Key::Char('p'), now);
            &&& p.is_self ==> enter == (
                AppView { status: Some("that's this machine — you're already aboard"@), ..s },
                WantView::Nothing,
            )
            &&& !p.is_self && !p.online ==> enter == (
                AppView { status: Some(p.name + " is offline"@), ..s },
                WantView::Nothing,
            )
            &&& !p.is_self && p.online ==> enter == (
                AppView { pending_ssh: Some(p.target(s.user)), ..quiet(s) },
                WantView::Nothing,
            )
            &&& qr_of(p.uri(s.user)) matches Ok(picture) ==> phone == (
                AppView { qr: Some((p.uri(s.user), picture)), ..quiet(s) },
                WantView::Nothing,
            )
            &&& qr_of(p.uri(s.user)) matches Err(e) ==> phone == (
                AppView { status: Some("QR failed: "@ + e), ..s },
                WantView::Nothing,
            )
        },
        s.peers.len() == 0 ==> s.keyed(Key::Enter, now) == (quiet(s), WantView::Nothing) && s.keyed(
            Key::Char('p'),
            now,
        ) == (quiet(s), WantView::Nothing),
        s.keyed(Key::Char('r'), now) == (quiet(s), WantView::AskRaft),
        s.keyed(Key::Esc, now) == (
            AppView { view: screen::View::List, ..quiet(s) },
            WantView::Nothing,
        ),
        s.keyed(Key::Char('q'), now) == s.keyed(Key::Esc, now),
        s.keyed(Key::Down, now) == (
            AppView { peer_selected: moved(Key::Down, s.peer_selected, s.peers.len()), ..quiet(s) },
            WantView::Nothing,
        ),
        s.keyed(Key::Up, now) == (
            AppView { peer_selected: moved(Key::Up, s.peer_selected, s.peers.len()), ..quiet(s) },
            WantView::Nothing,
        ),
        c != 'q' && c != 'r' && c != 'p' ==> s.keyed(Key::Char(c), now) == (
            AppView {
                peer_selected: moved(Key::Char(c), s.peer_selected, s.peers.len()),
                ..quiet(s)
            },
            WantView::Nothing,
        ),
{
}

// -------------------------------------------------------------- prompts --

/// What is typed into a search prompt changes the input and nothing else; Esc
/// gives it up.
pub proof fn law_typing_a_search(s: AppView, c: char, now: u64)
    requires
        s.mode == Mode::SearchInput || s.mode == Mode::ViewerSearchInput,
    ensures
        s.keyed(Key::Char(c), now) == (
            AppView { input: s.input + seq![c], ..quiet(s) },
            WantView::Nothing,
        ),
        s.input.len() > 0 ==> s.keyed(Key::Backspace, now) == (
            AppView { input: s.input.take(s.input.len() - 1), ..quiet(s) },
            WantView::Nothing,
        ),
        s.input.len() == 0 ==> s.keyed(Key::Backspace, now) == (quiet(s), WantView::Nothing),
        s.keyed(Key::Esc, now) == (AppView { mode: Mode::Normal, ..quiet(s) }, WantView::Nothing),
        s.keyed(Key::Up, now) == (quiet(s), WantView::Nothing),
        s.keyed(Key::Down, now) == (quiet(s), WantView::Nothing),
        s.keyed(Key::PageUp, now) == (quiet(s), WantView::Nothing),
        s.keyed(Key::PageDown, now) == (quiet(s), WantView::Nothing),
        s.keyed(Key::Other, now) == (quiet(s), WantView::Nothing),
{
    assert(s.input.push(c) =~= s.input + seq![c]);
    if s.input.len() > 0 {
        assert(s.input.drop_last() =~= s.input.take(s.input.len() - 1));
    }
    assert(s.keyed(Key::Backspace, now).0 =~= (AppView {
        input: if s.input.len() > 0 {
            s.input.take(s.input.len() - 1)
        } else {
            s.input
        },
        ..quiet(s)
    }));
}

/// What is typed into the filter prompt is the filter at once, and the list is
/// that of the runs which pass it.
pub proof fn law_typing_a_filter(s: AppView, c: char, now: u64)
    requires
        s.mode == Mode::FilterInput,
    ensures
        s.keyed(Key::Char(c), now) == (
            (AppView { input: s.input + seq![c], filter: s.input + seq![c], ..quiet(s) }).refiltered(),
            WantView::Nothing,
        ),
        s.input.len() > 0 ==> s.keyed(Key::Backspace, now) == (
            (AppView {
                input: s.input.take(s.input.len() - 1),
                filter: s.input.take(s.input.len() - 1),
                ..quiet(s)
            }).refiltered(),
            WantView::Nothing,
        ),
        s.keyed(Key::Esc, now) == (
            (AppView { filter: Seq::<char>::empty(), mode: Mode::Normal, ..quiet(s) }).refiltered(),
            WantView::Nothing,
        ),
        s.keyed(Key::Enter, now) == (
            AppView { mode: Mode::Normal, ..quiet(s) },
            WantView::Nothing,
        ),
{
    assert(s.input.push(c) =~= s.input + seq![c]);
    if s.input.len() > 0 {
        assert(s.input.drop_last() =~= s.input.take(s.input.len() - 1));
    }
}

/// Enter starts a search over all output for what was typed, without the white
/// space around it and whatever its case; nothing but white space starts none.
pub proof fn law_starting_a_search(s: AppView, lead: Seq<char>, query: Seq<char>, tail: Seq<char>, now: u64)
    requires
        s.mode == Mode::SearchInput,
        forall|i: int| 0 <= i < lead.len() ==> is_space(#[trigger] lead[i]),
        forall|i: int| 0 <= i < tail.len() ==> is_space(#[trigger] tail[i]),
        query.len() > 0 ==> !is_space(query[0]) && !is_space(query.last()),
        s.input == lead + query + tail,
        query.len() > 0 ==> folded(query).len() > 0,
    ensures
        query.len() > 0 ==> s.keyed(Key::Enter, now) == (
            AppView {
                mode: Mode::Normal,
                content_query: folded(query),
                hits: Seq::<HitView>::empty(),
                hit_selected: 0,
                ..quiet(s)
            },
            WantView::Search,
        ),
        query.len() == 0 ==> s.keyed(Key::Enter, now) == (
            AppView { mode: Mode::Normal, ..quiet(s) },
            WantView::Nothing,
        ),
{
    law_what_trimming_leaves(lead, query, tail);
    assert(folded(Seq::<char>::empty()) =~= Seq::<char>::empty());
    if query.len() == 0 {
        assert(query =~= Seq::<char>::empty());
    }
}

/// Enter searches the viewer for what was typed, and says so where nothing was
/// found or the search was cleared.
pub proof fn law_searching_from_the_prompt(s: AppView, v: ViewerView, now: u64)
    requires
        s.mode == Mode::ViewerSearchInput,
        s.viewer == Some(v),
    ensures
        s.keyed(Key::Enter, now).1 == WantView::Nothing,
        s.keyed(Key::Enter, now).0.viewer == Some(v.searched(s.input)),
        s.keyed(Key::Enter, now).0.mode == Mode::Normal,
        v.searched(s.input).matches.len() > 0 ==> s.keyed(Key::Enter, now).0.status is None,
        v.searched(s.input).matches.len() == 0 && s.input.len() > 0 ==> s.keyed(
            Key::Enter,
            now,
        ).0.status == Some("no matches for '"@ + s.input + "'"@),
        s.input.len() == 0 ==> s.keyed(Key::Enter, now).0.status == Some("search cleared"@),
{
}

/// At the question before a deletion `y` deletes the selected run.
pub proof fn law_confirming(s: AppView, m: RunView, now: u64)
    requires
        s.mode == Mode::ConfirmDelete,
        s.selected_run() == Some(m),
    ensures
        s.keyed(Key::Char('y'), now) == (
            AppView { mode: Mode::Normal, ..quiet(s) },
            WantView::Delete(m.id),
        ),
{
}

// ------------------------------------------------------------- outcomes --

/// A log that was read is shown in the viewer; where it could not be read the
/// view stays and the bottom line says why.
pub proof fn law_viewing(s: AppView, v: ViewerView, why: Seq<char>)
    ensures
        s.viewing(Ok(v)) == (AppView { viewer: Some(v), view: screen::View::Viewer, ..s }),
        s.viewing(Err(why)) == (AppView { status: Some("can't read output: "@ + why), ..s }),
{
}

/// The raft shows the machines that were found, or none and why; the cursor
/// stays where it was as far as they reach.
pub proof fn law_rafting(s: AppView, peers: Seq<PeerView>, why: Seq<char>)
    ensures
        s.rafting(Ok(peers)) == (AppView {
            peers,
            peers_err: None,
            peer_selected: if s.peer_selected < peers.len() {
                s.peer_selected
            } else if peers.len() > 0 {
                (peers.len() - 1) as nat
            } else {
                0
            },
            view: screen::View::Raft,
            ..s
        }),
        s.rafting(Err(why)) == (AppView {
            peers: Seq::<PeerView>::empty(),
            peers_err: Some(why),
            peer_selected: 0,
            view: screen::View::Raft,
            ..s
        }),
{
}

/// A run that goes on is not deleted, which is said; any other is asked about.
pub proof fn law_asking_to_delete(s: AppView, m: RunView, alive: bool)
    requires
        s.selected_run() == Some(m),
    ensures
        !m.done && m.pid is Some && alive ==> s.delete_requested(alive) == (AppView {
            status: Some("that run is still going — can't delete it"@),
            ..s
        }),
        m.done || m.pid is None || !alive ==> s.delete_requested(alive) == (AppView {
            mode: Mode::ConfirmDelete,
            ..s
        }),
{
}

/// A search that found something shows the first hit; one that did not says
/// so and stays where it was.
pub proof fn law_ending_a_search(s: AppView)
    ensures
        s.hits.len() > 0 ==> s.search_ended() == (AppView {
            hit_selected: 0,
            view: screen::View::Results,
            ..s
        }),
        s.hits.len() == 0 ==> s.search_ended() == (AppView {
            hit_selected: 0,
            status: Some("no runs mention '"@ + s.content_query + "'"@),
            ..s
        }),
{
}

// -------------------------------------------------------------- loading --

/// The library is what the index lists and what is in flight; a capture in
/// flight counts the bytes of its log where they are known.
pub proof fn law_loading(l: Loaded, i: int)
    ensures
        loaded_runs(l).len() == l.listed@.len() + l.running@.len(),
        0 <= i < l.listed@.len() ==> loaded_runs(l)[i] == l.listed@[i]@,
        0 <= i < l.running@.len() ==> {
            let f = l.running@[i];
            let shown = loaded_runs(l)[l.listed@.len() + i];
            &&& shown == (RunView { bytes: shown.bytes, ..f.meta@ })
            &&& f.size is None ==> shown.bytes == f.meta@.bytes
            &&& f.size matches Some(n) ==> shown.bytes == n
        },
{
}

/// Where the selected run is not shown any more, the cursor stays where it
/// was as far as the list reaches; where several carry its name, it is the
/// first of them.
pub proof fn law_reloading(s: AppView, runs: Seq<RunView>, k: int)
    ensures
        ({
            let t = s.reloaded(runs);
            &&& t.runs == runs
            &&& t.filtered == (AppView { runs, ..s }).refiltered().filtered
            &&& t == (AppView { runs, filtered: t.filtered, selected: t.selected, ..s })
            &&& (s.selected_run() is None || forall|j: int|
                0 <= j < t.filtered.len() ==> runs[#[trigger] t.filtered[j] as int].id
                    != s.selected_run().unwrap().id) ==> t.selected == (AppView {
                runs,
                ..s
            }).refiltered().selected
            &&& s.selected_run() is Some && 0 <= k < t.filtered.len()
                && runs[t.filtered[k] as int].id == s.selected_run().unwrap().id ==> {
                &&& t.selected <= k
                &&& runs[t.filtered[t.selected as int] as int].id == s.selected_run().unwrap().id
            }
        }),
{
    let shown = (AppView { runs, ..s }).refiltered().filtered;
    if let Some(m) = s.selected_run() {
        lemma_place(runs, shown, m.id);
        let at = place_of(runs, shown, m.id);
        if at < shown.len() {
            assert(runs[shown[at as int] as int].id == m.id);
        }
    }
}

proof fn lemma_place(runs: Seq<RunView>, shown: Seq<usize>, id: Seq<char>)
    ensures
        place_of(runs, shown, id) <= shown.len(),
        place_of(runs, shown, id) < shown.len() ==> runs[shown[place_of(runs, shown, id) as int] as int].id
            == id,
        forall|k: int|
            0 <= k < place_of(runs, shown, id) ==> runs[#[trigger] shown[k] as int].id != id,
    decreases shown.len(),
{
    if shown.len() > 0 && runs[shown[0] as int].id != id {
        let rest = shown.drop_first();
        lemma_place(runs, rest, id);
        assert forall|k: int| 0 <= k < place_of(runs, shown, id) implies runs[#[trigger] shown[k] as int].id
            != id by {
            if k > 0 {
                assert(rest[k - 1] == shown[k]);
            }
        }
    }
}

/// The program starts on the splash screen with an empty library, no filter
/// and no prompt.
pub proof fn law_start(root: Seq<u8>, user: Option<Seq<char>>)
    ensures
        ({
            let s = blank(root, user);
            &&& s.root == root && s.user == user
            &&& s.running
            &&& s.view == screen::View::Splash
            &&& s.mode == Mode::Normal
            &&& s.tick == 0
            &&& s.runs.len() == 0 && s.filter.len() == 0 && s.filtered.len() == 0 && s.input.len()
                == 0
            &&& s.hits.len() == 0 && s.content_query.len() == 0 && s.peers.len() == 0
            &&& s.selected == 0 && s.hit_selected == 0 && s.peer_selected == 0
            &&& s.status is None && s.viewer is None && s.peers_err is None && s.qr is None
            &&& s.pending_ssh is None && s.den is None
        }),
{
}

/// Ticks are counted one by one, round the end of the counter; the run that is
/// looked at is the one in the viewer.
pub proof fn law_counting_ticks(s: AppView, v: ViewerView)
    ensures
        s.tick < u64::MAX ==> s.ticked().0.tick == s.tick + 1,
        s.tick == u64::MAX ==> s.ticked().0.tick == 0,
        s.view == screen::View::Viewer && s.viewer == Some(v) && v.live ==> s.ticked().1
            == WantView::Poll(v.meta.id),
{
}

} // verus!
