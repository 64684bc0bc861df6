//! The state of the library on the screen, and what each key does to it.
//!
//! Nothing here reads a file or starts a process. Where a key needs that, its
//! handler returns what it wants; the program sees to it and hands the outcome
//! to the method that takes it.
use crate::fleet::{opt_text, peer_views, qr_of, qr_text, Peer, PeerView};
use crate::order::{arranged, in_rank, sorted, sorted_by, Ranked};
use crate::store::{
    copy_words, join_words, joined, now_ms, run_views, Known, RunMeta, RunState, RunView, Store,
};
use crate::text::{
    contains, fold_case, folded, has_text, lemma_texts_push, same, texts, trim, trimmed,
};
use crate::tui::den::{den_view, total_bytes, DenStats, DenView};
use crate::tui::keys::Key;
use crate::tui::screen;
use crate::tui::search::{add_hits, hit_views, run_hits, Hit, HitView, MAX_HITS};
use crate::tui::viewer::{
    at_most, known_view, log_view, minus, opened, search_status, Log, Viewer, ViewerView,
};
use vstd::prelude::*;

verus! {

/// What the input line is collecting, if anything.
#[derive(Clone, Copy, PartialEq, Eq, Structural, Debug)]
pub enum Mode {
    Normal,
    FilterInput,
    SearchInput,
    ViewerSearchInput,
    ConfirmDelete,
}

pub struct App {
    pub store: Store,
    /// Who logs in on the machines of the raft.
    pub user: Option<String>,
    pub running: bool,
    pub view: screen::View,
    pub mode: Mode,
    pub tick: u64,
    /// Newest first.
    pub runs: Vec<RunMeta>,
    pub filter: String,
    /// Indices into `runs` that pass the filter.
    pub filtered: Vec<usize>,
    pub selected: usize,
    pub input: String,
    pub status: Option<String>,
    pub hits: Vec<Hit>,
    pub hit_selected: usize,
    pub content_query: String,
    pub viewer: Option<Viewer>,
    /// The tailnet fleet.
    pub peers: Vec<Peer>,
    pub peer_selected: usize,
    pub peers_err: Option<String>,
    /// A QR overlay: its caption and its picture.
    pub qr: Option<(String, String)>,
    /// Whom to board: the program steps aside, runs the ssh session through a
    /// capture, and resumes.
    pub pending_ssh: Option<String>,
    pub den: Option<DenStats>,
}

/// The state as contracts speak of it.
#[verifier::ext_equal]
pub ghost struct AppView {
    pub root: Seq<u8>,
    pub user: Option<Seq<char>>,
    pub running: bool,
    pub view: screen::View,
    pub mode: Mode,
    pub tick: u64,
    pub runs: Seq<RunView>,
    pub filter: Seq<char>,
    pub filtered: Seq<usize>,
    pub selected: nat,
    pub input: Seq<char>,
    pub status: Option<Seq<char>>,
    pub hits: Seq<HitView>,
    pub hit_selected: nat,
    pub content_query: Seq<char>,
    pub viewer: Option<ViewerView>,
    pub peers: Seq<PeerView>,
    pub peer_selected: nat,
    pub peers_err: Option<Seq<char>>,
    pub qr: Option<(Seq<char>, Seq<char>)>,
    pub pending_ssh: Option<Seq<char>>,
    pub den: Option<DenView>,
}

pub open spec fn opt_viewer(v: Option<Viewer>) -> Option<ViewerView> {
    match v {
        Some(v) => Some(v@),
        None => None,
    }
}

pub open spec fn opt_pair(p: Option<(String, String)>) -> Option<(Seq<char>, Seq<char>)> {
    match p {
        Some(p) => Some((p.0@, p.1@)),
        None => None,
    }
}

pub open spec fn opt_den(d: Option<DenStats>) -> Option<DenView> {
    match d {
        Some(d) => Some(d@),
        None => None,
    }
}

impl View for App {
    type V = AppView;

    open spec fn view(&self) -> AppView {
        AppView {
            root: self.store.root(),
            user: opt_text(self.user),
            running: self.running,
            view: self.view,
            mode: self.mode,
            tick: self.tick,
            runs: run_views(self.runs@),
            filter: self.filter@,
            filtered: self.filtered@,
            selected: self.selected as nat,
            input: self.input@,
            status: opt_text(self.status),
            hits: hit_views(self.hits@),
            hit_selected: self.hit_selected as nat,
            content_query: self.content_query@,
            viewer: opt_viewer(self.viewer),
            peers: peer_views(self.peers@),
            peer_selected: self.peer_selected as nat,
            peers_err: opt_text(self.peers_err),
            qr: opt_pair(self.qr),
            pending_ssh: opt_text(self.pending_ssh),
            den: opt_den(self.den),
        }
    }
}

/// The arguments with which this program captures `cmd`, its words kept apart.
pub open spec fn rerun_words(cmd: Seq<Seq<char>>) -> Seq<Seq<char>> {
    seq!["run"@, "--"@] + cmd
}

/// The arguments with which this program captures `cmd`.
pub fn rerun_args(cmd: &Vec<String>) -> (res: Vec<String>)
    ensures
        texts(res@) == seq!["run"@, "--"@] + texts(cmd@),
{
    let mut out: Vec<String> = Vec::new();
    out.push("run".to_owned());
    out.push("--".to_owned());
    let mut i: usize = 0;
    assert(texts(out@) =~= seq!["run"@, "--"@] + texts(cmd@).take(0));
    while i < cmd.len()
        invariant
            i <= cmd@.len(),
            texts(out@) == seq!["run"@, "--"@] + texts(cmd@).take(i as int),
        decreases cmd@.len() - i,
    {
        let word = cmd[i].clone();
        proof {
            lemma_texts_push(out@, word);
            assert(texts(cmd@).take(i + 1) =~= texts(cmd@).take(i as int).push(word@));
        }
        out.push(word);
        i = i + 1;
    }
    assert(texts(cmd@).take(i as int) =~= texts(cmd@));
    out
}

/// The command that boards `target`, to be captured like any other.
pub fn board_args(target: &str) -> (res: Vec<String>)
    ensures
        texts(res@) == seq!["ssh"@, target@],
{
    let mut out: Vec<String> = Vec::new();
    out.push("ssh".to_owned());
    out.push(target.to_owned());
    assert(texts(out@) =~= seq!["ssh"@, target@]);
    out
}

/// What the program is to do after a key or a tick.
pub enum Want {
    Nothing,
    /// Read the library again and hand it to `reload`, or the error to
    /// `reload_failed`.
    Reload,
    /// Read the library again and hand it to `reload`; an error is let pass.
    Refresh,
    /// Read the log of a run and hand it to `open_viewer`.
    Open(Opening),
    /// Ask for the tailnet's machines and hand them to `open_raft`.
    AskRaft,
    /// Find out whether the selected run's process lives and hand it to
    /// `request_delete`.
    ProbeSelected,
    /// Hand the runs' logs to `search_log` for as long as `search_next` says
    /// so, then call `end_search`.
    Search,
    /// Start this very program with `args` in the directory `cwd`, detached,
    /// and hand the outcome to `rerun_started`, with `cmd`, or to
    /// `rerun_failed`.
    Rerun { args: Vec<String>, cmd: Vec<String>, cwd: String },
    /// Delete the run and hand the outcome to `deleted`.
    Delete { id: String },
    /// Look at the log and the record of the run and hand them to `poll`.
    Poll { id: String },
}

/// How a viewer is to be opened.
pub struct Opening {
    pub meta: RunMeta,
    pub jump_to: Option<usize>,
    pub query: Option<String>,
    pub from_results: bool,
}

pub ghost enum WantView {
    Nothing,
    Reload,
    Refresh,
    Open(OpeningView),
    AskRaft,
    ProbeSelected,
    Search,
    Rerun { args: Seq<Seq<char>>, cmd: Seq<Seq<char>>, cwd: Seq<char> },
    Delete(Seq<char>),
    Poll(Seq<char>),
}

pub ghost struct OpeningView {
    pub meta: RunView,
    pub jump_to: Option<usize>,
    pub query: Option<Seq<char>>,
    pub from_results: bool,
}

impl View for Want {
    type V = WantView;

    open spec fn view(&self) -> WantView {
        match *self {
            Want::Nothing => WantView::Nothing,
            Want::Reload => WantView::Reload,
            Want::Refresh => WantView::Refresh,
            Want::Open(o) => WantView::Open(
                OpeningView {
                    meta: o.meta@,
                    jump_to: o.jump_to,
                    query: opt_text(o.query),
                    from_results: o.from_results,
                },
            ),
            Want::AskRaft => WantView::AskRaft,
            Want::ProbeSelected => WantView::ProbeSelected,
            Want::Search => WantView::Search,
            Want::Rerun { args, cmd, cwd } => WantView::Rerun {
                args: texts(args@),
                cmd: texts(cmd@),
                cwd: cwd@,
            },
            Want::Delete { id } => WantView::Delete(id@),
            Want::Poll { id } => WantView::Poll(id@),
        }
    }
}

// ----------------------------------------------------------- the library --

/// A capture that is not in the index yet, with the size of its log where
/// that is known.
pub struct InFlight {
    pub meta: RunMeta,
    pub size: Option<u64>,
}

/// The library as it was read: the index, and the captures in flight.
pub struct Loaded {
    pub listed: Vec<RunMeta>,
    pub running: Vec<InFlight>,
}

/// A capture in flight shows how much it has printed so far.
pub open spec fn sized(f: InFlight) -> RunView {
    match f.size {
        Some(n) => RunView { bytes: n, ..f.meta@ },
        None => f.meta@,
    }
}

pub open spec fn loaded_runs(l: Loaded) -> Seq<RunView> {
    run_views(l.listed@) + l.running@.map_values(|f: InFlight| sized(f))
}

/// `out` is `inp`, the newest run first; runs of the same moment keep their
/// order.
pub open spec fn newest_first(out: Seq<RunView>, inp: Seq<RunView>) -> bool {
    sorted_by(out, inp, |a: RunView, b: RunView| a.started_ms > b.started_ms)
}

impl Ranked for RunMeta {
    open spec fn before(self, other: Self) -> bool {
        self.started_ms > other.started_ms
    }

    fn goes_before(&self, other: &Self) -> (res: bool) {
        self.started_ms > other.started_ms
    }

    proof fn weak_order(a: Self, b: Self, c: Self) {
    }
}

/// Whether a run passes the filter `needle`, which is in lower case: its
/// command or its directory mentions it.
pub open spec fn passes(m: RunView, needle: Seq<char>) -> bool {
    needle.len() == 0 || contains(folded(m.cmdline()), needle) || contains(
        folded(m.cwd),
        needle,
    )
}

/// The indices of the runs that pass the filter.
pub open spec fn passing(runs: Seq<RunView>, needle: Seq<char>) -> Seq<usize>
    decreases runs.len(),
{
    if runs.len() == 0 {
        seq![]
    } else {
        let rest = passing(runs.drop_last(), needle);
        if passes(runs.last(), needle) {
            rest.push((runs.len() - 1) as usize)
        } else {
            rest
        }
    }
}

/// Where the run named `id` stands among those shown; their number where it
/// does not.
pub open spec fn place_of(runs: Seq<RunView>, filtered: Seq<usize>, id: Seq<char>) -> nat
    decreases filtered.len(),
{
    if filtered.len() == 0 || runs[filtered[0] as int].id == id {
        0
    } else {
        1 + place_of(runs, filtered.drop_first(), id)
    }
}

/// A cursor in a list of `len` items: on one of them, or at the top of an
/// empty list.
pub open spec fn in_range(at: nat, len: nat) -> bool {
    at < len || (len == 0 && at == 0)
}

/// Where a key moves a cursor to in a list of `len` items.
pub open spec fn moved(key: Key, at: nat, len: nat) -> nat {
    if (key == Key::Char('j') || key == Key::Down) && len > 0 {
        at_most(at + 1, (len - 1) as nat)
    } else if key == Key::Char('k') || key == Key::Up {
        minus(at, 1)
    } else if key == Key::Char('g') {
        0
    } else if key == Key::Char('G') && len > 0 {
        (len - 1) as nat
    } else {
        at
    }
}

pub open spec fn leaves(key: Key) -> bool {
    key == Key::Char('q') || key == Key::Esc
}

impl AppView {
    /// What holds of every state: the list shows the runs that pass the
    /// filter, each cursor is on an item, and the viewer's matches are those
    /// of its query.
    pub open spec fn wf(self) -> bool {
        &&& self.filtered == passing(self.runs, folded(self.filter))
        &&& in_range(self.selected, self.filtered.len())
        &&& in_range(self.hit_selected, self.hits.len())
        &&& in_range(self.peer_selected, self.peers.len())
        &&& self.viewer matches Some(v) ==> v.wf()
        &&& self.runs.len() <= usize::MAX
        &&& forall|k: int|
            0 <= k < self.hits.len() ==> (#[trigger] self.hits[k]).line < usize::MAX
    }

    /// The run under the cursor.
    pub open spec fn selected_run(self) -> Option<RunView> {
        if self.selected < self.filtered.len() {
            Some(self.runs[self.filtered[self.selected as int] as int])
        } else {
            None
        }
    }

    /// With the list filtered anew and the cursor inside it.
    pub open spec fn refiltered(self) -> AppView {
        let shown = passing(self.runs, folded(self.filter));
        AppView {
            filtered: shown,
            selected: at_most(self.selected, minus(shown.len(), 1)),
            ..self
        }
    }

    pub open spec fn with_filter(self, filter: Seq<char>) -> AppView {
        AppView { filter, ..self }.refiltered()
    }

    pub open spec fn says(self, status: Seq<char>) -> AppView {
        AppView { status: Some(status), ..self }
    }

    /// With the library read again: the cursor stays on its run where that is
    /// still shown.
    pub open spec fn reloaded(self, runs: Seq<RunView>) -> AppView {
        let fresh = AppView { runs, ..self }.refiltered();
        match self.selected_run() {
            Some(m) => {
                let at = place_of(runs, fresh.filtered, m.id);
                AppView {
                    selected: if at < fresh.filtered.len() {
                        at
                    } else {
                        fresh.selected
                    },
                    ..fresh
                }
            },
            None => fresh,
        }
    }

    // ------------------------------------------------------------- keys --

    /// What a key does in the run list.
    pub open spec fn list_key(self, key: Key, now: u64) -> (AppView, WantView) {
        if key == Key::Esc && self.filter.len() > 0 {
            (self.with_filter(seq![]), WantView::Nothing)
        } else if leaves(key) {
            (AppView { running: false, ..self }, WantView::Nothing)
        } else if key == Key::Enter {
            match self.selected_run() {
                Some(meta) => (
                    self,
                    WantView::Open(
                        OpeningView { meta, jump_to: None, query: None, from_results: false },
                    ),
                ),
                None => (self, WantView::Nothing),
            }
        } else if key == Key::Char('/') {
            (AppView { input: self.filter, mode: Mode::FilterInput, ..self }, WantView::Nothing)
        } else if key == Key::Char('s') {
            (AppView { input: seq![], mode: Mode::SearchInput, ..self }, WantView::Nothing)
        } else if key == Key::Char('x') && self.filtered.len() > 0 {
            (self, WantView::ProbeSelected)
        } else if key == Key::Char('r') {
            (self, WantView::Reload)
        } else if key == Key::Char('R') {
            match self.selected_run() {
                Some(meta) => (
                    self,
                    WantView::Rerun { args: rerun_words(meta.cmd), cmd: meta.cmd, cwd: meta.cwd },
                ),
                None => (self, WantView::Nothing),
            }
        } else if key == Key::Char('t') {
            (self, WantView::AskRaft)
        } else if key == Key::Char('o') {
            (
                AppView { den: Some(den_view(now, self.runs)), view: screen::View::Den, ..self },
                WantView::Nothing,
            )
        } else {
            (
                AppView { selected: moved(key, self.selected, self.filtered.len()), ..self },
                WantView::Nothing,
            )
        }
    }

    /// What a key does in the search results.
    pub open spec fn results_key(self, key: Key) -> (AppView, WantView) {
        if leaves(key) {
            (AppView { view: screen::View::List, ..self }, WantView::Nothing)
        } else if key == Key::Enter {
            if self.hit_selected < self.hits.len() {
                let hit = self.hits[self.hit_selected as int];
                (
                    self,
                    WantView::Open(
                        OpeningView {
                            meta: hit.meta,
                            jump_to: Some(hit.line),
                            query: Some(self.content_query),
                            from_results: true,
                        },
                    ),
                )
            } else {
                (self, WantView::Nothing)
            }
        } else {
            (
                AppView { hit_selected: moved(key, self.hit_selected, self.hits.len()), ..self },
                WantView::Nothing,
            )
        }
    }

    /// What a key does in the viewer.
    pub open spec fn viewer_key(self, key: Key) -> AppView {
        match self.viewer {
            Some(v) => if leaves(key) {
                AppView {
                    view: if v.from_results {
                        screen::View::Results
                    } else {
                        screen::View::List
                    },
                    viewer: None,
                    ..self
                }
            } else if key == Key::Char('/') {
                AppView { input: v.query, mode: Mode::ViewerSearchInput, ..self }
            } else {
                AppView { viewer: Some(v.keyed(key)), ..self }
            },
            None => self,
        }
    }

    /// What a key does on the raft.
    pub open spec fn raft_key(self, key: Key) -> (AppView, WantView) {
        if leaves(key) {
            (AppView { view: screen::View::List, ..self }, WantView::Nothing)
        } else if key == Key::Char('r') {
            (self, WantView::AskRaft)
        } else if key == Key::Enter {
            (self.boarding(), WantView::Nothing)
        } else if key == Key::Char('p') {
            (self.phoning(), WantView::Nothing)
        } else {
            (
                AppView { peer_selected: moved(key, self.peer_selected, self.peers.len()), ..self },
                WantView::Nothing,
            )
        }
    }

    /// About to board the selected machine, where it is another one and online.
    pub open spec fn boarding(self) -> AppView {
        if self.peer_selected >= self.peers.len() {
            self
        } else {
            let peer = self.peers[self.peer_selected as int];
            if peer.is_self {
                self.says("that's this machine — you're already aboard"@)
            } else if !peer.online {
                self.says(peer.name + " is offline"@)
            } else {
                AppView { pending_ssh: Some(peer.target(self.user)), ..self }
            }
        }
    }

    /// Showing the QR code of the selected machine's address, for a phone.
    pub open spec fn phoning(self) -> AppView {
        if self.peer_selected >= self.peers.len() {
            self
        } else {
            let uri = self.peers[self.peer_selected as int].uri(self.user);
            match qr_of(uri) {
                Ok(picture) => AppView { qr: Some((uri, picture)), ..self },
                Err(e) => self.says("QR failed: "@ + e),
            }
        }
    }

    /// What a key does while no prompt is open.
    pub open spec fn normal_key(self, key: Key, now: u64) -> (AppView, WantView) {
        if self.view == screen::View::Splash {
            if leaves(key) {
                (AppView { running: false, ..self }, WantView::Nothing)
            } else {
                (AppView { view: screen::View::List, ..self }, WantView::Nothing)
            }
        } else if self.qr is Some {
            (AppView { qr: None, ..self }, WantView::Nothing)
        } else {
            match self.view {
                screen::View::List => self.list_key(key, now),
                screen::View::Results => self.results_key(key),
                screen::View::Viewer => (self.viewer_key(key), WantView::Nothing),
                screen::View::Raft => self.raft_key(key),
                _ => if leaves(key) || key == Key::Char('o') {
                    (AppView { view: screen::View::List, ..self }, WantView::Nothing)
                } else {
                    (self, WantView::Nothing)
                },
            }
        }
    }

    /// What a key does while a deletion waits to be confirmed.
    pub open spec fn confirm_key(self, key: Key) -> (AppView, WantView) {
        (
            AppView { mode: Mode::Normal, ..self },
            match self.selected_run() {
                Some(m) => if key == Key::Char('y') {
                    WantView::Delete(m.id)
                } else {
                    WantView::Nothing
                },
                None => WantView::Nothing,
            },
        )
    }

    /// With another input: the filter follows it as it is typed, the searches
    /// wait for Enter.
    pub open spec fn with_input(self, input: Seq<char>) -> AppView {
        let typed = AppView { input, ..self };
        if self.mode == Mode::FilterInput {
            typed.with_filter(input)
        } else {
            typed
        }
    }

    /// About to search all output, for what the input asks.
    pub open spec fn searching(self) -> (AppView, WantView) {
        let query = folded(trim(self.input));
        if query.len() == 0 {
            (self, WantView::Nothing)
        } else {
            (
                AppView { content_query: query, hits: seq![], hit_selected: 0, ..self },
                WantView::Search,
            )
        }
    }

    /// With the viewer searched for what the input asks.
    pub open spec fn viewer_searched(self) -> AppView {
        match self.viewer {
            Some(v) => {
                let next = v.searched(self.input);
                AppView {
                    viewer: Some(next),
                    status: if next.matches.len() > 0 {
                        self.status
                    } else {
                        Some(search_status(self.input))
                    },
                    ..self
                }
            },
            None => self,
        }
    }

    /// What a key does in a prompt.
    pub open spec fn input_key(self, key: Key) -> (AppView, WantView) {
        match key {
            Key::Esc => (
                AppView {
                    mode: Mode::Normal,
                    ..if self.mode == Mode::FilterInput {
                        self.with_filter(seq![])
                    } else {
                        self
                    }
                },
                WantView::Nothing,
            ),
            Key::Enter => {
                let done = AppView { mode: Mode::Normal, ..self };
                match self.mode {
                    Mode::SearchInput => done.searching(),
                    Mode::ViewerSearchInput => (done.viewer_searched(), WantView::Nothing),
                    _ => (done, WantView::Nothing),
                }
            },
            Key::Backspace => (
                self.with_input(
                    if self.input.len() > 0 {
                        self.input.drop_last()
                    } else {
                        self.input
                    },
                ),
                WantView::Nothing,
            ),
            Key::Char(c) => (self.with_input(self.input.push(c)), WantView::Nothing),
            _ => (self, WantView::Nothing),
        }
    }

    /// What a key does, at the time `now`. A message lasts until the next key.
    pub open spec fn keyed(self, key: Key, now: u64) -> (AppView, WantView) {
        let quiet = AppView { status: None, ..self };
        match self.mode {
            Mode::Normal => quiet.normal_key(key, now),
            Mode::ConfirmDelete => quiet.confirm_key(key),
            _ => quiet.input_key(key),
        }
    }

    /// Whether a key opens the den, which adds up what the runs printed.
    pub open spec fn opens_den(self, key: Key) -> bool {
        self.mode == Mode::Normal && self.view == screen::View::List && self.qr is None && key
            == Key::Char('o')
    }

    // --------------------------------------------------------- outcomes --

    /// With the log of a run in the viewer, or why it could not be read.
    pub open spec fn viewing(self, v: Result<ViewerView, Seq<char>>) -> AppView {
        match v {
            Ok(v) => AppView { viewer: Some(v), view: screen::View::Viewer, ..self },
            Err(e) => self.says("can't read output: "@ + e),
        }
    }

    /// On the raft, with the machines that were found or why none were.
    pub open spec fn rafting(self, found: Result<Seq<PeerView>, Seq<char>>) -> AppView {
        let peers = match found {
            Ok(ps) => ps,
            Err(_) => seq![],
        };
        AppView {
            peers,
            peers_err: match found {
                Ok(_) => None,
                Err(e) => Some(e),
            },
            peer_selected: at_most(self.peer_selected, minus(peers.len(), 1)),
            view: screen::View::Raft,
            ..self
        }
    }

    /// Asked to delete the selected run: one that is still going is not.
    pub open spec fn delete_requested(self, alive: bool) -> AppView {
        match self.selected_run() {
            Some(m) => if m.state(alive) == RunState::Running {
                self.says("that run is still going — can't delete it"@)
            } else {
                AppView { mode: Mode::ConfirmDelete, ..self }
            },
            None => self,
        }
    }

    /// With the hits in the log of one more run.
    pub open spec fn with_hits(self, at: int, log: Option<Seq<u8>>) -> AppView {
        AppView {
            hits: self.hits + run_hits(self.runs[at], log, self.content_query),
            ..self
        }
    }

    /// With the search done.
    pub open spec fn search_ended(self) -> AppView {
        let done = AppView { hit_selected: 0, ..self };
        if self.hits.len() == 0 {
            done.says("no runs mention '"@ + self.content_query + "'"@)
        } else {
            AppView { view: screen::View::Results, ..done }
        }
    }

    // ------------------------------------------------------------- time --

    /// A tick later. The list is read again once a second while it is shown
    /// and no prompt is open; a live run in the viewer is looked at.
    pub open spec fn ticked(self) -> (AppView, WantView) {
        let tick = if self.tick == u64::MAX {
            0
        } else {
            (self.tick + 1) as u64
        };
        (
            AppView { tick, ..self },
            if self.view == screen::View::List && self.mode == Mode::Normal && tick % 10 == 0 {
                WantView::Refresh
            } else {
                match self.viewer {
                    Some(v) => if self.view == screen::View::Viewer && v.live {
                        WantView::Poll(v.meta.id)
                    } else {
                        WantView::Nothing
                    },
                    None => WantView::Nothing,
                }
            },
        )
    }
}

// ------------------------------------------------------------ execution --

/// The indices that pass a filter are indices.
pub proof fn lemma_passing(runs: Seq<RunView>, needle: Seq<char>)
    requires
        runs.len() <= usize::MAX,
    ensures
        passing(runs, needle).len() <= runs.len(),
        forall|k: int|
            0 <= k < passing(runs, needle).len() ==> #[trigger] passing(runs, needle)[k]
                < runs.len(),
    decreases runs.len(),
{
    if runs.len() > 0 {
        let part = runs.drop_last();
        lemma_passing(part, needle);
        assert forall|k: int| 0 <= k < passing(runs, needle).len() implies #[trigger] passing(
            runs,
            needle,
        )[k] < runs.len() by {
            if k < passing(part, needle).len() {
                assert(passing(runs, needle)[k] == passing(part, needle)[k]);
            }
        }
    }
}

/// The runs of a library, newest first.
fn load(loaded: Loaded) -> (res: Vec<RunMeta>)
    ensures
        newest_first(run_views(res@), loaded_runs(loaded)),
{
    let Loaded { listed, running } = loaded;
    let mut runs: Vec<RunMeta> = listed;
    let ghost base = run_views(listed@);
    let ghost live = running@.map_values(|f: InFlight| sized(f));
    let mut i: usize = 0;
    proof {
        assert(run_views(runs@) =~= base + live.take(0));
    }
    while i < running.len()
        invariant
            i <= running@.len(),
            live == running@.map_values(|f: InFlight| sized(f)),
            run_views(runs@) == base + live.take(i as int),
        decreases running@.len() - i,
    {
        let mut meta = running[i].meta.clone();
        if let Some(n) = running[i].size {
            meta.bytes = n;
        }
        proof {
            assert(meta@ == live[i as int]);
            assert(run_views(runs@.push(meta)) =~= run_views(runs@).push(meta@));
            assert(base + live.take(i + 1) =~= (base + live.take(i as int)).push(live[i as int]));
        }
        runs.push(meta);
        i = i + 1;
    }
    proof {
        assert(live.take(i as int) =~= live);
    }
    let ghost inp = runs@;
    let res = sorted(runs);
    proof {
        let order = choose|order: Seq<int>| #[trigger]
            arranged(res@, inp, order) && in_rank(
                res@,
                order,
                |a: RunMeta, b: RunMeta| a.before(b),
            );
        assert(arranged(run_views(res@), run_views(inp), order));
        assert(in_rank(
            run_views(res@),
            order,
            |a: RunView, b: RunView| a.started_ms > b.started_ms,
        ));
    }
    res
}

fn run_passes(m: &RunMeta, needle: &str) -> (res: bool)
    ensures
        res == passes(m@, needle@),
{
    needle.is_empty() || has_text(fold_case(m.cmdline().as_str()).as_str(), needle) || has_text(
        fold_case(m.cwd.as_str()).as_str(),
        needle,
    )
}

/// Where a key moves a cursor to.
fn move_cursor(key: Key, at: usize, len: usize) -> (res: usize)
    ensures
        res == moved(key, at as nat, len as nat),
{
    match key {
        Key::Char('j') | Key::Down => if len == 0 {
            at
        } else if at < len - 1 {
            at + 1
        } else {
            len - 1
        },
        Key::Char('k') | Key::Up => at.saturating_sub(1),
        Key::Char('g') => 0,
        Key::Char('G') => if len == 0 {
            at
        } else {
            len - 1
        },
        _ => at,
    }
}

/// A cursor kept inside a list of `len` items.
fn clamp(at: usize, len: usize) -> (res: usize)
    ensures
        res == at_most(at as nat, minus(len as nat, 1)),
{
    let last: usize = len.saturating_sub(1);
    if at < last {
        at
    } else {
        last
    }
}

/// The state before the library was read.
pub open spec fn blank(root: Seq<u8>, user: Option<Seq<char>>) -> AppView {
    AppView {
        root,
        user,
        running: true,
        view: screen::View::Splash,
        mode: Mode::Normal,
        tick: 0,
        runs: seq![],
        filter: seq![],
        filtered: seq![],
        selected: 0,
        input: seq![],
        status: None,
        hits: seq![],
        hit_selected: 0,
        content_query: seq![],
        viewer: None,
        peers: seq![],
        peer_selected: 0,
        peers_err: None,
        qr: None,
        pending_ssh: None,
        den: None,
    }
}

impl App {
    /// The library on the splash screen, as it was read.
    pub fn new(store: Store, user: Option<String>, loaded: Loaded) -> (res: App)
        ensures
            newest_first(res@.runs, loaded_runs(loaded)),
            res@ == blank(store.root(), opt_text(user)).reloaded(res@.runs),
            res@.wf(),
    {
        let mut app = App {
            store,
            user,
            running: true,
            view: screen::View::Splash,
            mode: Mode::Normal,
            tick: 0,
            runs: Vec::new(),
            filter: String::new(),
            filtered: Vec::new(),
            selected: 0,
            input: String::new(),
            status: None,
            hits: Vec::new(),
            hit_selected: 0,
            content_query: String::new(),
            viewer: None,
            peers: Vec::new(),
            peer_selected: 0,
            peers_err: None,
            qr: None,
            pending_ssh: None,
            den: None,
        };
        proof {
            assert(app@.runs =~= seq![]);
            assert(app@.hits =~= seq![]);
            assert(app@.peers =~= seq![]);
            assert(app@ =~= blank(store.root(), opt_text(user)));
        }
        app.reload(loaded);
        app
    }

    /// Hands out whom to board, once.
    pub fn take_pending_ssh(&mut self) -> (res: Option<String>)
        ensures
            opt_text(res) == old(self)@.pending_ssh,
            final(self)@ == (AppView { pending_ssh: None, ..old(self)@ }),
    {
        self.pending_ssh.take()
    }

    /// Shows the runs that pass the filter.
    pub fn apply_filter(&mut self)
        ensures
            final(self)@ == old(self)@.refiltered(),
    {
        let needle = fold_case(self.filter.as_str());
        let ghost all = run_views(self.runs@);
        let mut out: Vec<usize> = Vec::new();
        let mut i: usize = 0;
        while i < self.runs.len()
            invariant
                i <= self.runs@.len(),
                all == run_views(self.runs@),
                *self == *old(self),
                out@ == passing(all.take(i as int), needle@),
            decreases self.runs@.len() - i,
        {
            proof {
                assert(all.take(i + 1).drop_last() =~= all.take(i as int));
                assert(all.take(i + 1).last() == self.runs@[i as int]@);
            }
            if run_passes(&self.runs[i], needle.as_str()) {
                out.push(i);
            }
            i = i + 1;
        }
        assert(all.take(i as int) =~= all);
        self.selected = clamp(self.selected, out.len());
        self.filtered = out;
    }

    /// The run under the cursor.
    pub fn selected_meta(&self) -> (res: Option<&RunMeta>)
        requires
            self@.wf(),
        ensures
            match res {
                Some(m) => self@.selected_run() == Some(m@),
                None => self@.selected_run() is None,
            },
    {
        proof {
            lemma_passing(self@.runs, folded(self@.filter));
        }
        if self.selected < self.filtered.len() {
            Some(&self.runs[self.filtered[self.selected]])
        } else {
            None
        }
    }

    /// Where the run named `id` stands among those shown.
    fn find_shown(&self, id: &str) -> (at: usize)
        requires
            self@.filtered == passing(self@.runs, folded(self@.filter)),
            self@.runs.len() <= usize::MAX,
        ensures
            at == place_of(self@.runs, self@.filtered, id@),
            at <= self@.filtered.len(),
    {
        proof {
            lemma_passing(self@.runs, folded(self@.filter));
        }
        let ghost runs = self@.runs;
        let ghost shown = self.filtered@;
        assert(shown.skip(0) =~= shown);
        let mut i: usize = 0;
        while i < self.filtered.len()
            invariant
                i <= self.filtered@.len(),
                shown == self.filtered@,
                runs == run_views(self.runs@),
                forall|k: int| 0 <= k < shown.len() ==> #[trigger] shown[k] < runs.len(),
                place_of(runs, shown, id@) == i + place_of(runs, shown.skip(i as int), id@),
            decreases self.filtered@.len() - i,
        {
            assert(shown.skip(i as int)[0] == shown[i as int]);
            assert(shown[i as int] < runs.len());
            if same(self.runs[self.filtered[i]].id.as_str(), id) {
                return i;
            }
            assert(shown.skip(i as int).drop_first() =~= shown.skip(i + 1));
            i = i + 1;
        }
        i
    }

    /// Takes the library as it was read. The cursor stays on the run it was
    /// on, where that is still shown.
    pub fn reload(&mut self, loaded: Loaded)
        requires
            old(self)@.wf(),
        ensures
            newest_first(final(self)@.runs, loaded_runs(loaded)),
            final(self)@ == old(self)@.reloaded(final(self)@.runs),
            final(self)@.wf(),
    {
        let keep: Option<String> = match self.selected_meta() {
            Some(m) => Some(m.id.clone()),
            None => None,
        };
        let runs = load(loaded);
        let count: usize = runs.len();
        self.runs = runs;
        self.apply_filter();
        if let Some(id) = keep {
            let at: usize = self.find_shown(id.as_str());
            if at < self.filtered.len() {
                self.selected = at;
            }
        }
    }

    /// Says why the library could not be read.
    pub fn reload_failed(&mut self, why: &str)
        ensures
            final(self)@ == old(self)@.says("reload failed: "@ + why@),
    {
        let mut msg = "reload failed: ".to_owned();
        msg.push_str(why);
        self.status = Some(msg);
    }
}

impl App {
    /// Whether a key opens the den.
    pub fn opens_den(&self, key: Key) -> (res: bool)
        ensures
            res == self@.opens_den(key),
    {
        self.mode == Mode::Normal && self.view == screen::View::List && self.qr.is_none() && key
            == Key::Char('o')
    }

    /// Handles a key. The one that opens the den needs what the runs printed
    /// to add up: `DenStats::fits` tells.
    pub fn on_key(&mut self, key: Key) -> (res: Want)
        requires
            old(self)@.wf(),
            old(self)@.opens_den(key) ==> total_bytes(old(self)@.runs) <= u64::MAX,
        ensures
            exists|now: u64|
                (final(self)@, res@) == #[trigger] old(self)@.keyed(key, now),
            final(self)@.wf(),
    {
        let now: u64 = now_ms();
        self.on_key_at(key, now)
    }

    /// Handles a key at the time `now`.
    pub fn on_key_at(&mut self, key: Key, now: u64) -> (res: Want)
        requires
            old(self)@.wf(),
            old(self)@.opens_den(key) ==> total_bytes(old(self)@.runs) <= u64::MAX,
        ensures
            (final(self)@, res@) == old(self)@.keyed(key, now),
            final(self)@.wf(),
    {
        self.status = None;  // any key clears a message
        match self.mode {
            Mode::Normal => self.on_key_normal(key, now),
            Mode::ConfirmDelete => self.on_key_confirm(key),
            _ => self.on_key_input(key),
        }
    }

    fn on_key_normal(&mut self, key: Key, now: u64) -> (res: Want)
        requires
            old(self)@.wf(),
            old(self)@.mode == Mode::Normal,
            old(self)@.opens_den(key) ==> total_bytes(old(self)@.runs) <= u64::MAX,
        ensures
            (final(self)@, res@) == old(self)@.normal_key(key, now),
            final(self)@.wf(),
    {
        if self.view == screen::View::Splash {
            match key {
                Key::Char('q') | Key::Esc => {
                    self.running = false;
                },
                _ => {
                    self.view = screen::View::List;
                },
            }
            return Want::Nothing;
        }
        // An open QR overlay swallows the next key and closes.
        if self.qr.is_some() {
            self.qr = None;
            return Want::Nothing;
        }
        match self.view {
            screen::View::List => self.on_key_list(key, now),
            screen::View::Results => self.on_key_results(key),
            screen::View::Viewer => {
                self.on_key_viewer(key);
                Want::Nothing
            },
            screen::View::Raft => self.on_key_raft(key),
            _ => {
                match key {
                    Key::Char('q') | Key::Esc | Key::Char('o') => {
                        self.view = screen::View::List;
                    },
                    _ => {},
                }
                Want::Nothing
            },
        }
    }

    fn on_key_list(&mut self, key: Key, now: u64) -> (res: Want)
        requires
            old(self)@.wf(),
            key == Key::Char('o') ==> total_bytes(old(self)@.runs) <= u64::MAX,
        ensures
            (final(self)@, res@) == old(self)@.list_key(key, now),
            final(self)@.wf(),
    {
        match key {
            Key::Char('q') | Key::Esc => {
                // Esc clears an active filter before it quits.
                if key == Key::Esc && !self.filter.as_str().is_empty() {
                    self.filter = String::new();
                    self.apply_filter();
                } else {
                    self.running = false;
                }
            },
            Key::Enter => {
                if let Some(m) = self.selected_meta() {
                    return Want::Open(
                        Opening {
                            meta: m.clone(),
                            jump_to: None,
                            query: None,
                            from_results: false,
                        },
                    );
                }
            },
            Key::Char('/') => {
                self.input = self.filter.clone();
                self.mode = Mode::FilterInput;
            },
            Key::Char('s') => {
                self.input = String::new();
                self.mode = Mode::SearchInput;
            },
            Key::Char('x') => {
                if self.filtered.len() > 0 {
                    return Want::ProbeSelected;
                }
            },
            Key::Char('r') => {
                return Want::Reload;
            },
            Key::Char('R') => {
                if let Some(m) = self.selected_meta() {
                    return Want::Rerun {
                        args: rerun_args(&m.cmd),
                        cmd: copy_words(&m.cmd),
                        cwd: m.cwd.clone(),
                    };
                }
            },
            Key::Char('t') => {
                return Want::AskRaft;
            },
            Key::Char('o') => {
                self.den = Some(DenStats::compute_at(now, self.runs.as_slice()));
                self.view = screen::View::Den;
            },
            _ => {
                self.selected = move_cursor(key, self.selected, self.filtered.len());
            },
        }
        Want::Nothing
    }

    fn on_key_results(&mut self, key: Key) -> (res: Want)
        requires
            old(self)@.wf(),
        ensures
            (final(self)@, res@) == old(self)@.results_key(key),
            final(self)@.wf(),
    {
        match key {
            Key::Char('q') | Key::Esc => {
                self.view = screen::View::List;
            },
            Key::Enter => {
                if self.hit_selected < self.hits.len() {
                    let hit = &self.hits[self.hit_selected];
                    return Want::Open(
                        Opening {
                            meta: hit.meta.clone(),
                            jump_to: Some(hit.line),
                            query: Some(self.content_query.clone()),
                            from_results: true,
                        },
                    );
                }
            },
            _ => {
                self.hit_selected = move_cursor(key, self.hit_selected, self.hits.len());
            },
        }
        Want::Nothing
    }

    fn on_key_viewer(&mut self, key: Key)
        requires
            old(self)@.wf(),
        ensures
            final(self)@ == old(self)@.viewer_key(key),
            final(self)@.wf(),
    {
        let held = self.viewer.take();
        if let Some(mut v) = held {
            match key {
                Key::Char('q') | Key::Esc => {
                    self.view = if v.from_results {
                        screen::View::Results
                    } else {
                        screen::View::List
                    };
                    return;
                },
                Key::Char('/') => {
                    self.input = v.query.clone();
                    self.mode = Mode::ViewerSearchInput;
                },
                _ => {
                    v.on_key(key);
                },
            }
            self.viewer = Some(v);
        }
    }

    fn on_key_raft(&mut self, key: Key) -> (res: Want)
        requires
            old(self)@.wf(),
        ensures
            (final(self)@, res@) == old(self)@.raft_key(key),
            final(self)@.wf(),
    {
        match key {
            Key::Char('q') | Key::Esc => {
                self.view = screen::View::List;
            },
            Key::Char('r') => {
                return Want::AskRaft;
            },
            Key::Enter => {
                if self.peer_selected < self.peers.len() {
                    let peer = &self.peers[self.peer_selected];
                    if peer.is_self {
                        self.status = Some(
                            "that's this machine — you're already aboard".to_owned(),
                        );
                    } else if !peer.online {
                        let mut msg = peer.name.clone();
                        msg.push_str(" is offline");
                        self.status = Some(msg);
                    } else {
                        self.pending_ssh = Some(peer.ssh_target(&self.user));
                    }
                }
            },
            // For a phone: the ssh URI as a QR code, so that a phone terminal
            // boards the same machine by pointing a camera at the screen.
            Key::Char('p') => {
                if self.peer_selected < self.peers.len() {
                    let uri = self.peers[self.peer_selected].ssh_uri(&self.user);
                    match qr_text(uri.as_str()) {
                        Ok(picture) => {
                            self.qr = Some((uri, picture));
                        },
                        Err(e) => {
                            let mut msg = "QR failed: ".to_owned();
                            msg.push_str(e.as_str());
                            self.status = Some(msg);
                        },
                    }
                }
            },
            _ => {
                self.peer_selected = move_cursor(key, self.peer_selected, self.peers.len());
            },
        }
        Want::Nothing
    }

    fn on_key_confirm(&mut self, key: Key) -> (res: Want)
        requires
            old(self)@.wf(),
        ensures
            (final(self)@, res@) == old(self)@.confirm_key(key),
            final(self)@.wf(),
    {
        self.mode = Mode::Normal;
        if key == Key::Char('y') {
            if let Some(m) = self.selected_meta() {
                return Want::Delete { id: m.id.clone() };
            }
        }
        Want::Nothing
    }

    /// Text input, for the three prompts.
    fn on_key_input(&mut self, key: Key) -> (res: Want)
        requires
            old(self)@.wf(),
        ensures
            (final(self)@, res@) == old(self)@.input_key(key),
            final(self)@.wf(),
    {
        match key {
            Key::Esc => {
                if self.mode == Mode::FilterInput {
                    self.filter = String::new();
                    self.apply_filter();
                }
                self.mode = Mode::Normal;
                Want::Nothing
            },
            Key::Enter => {
                let mode = self.mode;
                self.mode = Mode::Normal;
                match mode {
                    Mode::SearchInput => self.begin_search(),
                    Mode::ViewerSearchInput => {
                        self.search_viewer();
                        Want::Nothing
                    },
                    _ => Want::Nothing,  // the filter is applied already
                }
            },
            Key::Backspace => {
                self.input.pop();
                self.sync_incremental();
                Want::Nothing
            },
            Key::Char(c) => {
                self.input.push(c);
                self.sync_incremental();
                Want::Nothing
            },
            _ => Want::Nothing,
        }
    }

    /// Filtering is live as you type; the searches commit on Enter.
    fn sync_incremental(&mut self)
        requires
            old(self)@.wf(),
        ensures
            final(self)@ == old(self)@.with_input(old(self)@.input),
            final(self)@.wf(),
    {
        if self.mode == Mode::FilterInput {
            self.filter = self.input.clone();
            self.apply_filter();
        }
    }

    /// Takes the query of a search over all output.
    fn begin_search(&mut self) -> (res: Want)
        requires
            old(self)@.wf(),
        ensures
            (final(self)@, res@) == old(self)@.searching(),
            final(self)@.wf(),
    {
        let query = fold_case(trimmed(self.input.as_str()).as_str());
        if query.as_str().is_empty() {
            return Want::Nothing;
        }
        self.content_query = query;
        self.hits = Vec::new();
        self.hit_selected = 0;
        assert(self@.hits =~= seq![]);
        Want::Search
    }

    fn search_viewer(&mut self)
        requires
            old(self)@.wf(),
        ensures
            final(self)@ == old(self)@.viewer_searched(),
            final(self)@.wf(),
    {
        let held = self.viewer.take();
        if let Some(mut v) = held {
            let msg = v.search(self.input.as_str());
            if msg.is_some() {
                self.status = msg;
            }
            self.viewer = Some(v);
        }
    }
}

/// Machines that were asked for, as `rafting` takes them.
pub open spec fn found_view(found: Result<Vec<Peer>, String>) -> Result<
    Seq<PeerView>,
    Seq<char>,
> {
    match found {
        Ok(ps) => Ok(peer_views(ps@)),
        Err(e) => Err(e@),
    }
}

/// The log of a run, as `with_hits` takes it.
pub open spec fn opt_bytes(log: Option<Vec<u8>>) -> Option<Seq<u8>> {
    match log {
        Some(bytes) => Some(bytes@),
        None => None,
    }
}

/// `s` followed by why something failed.
fn failure(what: &str, why: &str) -> (res: String)
    ensures
        res@ == what@ + why@,
{
    let mut msg = what.to_owned();
    msg.push_str(why);
    msg
}

impl App {
    /// Opens the viewer on a run whose log was read, or says why it was not.
    /// `alive` is whether the process of the run's record lives.
    pub fn open_viewer(
        &mut self,
        meta: RunMeta,
        alive: bool,
        jump_to: Option<usize>,
        query: Option<&str>,
        from_results: bool,
        log: Result<Log, String>,
    )
        requires
            old(self)@.wf(),
        ensures
            final(self)@ == old(self)@.viewing(
                match log {
                    Ok(log) => Ok(
                        opened(
                            meta@,
                            alive,
                            jump_to,
                            match query {
                                Some(q) => Some(q@),
                                None => None,
                            },
                            from_results,
                            log.bytes@,
                            log.truncated,
                            log.size,
                        ),
                    ),
                    Err(e) => Err(e@),
                },
            ),
            final(self)@.wf(),
    {
        match log {
            Ok(log) => {
                self.viewer = Some(Viewer::open(meta, alive, jump_to, query, from_results, log));
                self.view = screen::View::Viewer;
            },
            Err(e) => {
                self.status = Some(failure("can't read output: ", e.as_str()));
            },
        }
    }

    /// Shows the raft with the machines that were found, or why none were.
    pub fn open_raft(&mut self, found: Result<Vec<Peer>, String>)
        requires
            old(self)@.wf(),
        ensures
            final(self)@ == old(self)@.rafting(found_view(found)),
            final(self)@.wf(),
    {
        match found {
            Ok(peers) => {
                self.peers = peers;
                self.peers_err = None;
            },
            Err(e) => {
                self.peers = Vec::new();
                self.peers_err = Some(e);
                assert(self@.peers =~= seq![]);
            },
        }
        self.peer_selected = clamp(self.peer_selected, self.peers.len());
        self.view = screen::View::Raft;
    }

    /// Asks to confirm that the selected run be deleted, unless it is still
    /// going; `alive` is whether its process lives.
    pub fn request_delete(&mut self, alive: bool)
        requires
            old(self)@.wf(),
        ensures
            final(self)@ == old(self)@.delete_requested(alive),
            final(self)@.wf(),
    {
        let going = match self.selected_meta() {
            Some(m) => m.state(alive) == RunState::Running,
            None => {
                return;
            },
        };
        if going {
            self.status = Some("that run is still going — can't delete it".to_owned());
        } else {
            self.mode = Mode::ConfirmDelete;
        }
    }

    /// Takes the outcome of a deletion and the library as it is then, where it
    /// could be read.
    pub fn deleted(&mut self, outcome: Result<(), String>, loaded: Option<Loaded>)
        requires
            old(self)@.wf(),
        ensures
            ({
                let told = old(self)@.says(
                    match outcome {
                        Ok(_) => "run deleted"@,
                        Err(e) => "delete failed: "@ + e@,
                    },
                );
                match loaded {
                    Some(l) => newest_first(final(self)@.runs, loaded_runs(l)) && final(self)@
                        == told.reloaded(final(self)@.runs),
                    None => final(self)@ == told,
                }
            }),
            final(self)@.wf(),
    {
        self.status = Some(
            match outcome {
                Ok(_) => "run deleted".to_owned(),
                Err(e) => failure("delete failed: ", e.as_str()),
            },
        );
        if let Some(l) = loaded {
            self.reload(l);
        }
    }

    /// Takes the news that a command was started anew, and the library as it
    /// is then, where it could be read. The new run sorts to the top, and the
    /// cursor goes there.
    pub fn rerun_started(&mut self, cmd: &Vec<String>, loaded: Option<Loaded>)
        requires
            old(self)@.wf(),
        ensures
            ({
                let told = old(self)@.says("re-running: "@ + joined(texts(cmd@), " "@));
                match loaded {
                    Some(l) => newest_first(final(self)@.runs, loaded_runs(l)) && final(self)@ == (
                    AppView { selected: 0, ..told.reloaded(final(self)@.runs) }),
                    None => final(self)@ == (AppView { selected: 0, ..told }),
                }
            }),
            final(self)@.wf(),
    {
        self.status = Some(failure("re-running: ", join_words(cmd, " ").as_str()));
        if let Some(l) = loaded {
            self.reload(l);
        }
        self.selected = 0;
    }

    /// Says why a command was not started anew; none where the program could
    /// not find itself.
    pub fn rerun_failed(&mut self, why: Option<&str>)
        ensures
            final(self)@ == old(self)@.says(
                match why {
                    Some(e) => "re-run failed: "@ + e@,
                    None => "can't locate the otterm binary"@,
                },
            ),
    {
        self.status = Some(
            match why {
                Some(e) => failure("re-run failed: ", e),
                None => "can't locate the otterm binary".to_owned(),
            },
        );
    }

    /// Whether the search goes on with the log of the run at `at`.
    pub fn search_next(&self, at: usize) -> (res: bool)
        ensures
            res == (at < self@.runs.len() && self@.hits.len() < MAX_HITS),
    {
        at < self.runs.len() && self.hits.len() < MAX_HITS
    }

    /// Takes the log of the run at `at`; none where it could not be read.
    pub fn search_log(&mut self, at: usize, log: Option<Vec<u8>>)
        requires
            old(self)@.wf(),
            at < old(self)@.runs.len(),
        ensures
            final(self)@ == old(self)@.with_hits(at as int, opt_bytes(log)),
            final(self)@.wf(),
    {
        if let Some(bytes) = log {
            add_hits(&mut self.hits, &self.runs[at], bytes, self.content_query.as_str());
        }
        proof {
            let had = old(self)@.hits;
            assert(self@.hits =~= old(self)@.with_hits(at as int, opt_bytes(log)).hits);
            assert forall|k: int| 0 <= k < self@.hits.len() implies (#[trigger] self@.hits[k]).line
                < usize::MAX by {
                if k < had.len() {
                    assert(self@.hits[k] == had[k]);
                } else {
                    assert(self.hits@[k].line < usize::MAX);
                }
            }
        }
    }

    /// Shows the hits, or says that there are none.
    pub fn end_search(&mut self)
        requires
            old(self)@.wf(),
        ensures
            final(self)@ == old(self)@.search_ended(),
            final(self)@.wf(),
    {
        self.hit_selected = 0;
        if self.hits.len() == 0 {
            let mut msg = failure("no runs mention '", self.content_query.as_str());
            msg.push_str("'");
            self.status = Some(msg);
        } else {
            self.view = screen::View::Results;
        }
    }

    /// Counts a tick.
    pub fn on_tick(&mut self) -> (res: Want)
        requires
            old(self)@.wf(),
        ensures
            (final(self)@, res@) == old(self)@.ticked(),
            final(self)@.wf(),
    {
        self.tick = self.tick.wrapping_add(1);
        // The list stays fresh on its own: new captures appear, spinners
        // spin, completed runs settle, once a second.
        if self.view == screen::View::List && self.mode == Mode::Normal && self.tick % 10 == 0 {
            return Want::Refresh;
        }
        if self.view == screen::View::Viewer {
            if let Some(v) = &self.viewer {
                if v.live {
                    return Want::Poll { id: v.meta.id.clone() };
                }
            }
        }
        Want::Nothing
    }

    /// Takes the size of the log in the viewer, the log where it was needed
    /// and could be read, and the record where it was needed and is there.
    pub fn poll(&mut self, size: u64, log: Option<(Vec<u8>, bool)>, meta: Option<Known>)
        requires
            old(self)@.wf(),
        ensures
            final(self)@ == (AppView {
                viewer: match old(self)@.viewer {
                    Some(v) => Some(
                        v.polled(old(self)@.tick, size, log_view(log), known_view(meta)),
                    ),
                    None => None,
                },
                ..old(self)@
            }),
            final(self)@.wf(),
    {
        let held = self.viewer.take();
        if let Some(mut v) = held {
            v.poll(self.tick, size, log, meta);
            self.viewer = Some(v);
        }
    }
}

} // verus!
