//! What the screen says: the texts and marks of every view, ready to be drawn.
use crate::banner;
use crate::capture::{bytes_text, human_bytes};
use crate::store::{RunMeta, RunState, RunView};
use crate::text::{
    chars_of, decimal, folded, lines, lines_of, push_decimal, push_signed, signed_decimal, text_of,
    texts,
};
use crate::tui::app::{lemma_passing, App, AppView, Mode};
use crate::tui::clock::{age_at, age_text, duration, duration_text};
use crate::tui::screen;
use crate::tui::search::{Hit, HitView};
use crate::tui::viewer::{at_most, minus, overlay_of, Viewer, ViewerView, Window};
use vstd::prelude::*;
use vstd::utf8::encode_utf8;

verus! {

// --------------------------------------------------------------- splash --

/// The rows of a drawing, which starts on the line after its opening quote.
pub fn art_rows(art: &str) -> (res: Vec<String>)
    ensures
        texts(res@) == lines(art@).skip(
            if lines(art@).len() > 0 {
                1
            } else {
                0
            },
        ),
{
    let all = lines_of(art);
    let mut out: Vec<String> = Vec::new();
    let mut i: usize = 1;
    while i < all.len()
        invariant
            1 <= i,
            i <= all@.len() || (i == 1 && all@.len() == 0),
            out@.len() == i - 1,
            forall|k: int| 0 <= k < i - 1 ==> (#[trigger] out@[k])@ == all@[k + 1]@,
        decreases all@.len() - i,
    {
        out.push(all[i].clone());
        i = i + 1;
    }
    assert(texts(out@) =~= texts(all@).skip(
        if all@.len() > 0 {
            1
        } else {
            0
        },
    ));
    out
}

/// How wide the widest of `rows` is, in bytes.
pub open spec fn widest(rows: Seq<Seq<char>>) -> nat
    decreases rows.len(),
{
    if rows.len() == 0 {
        0
    } else {
        let rest = widest(rows.drop_last());
        let last = encode_utf8(rows.last()).len();
        if rest < last {
            last
        } else {
            rest
        }
    }
}

/// The columns that a drawing takes, as a screen counts them.
pub fn art_width(art: &str) -> (res: u16)
    ensures
        res == widest(lines(art@)) % 0x1_0000,
{
    let rows = lines_of(art);
    let ghost all = texts(rows@);
    let mut width: usize = 0;
    let mut i: usize = 0;
    while i < rows.len()
        invariant
            i <= rows@.len(),
            all == texts(rows@),
            width == widest(all.take(i as int)),
        decreases rows@.len() - i,
    {
        proof {
            assert(all.take(i + 1).drop_last() =~= all.take(i as int));
            assert(all.take(i + 1).last() == rows@[i as int]@);
        }
        let n: usize = rows[i].as_str().as_bytes().len();
        if width < n {
            width = n;
        }
        i = i + 1;
    }
    assert(all.take(i as int) =~= all);
    (width % 0x1_0000) as u16
}

/// The columns that the mascot takes.
pub fn otter_width() -> (res: u16)
    ensures
        res == widest(lines(banner::OTTER@)) % 0x1_0000,
{
    art_width(banner::OTTER)
}

/// `pattern` as it stands after `tick` steps to the left, in a circle.
pub open spec fn scrolled_by(pattern: Seq<char>, tick: u64) -> Seq<char> {
    if pattern.len() == 0 {
        pattern
    } else {
        let off = tick as int % pattern.len() as int;
        pattern.skip(off) + pattern.take(off)
    }
}

/// A scrolling line of water.
pub fn wave_line(tick: u64) -> (res: String)
    ensures
        res@ == scrolled_by(banner::WAVES@, tick),
{
    let v = chars_of(banner::WAVES);
    let len: usize = v.len();
    if len == 0 {
        return banner::WAVES.to_owned();
    }
    let off: usize = (tick % len as u64) as usize;
    let mut out = text_of(&v[off..len]);
    out.push_str(text_of(&v[0..off]).as_str());
    proof {
        assert(v@.subrange(off as int, len as int) =~= v@.skip(off as int));
        assert(v@.subrange(0, off as int) =~= v@.take(off as int));
    }
    out
}

/// Whether the hint on the splash screen is lit: it blinks.
pub fn hint_lit(tick: u64) -> (res: bool)
    ensures
        res == (tick % 8 != 7),
{
    tick % 8 != 7
}

// ----------------------------------------------------------------- text --

/// `s` in at most `max` columns, with a mark where it was cut.
pub open spec fn ellipsized(s: Seq<char>, max: nat) -> Seq<char> {
    if s.len() <= max {
        s
    } else {
        s.take(minus(max, 1) as int).push('…')
    }
}

/// Hard column clipping looks like text ran into its neighbor; mark it.
pub fn ellipsize(s: &str, max: usize) -> (res: String)
    ensures
        res@ == ellipsized(s@, max as nat),
{
    let v = chars_of(s);
    if v.len() <= max {
        return s.to_owned();
    }
    let keep: usize = max.saturating_sub(1);
    let mut out = text_of(&v[0..keep]);
    assert(v@.subrange(0, keep as int) =~= v@.take(keep as int));
    out.push('…');
    out
}

/// The colors that carry meaning.
#[derive(Clone, Copy, PartialEq, Eq, Structural, Debug)]
pub enum Tone {
    /// It is going on.
    Live,
    /// It went well.
    Good,
    /// It did not.
    Bad,
}

/// The mark of a run in the list, and its tone.
pub open spec fn mark_of(m: RunView, state: RunState, tick: u64) -> (char, Tone) {
    match state {
        RunState::Running => ("⠋⠙⠹⠸⠼⠴⠦⠧⠇⠏"@[tick as int / 2 % 10], Tone::Live),
        RunState::Died => ('!', Tone::Bad),
        RunState::Done => if m.success() {
            ('✓', Tone::Good)
        } else {
            ('✗', Tone::Bad)
        },
    }
}

fn spinner(tick: u64) -> (res: char)
    ensures
        res == "⠋⠙⠹⠸⠼⠴⠦⠧⠇⠏"@[tick as int / 2 % 10],
{
    proof {
        reveal_strlit("⠋⠙⠹⠸⠼⠴⠦⠧⠇⠏");
    }
    match tick / 2 % 10 {
        0 => '⠋',
        1 => '⠙',
        2 => '⠹',
        3 => '⠸',
        4 => '⠼',
        5 => '⠴',
        6 => '⠦',
        7 => '⠧',
        8 => '⠇',
        _ => '⠏',
    }
}

// --------------------------------------------------------------- header --

/// The header over the list and the results.
pub struct Header {
    pub library: String,
    pub filter: Option<String>,
    pub hits: Option<String>,
}

pub open spec fn library_text(s: AppView) -> Seq<char> {
    "library · "@ + decimal(s.runs.len()) + " runs"@
}

pub open spec fn filter_text(s: AppView) -> Seq<char> {
    " · filter '"@ + s.filter + "' ("@ + decimal(s.filtered.len()) + " shown)"@
}

pub open spec fn hits_text(s: AppView) -> Seq<char> {
    " · "@ + decimal(s.hits.len()) + " hits for '"@ + s.content_query + "'"@
}

/// How many runs there are, what filters them, what was found in them.
pub fn header(app: &App) -> (res: Header)
    ensures
        res.library@ == library_text(app@),
        match res.filter {
            Some(text) => app@.filter.len() > 0 && text@ == filter_text(app@),
            None => app@.filter.len() == 0,
        },
        match res.hits {
            Some(text) => app@.view == screen::View::Results && text@ == hits_text(app@),
            None => app@.view != screen::View::Results,
        },
{
    let mut library = "library · ".to_owned();
    push_decimal(&mut library, app.runs.len() as u64);
    library.push_str(" runs");
    let filter = if app.filter.as_str().is_empty() {
        None
    } else {
        let mut text = " · filter '".to_owned();
        text.push_str(app.filter.as_str());
        text.push_str("' (");
        push_decimal(&mut text, app.filtered.len() as u64);
        text.push_str(" shown)");
        Some(text)
    };
    let hits = if app.view == screen::View::Results {
        let mut text = " · ".to_owned();
        push_decimal(&mut text, app.hits.len() as u64);
        text.push_str(" hits for '");
        text.push_str(app.content_query.as_str());
        text.push_str("'");
        Some(text)
    } else {
        None
    };
    Header { library, filter, hits }
}

// ----------------------------------------------------------------- list --

/// A row of the run list.
pub struct ListRow {
    pub mark: char,
    pub tone: Tone,
    pub age: String,
    pub took: String,
    pub bytes: String,
    pub cmdline: String,
}

#[verifier::ext_equal]
pub ghost struct ListRowView {
    pub mark: char,
    pub tone: Tone,
    pub age: Seq<char>,
    pub took: Seq<char>,
    pub bytes: Seq<char>,
    pub cmdline: Seq<char>,
}

impl View for ListRow {
    type V = ListRowView;

    open spec fn view(&self) -> ListRowView {
        ListRowView {
            mark: self.mark,
            tone: self.tone,
            age: self.age@,
            took: self.took@,
            bytes: self.bytes@,
            cmdline: self.cmdline@,
        }
    }
}

/// The milliseconds that a run which started at `started` has taken by `now`.
pub open spec fn so_far(now: u64, started: u64) -> u64 {
    if now > started {
        (now - started) as u64
    } else {
        0
    }
}

/// What the list says of a run: the duration of a live one counts up.
pub open spec fn list_row(m: RunView, alive: bool, tick: u64, now: u64) -> ListRowView {
    let state = m.state(alive);
    ListRowView {
        mark: mark_of(m, state, tick).0,
        tone: mark_of(m, state, tick).1,
        age: age_text(now, m.started_ms),
        took: match state {
            RunState::Running => duration_text(so_far(now, m.started_ms)),
            RunState::Died => "died"@,
            RunState::Done => duration_text(m.duration_ms),
        },
        bytes: bytes_text(m.bytes),
        cmdline: m.cmdline(),
    }
}

pub open spec fn list_row_views(v: Seq<ListRow>) -> Seq<ListRowView> {
    v.map_values(|r: ListRow| r@)
}

fn row_of(m: &RunMeta, alive: bool, tick: u64, now: u64) -> (res: ListRow)
    ensures
        res@ == list_row(m@, alive, tick, now),
{
    let (mark, tone, took) = match m.state(alive) {
        RunState::Running => (
            spinner(tick),
            Tone::Live,
            duration(now.saturating_sub(m.started_ms)),
        ),
        RunState::Died => ('!', Tone::Bad, "died".to_owned()),
        RunState::Done => if m.success() {
            ('✓', Tone::Good, duration(m.duration_ms))
        } else {
            ('✗', Tone::Bad, duration(m.duration_ms))
        },
    };
    ListRow {
        mark,
        tone,
        age: age_at(now, m.started_ms),
        took,
        bytes: human_bytes(m.bytes),
        cmdline: m.cmdline(),
    }
}

/// The rows of the list; `alive` says of each run that is shown whether its
/// process lives.
pub fn list_rows(app: &App, alive: &Vec<bool>, now: u64) -> (res: Vec<ListRow>)
    requires
        app@.wf(),
        alive@.len() == app@.filtered.len(),
    ensures
        list_row_views(res@) == Seq::new(
            app@.filtered.len(),
            |k: int|
                list_row(app@.runs[app@.filtered[k] as int], alive@[k], app@.tick, now),
        ),
{
    let mut out: Vec<ListRow> = Vec::new();
    proof {
        lemma_passing(app@.runs, folded(app@.filter));
    }
    let mut i: usize = 0;
    while i < app.filtered.len()
        invariant
            i <= app.filtered@.len(),
            alive@.len() == app.filtered@.len(),
            forall|k: int| 0 <= k < app.filtered@.len() ==> #[trigger] app.filtered@[k]
                < app.runs@.len(),
            out@.len() == i,
            forall|k: int|
                0 <= k < i ==> (#[trigger] out@[k])@ == list_row(
                    app.runs@[app.filtered@[k] as int]@,
                    alive@[k],
                    app.tick,
                    now,
                ),
        decreases app.filtered@.len() - i,
    {
        assert(app.filtered@[i as int] < app.runs@.len());
        out.push(row_of(&app.runs[app.filtered[i]], alive[i], app.tick, now));
        i = i + 1;
    }
    assert(list_row_views(out@) =~= Seq::new(
        app@.filtered.len(),
        |k: int| list_row(app@.runs[app@.filtered[k] as int], alive@[k], app@.tick, now),
    ));
    out
}

/// What stands in place of an empty list; none where there are runs to show.
pub fn empty_message(app: &App) -> (res: Option<&'static str>)
    ensures
        match res {
            Some(msg) => app@.filtered.len() == 0 && msg@ == (if app@.runs.len() == 0 {
                "the library is empty — run something through me:\n\n  otterm run -- cargo test\n  otterm run -- npm run build"@
            } else {
                "nothing matches the filter (Esc clears it)"@
            }),
            None => app@.filtered.len() > 0,
        },
{
    if app.filtered.len() > 0 {
        None
    } else if app.runs.len() == 0 {
        Some(
            "the library is empty — run something through me:\n\n  otterm run -- cargo test\n  otterm run -- npm run build",
        )
    } else {
        Some("nothing matches the filter (Esc clears it)")
    }
}

// -------------------------------------------------------------- results --

/// A row of the search results.
pub struct ResultRow {
    pub command: String,
    pub age: String,
    pub line: String,
    pub text: String,
}

#[verifier::ext_equal]
pub ghost struct ResultRowView {
    pub command: Seq<char>,
    pub age: Seq<char>,
    pub line: Seq<char>,
    pub text: Seq<char>,
}

impl View for ResultRow {
    type V = ResultRowView;

    open spec fn view(&self) -> ResultRowView {
        ResultRowView {
            command: self.command@,
            age: self.age@,
            line: self.line@,
            text: self.text@,
        }
    }
}

/// The columns that a command gets in the results.
pub const COMMAND_WIDTH: usize = 28;

/// What the results say of a hit; lines are counted from one.
pub open spec fn result_row(h: HitView, now: u64) -> ResultRowView {
    ResultRowView {
        command: ellipsized(h.meta.cmdline(), COMMAND_WIDTH as nat),
        age: age_text(now, h.meta.started_ms),
        line: decimal(h.line as nat + 1) + ":"@,
        text: h.text,
    }
}

pub open spec fn result_row_views(v: Seq<ResultRow>) -> Seq<ResultRowView> {
    v.map_values(|r: ResultRow| r@)
}

fn result_of(h: &Hit, now: u64) -> (res: ResultRow)
    requires
        h.line < usize::MAX,
    ensures
        res@ == result_row(h@, now),
{
    let mut line = String::new();
    push_decimal(&mut line, (h.line + 1) as u64);
    line.push_str(":");
    assert(line@ =~= decimal(h.line as nat + 1) + ":"@);
    ResultRow {
        command: ellipsize(h.meta.cmdline().as_str(), COMMAND_WIDTH),
        age: age_at(now, h.meta.started_ms),
        line,
        text: h.text.clone(),
    }
}

/// The rows of the search results.
pub fn result_rows(app: &App, now: u64) -> (res: Vec<ResultRow>)
    requires
        app@.wf(),
    ensures
        result_row_views(res@) == app@.hits.map_values(|h: HitView| result_row(h, now)),
{
    let mut out: Vec<ResultRow> = Vec::new();
    let mut i: usize = 0;
    while i < app.hits.len()
        invariant
            i <= app.hits@.len(),
            app@.wf(),
            out@.len() == i,
            forall|k: int| 0 <= k < i ==> (#[trigger] out@[k])@ == result_row(app.hits@[k]@, now),
        decreases app.hits@.len() - i,
    {
        assert(app@.hits[i as int].line < usize::MAX);
        out.push(result_of(&app.hits[i], now));
        i = i + 1;
    }
    assert(result_row_views(out@) =~= app@.hits.map_values(|h: HitView| result_row(h, now)));
    out
}

// --------------------------------------------------------------- viewer --

/// The header over the viewer.
pub struct ViewerHeader {
    pub mark: char,
    pub tone: Tone,
    pub cmdline: String,
    pub detail: String,
    /// What is said of a log that is not shown from its start.
    pub tail: Option<&'static str>,
}

/// The mark of the run in the viewer.
pub open spec fn viewer_mark(v: ViewerView, alive: bool) -> (char, Tone) {
    if v.live {
        ('●', Tone::Live)
    } else if v.meta.state(alive) == RunState::Died {
        ('!', Tone::Bad)
    } else if v.meta.success() {
        ('✓', Tone::Good)
    } else {
        ('✗', Tone::Bad)
    }
}

/// What the header says of the run in the viewer.
pub open spec fn viewer_detail(v: ViewerView, now: u64) -> Seq<char> {
    let m = v.meta;
    if v.live {
        "  · live "@ + duration_text(so_far(now, m.started_ms)) + " · "@ + bytes_text(v.last_size)
            + " · "@ + (if v.follow {
            "following"@
        } else {
            "paused — f to follow"@
        })
    } else {
        "  · "@ + age_text(now, m.started_ms) + " ago · "@ + duration_text(m.duration_ms) + " · "@
            + bytes_text(m.bytes) + " · exit "@ + (match m.exit_code {
            Some(code) => signed_decimal(code as int),
            None => "?"@,
        })
    }
}

/// What the header over the viewer says; `alive` is whether the process of
/// the run's record lives.
pub fn viewer_header(v: &Viewer, alive: bool, now: u64) -> (res: ViewerHeader)
    ensures
        (res.mark, res.tone) == viewer_mark(v@, alive),
        res.cmdline@ == v@.meta.cmdline(),
        res.detail@ == viewer_detail(v@, now),
        match res.tail {
            Some(text) => v@.truncated && text@ == "  [tail only — log exceeds 16MB]"@,
            None => !v@.truncated,
        },
{
    let m = &v.meta;
    let mut detail = String::new();
    let (mark, tone) = if v.live {
        detail.push_str("  · live ");
        detail.push_str(duration(now.saturating_sub(m.started_ms)).as_str());
        detail.push_str(" · ");
        detail.push_str(human_bytes(v.last_size).as_str());
        detail.push_str(" · ");
        if v.follow {
            detail.push_str("following");
        } else {
            detail.push_str("paused — f to follow");
        }
        ('●', Tone::Live)
    } else {
        detail.push_str("  · ");
        detail.push_str(age_at(now, m.started_ms).as_str());
        detail.push_str(" ago · ");
        detail.push_str(duration(m.duration_ms).as_str());
        detail.push_str(" · ");
        detail.push_str(human_bytes(m.bytes).as_str());
        detail.push_str(" · exit ");
        match m.exit_code {
            Some(code) => push_signed(&mut detail, code),
            None => detail.push_str("?"),
        }
        if m.state(alive) == RunState::Died {
            ('!', Tone::Bad)
        } else if m.success() {
            ('✓', Tone::Good)
        } else {
            ('✗', Tone::Bad)
        }
    };
    assert(detail@ =~= viewer_detail(v@, now));
    ViewerHeader {
        mark,
        tone,
        cmdline: m.cmdline(),
        detail,
        tail: if v.truncated {
            Some("  [tail only — log exceeds 16MB]")
        } else {
            None
        },
    }
}

/// The window into the log that a frame of `rows` rows shows; none without a
/// viewer.
pub fn viewer_window(app: &mut App, rows: usize) -> (res: Option<Window>)
    requires
        old(app)@.wf(),
    ensures
        final(app)@ == (AppView {
            viewer: match old(app)@.viewer {
                Some(v) => Some(v.framed(rows as nat)),
                None => None,
            },
            ..old(app)@
        }),
        final(app)@.wf(),
        match (final(app)@.viewer, res) {
            (Some(v), Some(w)) => {
                &&& w.start == v.scroll
                &&& w.end == at_most(v.scroll + rows as nat, v.lines.len())
                &&& w.start <= w.end
                &&& match w.overlay {
                    Some((row, text)) => overlay_of(v, w.start as int, w.end as int) == Some(
                        (row as int, text@),
                    ),
                    None => overlay_of(v, w.start as int, w.end as int) is None,
                }
            },
            (None, None) => true,
            _ => false,
        },
{
    let held = app.viewer.take();
    if let Some(mut v) = held {
        let window = v.frame(rows);
        app.viewer = Some(v);
        return Some(window);
    }
    None
}

// ----------------------------------------------------------- status bar --

/// The line at the bottom.
pub enum StatusLine {
    /// An open prompt: its label and what was typed.
    Prompt { label: &'static str, input: String },
    /// The question before a deletion.
    Confirm(&'static str),
    Message(String),
    /// What the keys do, and which match is shown.
    Hints { hints: &'static str, matches: String },
}

pub ghost enum StatusView {
    Prompt(Seq<char>, Seq<char>),
    Confirm(Seq<char>),
    Message(Seq<char>),
    Hints(Seq<char>, Seq<char>),
}

impl View for StatusLine {
    type V = StatusView;

    open spec fn view(&self) -> StatusView {
        match *self {
            StatusLine::Prompt { label, input } => StatusView::Prompt(label@, input@),
            StatusLine::Confirm(text) => StatusView::Confirm(text@),
            StatusLine::Message(text) => StatusView::Message(text@),
            StatusLine::Hints { hints, matches } => StatusView::Hints(hints@, matches@),
        }
    }
}

/// What the keys do in a view.
pub open spec fn hints_of(s: AppView) -> Seq<char> {
    match s.view {
        screen::View::Splash => ""@,
        screen::View::List => "  Enter view · R re-run · / filter · s search output · x delete · q quit"@,
        screen::View::Results => "  Enter open at match · Esc back"@,
        screen::View::Viewer => if s.viewer is Some && s.viewer.unwrap().live {
            "  f follow · j/k scroll · G bottom · / search · Esc back"@
        } else {
            "  j/k scroll · d/u page · g/G ends · / search · n/N matches · Esc back"@
        },
        screen::View::Raft => "  Enter board · p phone QR · r refresh · Esc back"@,
        screen::View::Den => "  Esc back"@,
    }
}

/// Which match the viewer is at, of how many.
pub open spec fn match_text(s: AppView) -> Seq<char> {
    match s.viewer {
        Some(v) => if s.view == screen::View::Viewer && v.matches.len() > 0 {
            "  ["@ + decimal(v.match_idx + 1) + "/"@ + decimal(v.matches.len()) + " matches]"@
        } else {
            ""@
        },
        None => ""@,
    }
}

/// What the line at the bottom says: a prompt, a message, or the keys.
pub open spec fn status_of(s: AppView) -> StatusView {
    match s.mode {
        Mode::FilterInput => StatusView::Prompt(" filter "@, " "@ + s.input),
        Mode::SearchInput => StatusView::Prompt(" search all output "@, " "@ + s.input),
        Mode::ViewerSearchInput => StatusView::Prompt(" search "@, " "@ + s.input),
        Mode::ConfirmDelete => StatusView::Confirm(
            " delete this run and its output? y / any other key cancels "@,
        ),
        Mode::Normal => match s.status {
            Some(msg) => StatusView::Message(" "@ + msg),
            None => StatusView::Hints(hints_of(s), match_text(s)),
        },
    }
}

fn spaced(s: &str) -> (res: String)
    ensures
        res@ == " "@ + s@,
{
    let mut out = " ".to_owned();
    out.push_str(s);
    out
}

/// What the line at the bottom says.
pub fn status_line(app: &App) -> (res: StatusLine)
    requires
        app@.wf(),
    ensures
        res@ == status_of(app@),
{
    match app.mode {
        Mode::FilterInput => StatusLine::Prompt {
            label: " filter ",
            input: spaced(app.input.as_str()),
        },
        Mode::SearchInput => StatusLine::Prompt {
            label: " search all output ",
            input: spaced(app.input.as_str()),
        },
        Mode::ViewerSearchInput => StatusLine::Prompt {
            label: " search ",
            input: spaced(app.input.as_str()),
        },
        Mode::ConfirmDelete => StatusLine::Confirm(
            " delete this run and its output? y / any other key cancels ",
        ),
        Mode::Normal => match &app.status {
            Some(msg) => StatusLine::Message(spaced(msg.as_str())),
            None => hints_line(app),
        },
    }
}

fn hints_line(app: &App) -> (res: StatusLine)
    requires
        app@.wf(),
    ensures
        res@ == StatusView::Hints(hints_of(app@), match_text(app@)),
{
    let live = match &app.viewer {
        Some(v) => v.live,
        None => false,
    };
    let hints = match app.view {
        screen::View::Splash => "",
        screen::View::List => "  Enter view · R re-run · / filter · s search output · x delete · q quit",
        screen::View::Results => "  Enter open at match · Esc back",
        screen::View::Viewer => if live {
            "  f follow · j/k scroll · G bottom · / search · Esc back"
        } else {
            "  j/k scroll · d/u page · g/G ends · / search · n/N matches · Esc back"
        },
        screen::View::Raft => "  Enter board · p phone QR · r refresh · Esc back",
        screen::View::Den => "  Esc back",
    };
    let matches = match &app.viewer {
        Some(v) => if app.view == screen::View::Viewer && v.matches.len() > 0 {
            let mut text = "  [".to_owned();
            push_decimal(&mut text, (v.match_idx + 1) as u64);
            text.push_str("/");
            push_decimal(&mut text, v.matches.len() as u64);
            text.push_str(" matches]");
            text
        } else {
            "".to_owned()
        },
        None => "".to_owned(),
    };
    assert(matches@ =~= match_text(app@));
    StatusLine::Hints { hints, matches }
}

} // verus!
