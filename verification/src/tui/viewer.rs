//! The viewer: a captured log, decoded for display and for search, and the
//! window into it. A log that still grows is tailed.
use crate::outside::{
    ansi_lines, raw_line, strip_escapes, styled_lines, unstyled_line, without_escapes,
};
use crate::store::{Known, RunMeta, RunState, RunView};
use crate::text::{
    contains, fold_case, folded, has_text, lines, lines_of, read_text, text_in, texts,
};
use crate::tui::keys::Key;
use ratatui::text::Line;
use vstd::prelude::*;

verus! {

/// Cap on how much of a log is loaded or searched; the tail is kept. 16 MB
/// covers almost any real run.
pub const MAX_READ: u64 = 16_777_216;

// ----------------------------------------------------------- line ends --

/// What stands for the byte at `i` once line ends are normal: nothing for a
/// carriage return before a newline, a newline for any other.
pub open spec fn line_byte(bytes: Seq<u8>, i: int) -> Seq<u8> {
    if bytes[i] != 13 {
        seq![bytes[i]]
    } else if i + 1 < bytes.len() && bytes[i + 1] == 10 {
        seq![]
    } else {
        seq![10u8]
    }
}

/// What stands for the first `n` bytes.
pub open spec fn normalized_to(bytes: Seq<u8>, n: int) -> Seq<u8>
    decreases n,
{
    if n <= 0 {
        seq![]
    } else {
        normalized_to(bytes, n - 1) + line_byte(bytes, n - 1)
    }
}

/// `bytes` with normal line ends.
pub open spec fn normalized(bytes: Seq<u8>) -> Seq<u8> {
    normalized_to(bytes, bytes.len() as int)
}

/// A pty records CRLF line ends, and a carriage return inside a styled line
/// corrupts the screen. So before anything is decoded, `\r\n` becomes `\n`,
/// and a lone `\r` (a progress bar that rewrites its line) becomes `\n` too,
/// so that each state of the bar is a line of its own.
pub fn normalize_cr(bytes: Vec<u8>) -> (res: Vec<u8>)
    ensures
        res@ == normalized(bytes@),
{
    let mut out: Vec<u8> = Vec::new();
    let mut i: usize = 0;
    while i < bytes.len()
        invariant
            i <= bytes@.len(),
            out@ == normalized_to(bytes@, i as int),
        decreases bytes@.len() - i,
    {
        let b: u8 = bytes[i];
        if b != 13 {
            out.push(b);
        } else if i + 1 < bytes.len() && bytes[i + 1] == 10 {
            // dropped, a newline follows
        } else {
            out.push(10);
        }
        i = i + 1;
        assert(out@ =~= normalized_to(bytes@, i as int));
    }
    out
}

/// No carriage return survives, and what had none stays as it is.
pub proof fn law_line_ends_are_normal(bytes: Seq<u8>)
    ensures
        !normalized(bytes).contains(13),
        !bytes.contains(13) ==> normalized(bytes) == bytes,
        normalized(normalized(bytes)) == normalized(bytes),
{
    lemma_normal(bytes, bytes.len() as int);
    assert(bytes.take(bytes.len() as int) =~= bytes);
    let n = normalized(bytes);
    lemma_normal(n, n.len() as int);
    assert(n.take(n.len() as int) =~= n);
}

proof fn lemma_normal(bytes: Seq<u8>, n: int)
    requires
        0 <= n <= bytes.len(),
    ensures
        !normalized_to(bytes, n).contains(13),
        !bytes.contains(13) ==> normalized_to(bytes, n) == bytes.take(n),
    decreases n,
{
    if n > 0 {
        lemma_normal(bytes, n - 1);
        let head = normalized_to(bytes, n - 1);
        let tail = line_byte(bytes, n - 1);
        assert forall|k: int| 0 <= k < normalized_to(bytes, n).len() implies normalized_to(
            bytes,
            n,
        )[k] != 13 by {
            if k < head.len() {
                assert(head.contains(head[k]));
            } else {
                assert(normalized_to(bytes, n)[k] == tail[k - head.len()]);
            }
        }
        if !bytes.contains(13) {
            assert(bytes.contains(bytes[n - 1]));
            assert(normalized_to(bytes, n) =~= bytes.take(n));
        }
    } else {
        assert(bytes.take(0) =~= seq![]);
    }
}

// ------------------------------------------------------------- decoding --

/// The lines of a log as the screen shows them: styled, or plain where the
/// escapes cannot be read.
pub open spec fn shown_lines(bytes: Seq<u8>) -> Seq<Line<'static>> {
    match ansi_lines(bytes) {
        Some(styled) => styled,
        None => lines(text_in(bytes)).map_values(|t: Seq<char>| unstyled_line(t)),
    }
}

/// The lines of a log without its escapes, for search.
pub open spec fn plain_lines(bytes: Seq<u8>) -> Seq<Seq<char>> {
    lines(text_in(without_escapes(bytes)))
}

/// The lines of a log without its escapes.
pub fn plain(bytes: &[u8]) -> (res: Vec<String>)
    ensures
        texts(res@) == plain_lines(bytes@),
{
    let stripped = strip_escapes(bytes);
    lines_of(read_text(stripped.as_slice()).as_str())
}

/// The lines of a log without any style.
fn unstyled(bytes: &[u8]) -> (res: Vec<Line<'static>>)
    ensures
        res@ == lines(text_in(bytes@)).map_values(|t: Seq<char>| unstyled_line(t)),
{
    let plain = lines_of(read_text(bytes).as_str());
    let mut out: Vec<Line<'static>> = Vec::new();
    let mut i: usize = 0;
    while i < plain.len()
        invariant
            i <= plain@.len(),
            out@.len() == i,
            forall|k: int| 0 <= k < i ==> #[trigger] out@[k] == unstyled_line(plain@[k]@),
        decreases plain@.len() - i,
    {
        out.push(raw_line(plain[i].clone()));
        i = i + 1;
    }
    assert(out@ =~= texts(plain@).map_values(|t: Seq<char>| unstyled_line(t)));
    out
}

/// Decodes captured bytes: styled lines for display and stripped lines for
/// search. Falls back to plain text on malformed escapes rather than refusing
/// to show the run.
pub fn decode(bytes: &[u8]) -> (res: (Vec<Line<'static>>, Vec<String>))
    ensures
        res.0@ == shown_lines(bytes@),
        texts(res.1@) == plain_lines(bytes@),
{
    let shown = match styled_lines(bytes) {
        Some(styled) => styled,
        None => unstyled(bytes),
    };
    (shown, plain(bytes))
}

// -------------------------------------------------------------- matches --

/// Whether a line mentions `needle`, which is in lower case.
pub open spec fn mentions(line: Seq<char>, needle: Seq<char>) -> bool {
    contains(folded(line), needle)
}

/// Whether a line mentions `needle`.
pub fn line_mentions(line: &str, needle: &str) -> (res: bool)
    ensures
        res == mentions(line@, needle@),
{
    has_text(fold_case(line).as_str(), needle)
}

/// The numbers of the lines that mention `needle`; none where it is empty.
pub open spec fn matching(lines: Seq<Seq<char>>, needle: Seq<char>) -> Seq<usize>
    decreases lines.len(),
{
    if lines.len() == 0 || needle.len() == 0 {
        seq![]
    } else {
        let rest = matching(lines.drop_last(), needle);
        if mentions(lines.last(), needle) {
            rest.push((lines.len() - 1) as usize)
        } else {
            rest
        }
    }
}

fn match_lines(stripped: &Vec<String>, needle: &str) -> (res: Vec<usize>)
    ensures
        res@ == matching(texts(stripped@), needle@),
{
    let mut out: Vec<usize> = Vec::new();
    if needle.is_empty() {
        return out;
    }
    let ghost all = texts(stripped@);
    let mut i: usize = 0;
    while i < stripped.len()
        invariant
            i <= stripped@.len(),
            all == texts(stripped@),
            needle@.len() > 0,
            out@ == matching(all.take(i as int), needle@),
        decreases stripped@.len() - i,
    {
        proof {
            assert(all.take(i + 1).drop_last() =~= all.take(i as int));
            assert(all.take(i + 1).last() == stripped@[i as int]@);
        }
        if line_mentions(stripped[i].as_str(), needle) {
            out.push(i);
        }
        i = i + 1;
    }
    assert(all.take(i as int) =~= all);
    out
}

/// The matches are exactly the lines that mention the needle, from the first
/// to the last.
pub proof fn law_matches_are_the_mentions(lines: Seq<Seq<char>>, needle: Seq<char>)
    requires
        lines.len() <= usize::MAX,
        needle.len() > 0,
    ensures
        forall|i: int|
            0 <= i < lines.len() ==> (mentions(#[trigger] lines[i], needle) <==> matching(
                lines,
                needle,
            ).contains(i as usize)),
        forall|k: int|
            0 <= k < matching(lines, needle).len() ==> #[trigger] matching(lines, needle)[k]
                < lines.len(),
        forall|k: int, l: int|
            0 <= k < l < matching(lines, needle).len() ==> matching(lines, needle)[k] < matching(
                lines,
                needle,
            )[l],
    decreases lines.len(),
{
    if lines.len() > 0 {
        let part = lines.drop_last();
        let had = matching(part, needle);
        let now = matching(lines, needle);
        let at = lines.len() - 1;
        law_matches_are_the_mentions(part, needle);
        if mentions(lines[at], needle) {
            assert(now[had.len() as int] == at as usize);
        }
        assert forall|i: int| 0 <= i < lines.len() implies (mentions(#[trigger] lines[i], needle)
            <==> now.contains(i as usize)) by {
            if i < at {
                assert(lines[i] == part[i]);
                if had.contains(i as usize) {
                    let k = choose|k: int| 0 <= k < had.len() && had[k] == i as usize;
                    assert(now[k] == i as usize);
                }
                if now.contains(i as usize) {
                    let k = choose|k: int| 0 <= k < now.len() && now[k] == i as usize;
                    assert(k < had.len() ==> had[k] == now[k]);
                }
            } else if now.contains(at as usize) {
                let k = choose|k: int| 0 <= k < now.len() && now[k] == at as usize;
                if k < had.len() {
                    assert(had[k] == now[k]);
                }
            }
        }
        assert forall|k: int| 0 <= k < now.len() implies #[trigger] now[k] < lines.len() by {
            if k < had.len() {
                assert(had[k] == now[k]);
            }
        }
        assert forall|k: int, l: int| 0 <= k < l < now.len() implies now[k] < now[l] by {
            assert(had[k] == now[k]);
            if l < had.len() {
                assert(had[l] == now[l]);
            }
        }
    }
}

// --------------------------------------------------------------- viewer --

pub struct Viewer {
    pub meta: RunMeta,
    /// Styled lines for display.
    pub lines: Vec<Line<'static>>,
    /// Stripped lines for search.
    pub stripped: Vec<String>,
    pub scroll: usize,
    pub query: String,
    pub matches: Vec<usize>,
    pub match_idx: usize,
    pub truncated: bool,
    /// Whether Esc returns to the search results or to the run list.
    pub from_results: bool,
    /// Rows on the screen at the last frame: keys page and clamp by it.
    pub height: usize,
    /// Whether the capture still runs: the viewer then tails its log.
    pub live: bool,
    /// Whether the view is pinned to the bottom as output arrives. Scrolling
    /// unpins; `f` or `G` pins again.
    pub follow: bool,
    /// Size of the log when it was last decoded, to skip decoding it again
    /// while nothing changed.
    pub last_size: u64,
}

/// A viewer as contracts speak of it.
#[verifier::ext_equal]
pub ghost struct ViewerView {
    pub meta: RunView,
    pub lines: Seq<Line<'static>>,
    pub stripped: Seq<Seq<char>>,
    pub scroll: nat,
    pub query: Seq<char>,
    pub matches: Seq<usize>,
    pub match_idx: nat,
    pub truncated: bool,
    pub from_results: bool,
    pub height: nat,
    pub live: bool,
    pub follow: bool,
    pub last_size: u64,
}

impl View for Viewer {
    type V = ViewerView;

    open spec fn view(&self) -> ViewerView {
        ViewerView {
            meta: self.meta@,
            lines: self.lines@,
            stripped: texts(self.stripped@),
            scroll: self.scroll as nat,
            query: self.query@,
            matches: self.matches@,
            match_idx: self.match_idx as nat,
            truncated: self.truncated,
            from_results: self.from_results,
            height: self.height as nat,
            live: self.live,
            follow: self.follow,
            last_size: self.last_size,
        }
    }
}

/// `a` less `b`, but not below zero.
pub open spec fn minus(a: nat, b: nat) -> nat {
    if a > b {
        (a - b) as nat
    } else {
        0
    }
}

pub open spec fn at_most(a: nat, b: nat) -> nat {
    if a < b {
        a
    } else {
        b
    }
}

/// The number after `i` of those below `n`; zero follows the last.
pub open spec fn after(i: nat, n: nat) -> nat {
    if i + 1 < n {
        i + 1
    } else {
        0
    }
}

/// The number ahead of `i` of those below `n`; the last is ahead of zero.
pub open spec fn ahead(i: nat, n: nat) -> nat {
    if i > 0 {
        (i - 1) as nat
    } else {
        (n - 1) as nat
    }
}

/// Where the first item with a property stands; the length where none has it.
pub open spec fn first_index(s: Seq<usize>, p: spec_fn(usize) -> bool) -> nat
    decreases s.len(),
{
    if s.len() == 0 || p(s[0]) {
        0
    } else {
        1 + first_index(s.drop_first(), p)
    }
}

/// A log as it was read: its tail, whether that is all of it, and its size.
pub struct Log {
    pub bytes: Vec<u8>,
    pub truncated: bool,
    pub size: u64,
}

impl ViewerView {
    /// The matches are those of the query, and the current one is one of them.
    pub open spec fn wf(self) -> bool {
        &&& self.matches == matching(self.stripped, self.query)
        &&& self.matches.len() > 0 ==> self.match_idx < self.matches.len()
        &&& self.matches.len() == 0 ==> self.match_idx == 0
        &&& self.height <= usize::MAX
        &&& self.scroll <= usize::MAX
        &&& self.lines.len() <= usize::MAX
        &&& self.stripped.len() <= usize::MAX
    }

    /// Rows that a page moves by: at least one.
    pub open spec fn page(self) -> nat {
        if self.height == 0 {
            1
        } else {
            self.height
        }
    }

    /// The scroll position at which the last page fills the screen.
    pub open spec fn bottom(self) -> nat {
        minus(self.lines.len(), self.page())
    }

    pub open spec fn with_query(self, query: Seq<char>) -> ViewerView {
        ViewerView {
            query: folded(query),
            matches: matching(self.stripped, folded(query)),
            match_idx: 0,
            ..self
        }
    }

    /// Moved by hand, which unpins a live tail.
    pub open spec fn scrolled(self, scroll: nat) -> ViewerView {
        ViewerView { scroll, follow: false, ..self }
    }

    /// Moved to the match at `idx`, three lines of context above it.
    pub open spec fn at_match(self, idx: nat) -> ViewerView {
        ViewerView { match_idx: idx, scroll: minus(self.matches[idx as int] as nat, 3), ..self }
    }

    /// What a key does inside the viewer.
    pub open spec fn keyed(self, key: Key) -> ViewerView {
        let n = self.matches.len();
        if key == Key::Char('j') || key == Key::Down {
            self.scrolled(at_most(self.scroll + 1, self.bottom()))
        } else if key == Key::Char('k') || key == Key::Up {
            self.scrolled(minus(self.scroll, 1))
        } else if key == Key::Char('d') || key == Key::PageDown {
            self.scrolled(at_most(self.scroll + self.page() / 2, self.bottom()))
        } else if key == Key::Char('u') || key == Key::PageUp {
            self.scrolled(minus(self.scroll, self.page() / 2))
        } else if key == Key::Char('g') {
            self.scrolled(0)
        } else if key == Key::Char('G') {
            ViewerView { scroll: self.bottom(), follow: self.live, ..self }
        } else if key == Key::Char('f') && self.live {
            ViewerView {
                follow: !self.follow,
                scroll: if self.follow {
                    self.scroll
                } else {
                    self.bottom()
                },
                ..self
            }
        } else if key == Key::Char('n') && n > 0 {
            self.at_match(after(self.match_idx, n))
        } else if key == Key::Char('N') && n > 0 {
            self.at_match(ahead(self.match_idx, n))
        } else {
            self
        }
    }

    /// Searched for `query`: moved to the first match at or after the current
    /// position, or to the first of all.
    pub open spec fn searched(self, query: Seq<char>) -> ViewerView {
        let found = self.with_query(query);
        if found.matches.len() == 0 {
            found
        } else {
            let next = first_index(found.matches, |m: usize| m >= self.scroll);
            found.at_match(
                if next < found.matches.len() {
                    next
                } else {
                    0
                },
            )
        }
    }

    /// Holding the log as it is now: pinned to the bottom where it follows.
    pub open spec fn redecoded(self, bytes: Seq<u8>, truncated: bool) -> ViewerView {
        let fresh = ViewerView {
            lines: shown_lines(normalized(bytes)),
            stripped: plain_lines(normalized(bytes)),
            truncated,
            ..self
        }.with_query(self.query);
        if self.follow {
            ViewerView { scroll: fresh.bottom(), ..fresh }
        } else {
            fresh
        }
    }

    /// A live run, looked at again: its log is `size` long and, where it could
    /// be read, `log`; its record, looked at in every tenth tick, is `meta`.
    pub open spec fn polled(
        self,
        tick: u64,
        size: u64,
        log: Option<(Seq<u8>, bool)>,
        meta: Option<(RunView, bool)>,
    ) -> ViewerView {
        if !self.live {
            self
        } else {
            let grown = if size == self.last_size {
                self
            } else {
                let noted = ViewerView { last_size: size, ..self };
                match log {
                    Some((bytes, truncated)) => noted.redecoded(bytes, truncated),
                    None => noted,
                }
            };
            match meta {
                Some((m, alive)) => if tick % 10 == 0 && m.state(alive) != RunState::Running {
                    ViewerView { live: false, meta: m, ..grown }
                } else {
                    grown
                },
                None => grown,
            }
        }
    }

    /// As the next frame of `rows` rows shows it.
    pub open spec fn framed(self, rows: nat) -> ViewerView {
        ViewerView { height: rows, scroll: at_most(self.scroll, minus(self.lines.len(), rows)), ..self }
    }
}

/// The viewer that opens on a run: a live one pinned to its tail, unless the
/// way there was a search hit, which it then shows.
pub open spec fn opened(
    meta: RunView,
    alive: bool,
    jump_to: Option<usize>,
    query: Option<Seq<char>>,
    from_results: bool,
    bytes: Seq<u8>,
    truncated: bool,
    size: u64,
) -> ViewerView {
    let live = meta.state(alive) == RunState::Running;
    let follow = live && jump_to is None;
    let shown = shown_lines(normalized(bytes));
    let fresh = ViewerView {
        meta,
        lines: shown,
        stripped: plain_lines(normalized(bytes)),
        scroll: if follow {
            minus(shown.len(), 24)
        } else {
            0
        },
        query: seq![],
        matches: seq![],
        match_idx: 0,
        truncated,
        from_results,
        height: 24,
        live,
        follow,
        last_size: size,
    };
    let found = match query {
        Some(q) => fresh.with_query(q),
        None => fresh,
    };
    match jump_to {
        Some(line) => {
            let at = first_index(found.matches, |m: usize| m == line);
            ViewerView {
                scroll: minus(line as nat, 3),
                match_idx: if at < found.matches.len() {
                    at
                } else {
                    found.match_idx
                },
                ..found
            }
        },
        None => found,
    }
}

proof fn lemma_first_index(s: Seq<usize>, p: spec_fn(usize) -> bool, at: nat)
    requires
        at <= s.len(),
        at < s.len() ==> p(s[at as int]),
        forall|k: int| 0 <= k < at ==> !p(#[trigger] s[k]),
    ensures
        first_index(s, p) == at,
    decreases s.len(),
{
    if at > 0 {
        let t = s.drop_first();
        assert(!p(s[0]));
        assert forall|k: int| 0 <= k < at - 1 implies !p(#[trigger] t[k]) by {
            assert(!p(s[k + 1]));
        }
        lemma_first_index(t, p, (at - 1) as nat);
    }
}

/// Where the first match stands that is at or after `line`.
fn match_from(matches: &Vec<usize>, line: usize) -> (at: usize)
    ensures
        at == first_index(matches@, |m: usize| m >= line),
        at <= matches@.len(),
{
    let ghost p = |m: usize| m >= line;
    let mut i: usize = 0;
    while i < matches.len() && matches[i] < line
        invariant
            i <= matches@.len(),
            p == (|m: usize| m >= line),
            forall|k: int| 0 <= k < i ==> !p(#[trigger] matches@[k]),
        decreases matches@.len() - i,
    {
        i = i + 1;
    }
    proof {
        lemma_first_index(matches@, p, i as nat);
    }
    i
}

/// Where the match on `line` stands.
fn match_on(matches: &Vec<usize>, line: usize) -> (at: usize)
    ensures
        at == first_index(matches@, |m: usize| m == line),
        at <= matches@.len(),
{
    let ghost p = |m: usize| m == line;
    let mut i: usize = 0;
    while i < matches.len() && matches[i] != line
        invariant
            i <= matches@.len(),
            p == (|m: usize| m == line),
            forall|k: int| 0 <= k < i ==> !p(#[trigger] matches@[k]),
        decreases matches@.len() - i,
    {
        i = i + 1;
    }
    proof {
        lemma_first_index(matches@, p, i as nat);
    }
    i
}

/// The part of the log that a frame shows: the lines from `start` to `end`,
/// and the current match, if it is among them, by its row and text.
pub struct Window {
    pub start: usize,
    pub end: usize,
    pub overlay: Option<(usize, String)>,
}

/// The row and text of the current match, where the window from `start` to
/// `end` shows it.
pub open spec fn overlay_of(v: ViewerView, start: int, end: int) -> Option<(int, Seq<char>)> {
    if v.matches.len() == 0 {
        None
    } else {
        let line = v.matches[v.match_idx as int] as int;
        if start <= line < end {
            Some((line - start, v.stripped[line]))
        } else {
            None
        }
    }
}

/// What the status line says when a search found nothing.
pub open spec fn search_status(query: Seq<char>) -> Seq<char> {
    if query.len() == 0 {
        "search cleared"@
    } else {
        "no matches for '"@ + query + "'"@
    }
}

/// A log as `polled` takes it.
pub open spec fn log_view(log: Option<(Vec<u8>, bool)>) -> Option<(Seq<u8>, bool)> {
    match log {
        Some(l) => Some((l.0@, l.1)),
        None => None,
    }
}

/// A record as `polled` takes it.
pub open spec fn known_view(meta: Option<Known>) -> Option<(RunView, bool)> {
    match meta {
        Some(k) => Some((k.meta@, k.alive)),
        None => None,
    }
}

proof fn lemma_matching_bound(lines: Seq<Seq<char>>, needle: Seq<char>)
    requires
        lines.len() <= usize::MAX,
    ensures
        forall|k: int|
            0 <= k < matching(lines, needle).len() ==> #[trigger] matching(lines, needle)[k]
                < lines.len(),
        needle.len() == 0 ==> matching(lines, needle) == Seq::<usize>::empty(),
{
    if needle.len() > 0 {
        law_matches_are_the_mentions(lines, needle);
    } else {
        assert(matching(lines, needle) =~= seq![]);
    }
}

impl Viewer {
    /// Finds the lines that mention `query`, whatever its case.
    fn compute_matches(&mut self, query: &str)
        ensures
            final(self)@ == old(self)@.with_query(query@),
    {
        self.query = fold_case(query);
        self.match_idx = 0;
        self.matches = match_lines(&self.stripped, self.query.as_str());
    }

    /// Opens on the log of a run; `alive` is whether the process of its
    /// record lives.
    pub fn open(
        meta: RunMeta,
        alive: bool,
        jump_to: Option<usize>,
        query: Option<&str>,
        from_results: bool,
        log: Log,
    ) -> (res: Viewer)
        ensures
            res@ == opened(
                meta@,
                alive,
                jump_to,
                match query {
                    Some(q) => Some(q@),
                    None => None,
                },
                from_results,
                log.bytes@,
                log.truncated,
                log.size,
            ),
            res@.wf(),
    {
        let bytes = normalize_cr(log.bytes);
        let (lines, stripped) = decode(bytes.as_slice());
        let live = meta.state(alive) == RunState::Running;
        let follow = live && jump_to.is_none();
        let count: usize = lines.len();
        let plain_count: usize = stripped.len();
        let mut viewer = Viewer {
            meta,
            lines,
            stripped,
            scroll: if follow {
                count.saturating_sub(24)
            } else {
                0
            },
            query: String::new(),
            matches: Vec::new(),
            match_idx: 0,
            truncated: log.truncated,
            from_results,
            height: 24,
            live,
            follow,
            last_size: log.size,
        };
        proof {
            lemma_matching_bound(viewer@.stripped, viewer@.query);
            assert(viewer@.query =~= seq![]);
            assert(viewer@.matches =~= seq![]);
        }
        if let Some(q) = query {
            viewer.compute_matches(q);
        }
        if let Some(line) = jump_to {
            viewer.scroll = line.saturating_sub(3);
            // n and N go on from the hit, where it is a match.
            let at: usize = match_on(&viewer.matches, line);
            if at < viewer.matches.len() {
                viewer.match_idx = at;
            }
        }
        viewer
    }

    /// The keys of the viewer, but for those that leave it or open a prompt.
    pub fn on_key(&mut self, key: Key)
        requires
            old(self)@.wf(),
        ensures
            final(self)@ == old(self)@.keyed(key),
            final(self)@.wf(),
    {
        let page: usize = if self.height == 0 {
            1
        } else {
            self.height
        };
        // The last page fills the screen: no lone final line at the top.
        let max: usize = self.lines.len().saturating_sub(page);
        let n: usize = self.matches.len();
        match key {
            // Scrolling by hand unpins a live tail.
            Key::Char('j') | Key::Down => {
                let next: usize = self.scroll.saturating_add(1);
                self.scroll = if next < max {
                    next
                } else {
                    max
                };
                self.follow = false;
            },
            Key::Char('k') | Key::Up => {
                self.scroll = self.scroll.saturating_sub(1);
                self.follow = false;
            },
            Key::Char('d') | Key::PageDown => {
                let next: usize = self.scroll.saturating_add(page / 2);
                self.scroll = if next < max {
                    next
                } else {
                    max
                };
                self.follow = false;
            },
            Key::Char('u') | Key::PageUp => {
                self.scroll = self.scroll.saturating_sub(page / 2);
                self.follow = false;
            },
            Key::Char('g') => {
                self.scroll = 0;
                self.follow = false;
            },
            Key::Char('G') => {
                self.scroll = max;
                self.follow = self.live;
            },
            Key::Char('f') => {
                if self.live {
                    self.follow = !self.follow;
                    if self.follow {
                        self.scroll = max;
                    }
                }
            },
            Key::Char('n') => {
                if n > 0 {
                    let next: usize = if self.match_idx + 1 < n {
                        self.match_idx + 1
                    } else {
                        0
                    };
                    self.match_idx = next;
                    self.scroll = self.matches[next].saturating_sub(3);
                }
            },
            Key::Char('N') => {
                if n > 0 {
                    let next: usize = if self.match_idx > 0 {
                        self.match_idx - 1
                    } else {
                        n - 1
                    };
                    self.match_idx = next;
                    self.scroll = self.matches[next].saturating_sub(3);
                }
            },
            _ => {},
        }
    }

    /// Searches the log; the result is what the status line says where
    /// nothing was found.
    pub fn search(&mut self, query: &str) -> (res: Option<String>)
        requires
            old(self)@.wf(),
        ensures
            final(self)@ == old(self)@.searched(query@),
            final(self)@.wf(),
            res is None <==> final(self)@.matches.len() > 0,
            res matches Some(msg) ==> msg@ == search_status(query@),
    {
        self.compute_matches(query);
        if self.matches.len() == 0 {
            if query.is_empty() {
                return Some("search cleared".to_owned());
            }
            let mut msg = "no matches for '".to_owned();
            msg.push_str(query);
            msg.push_str("'");
            return Some(msg);
        }
        // Jump to the first match at or after the current position.
        let mut at: usize = match_from(&self.matches, self.scroll);
        if at == self.matches.len() {
            at = 0;
        }
        self.match_idx = at;
        self.scroll = self.matches[at].saturating_sub(3);
        None
    }

    /// Whether a poll needs the log, which is `size` long.
    pub fn wants_log(&self, size: u64) -> (res: bool)
        ensures
            res == (self.live && size != self.last_size),
    {
        self.live && size != self.last_size
    }

    /// Whether a poll needs the record: it is looked at once a second.
    pub fn wants_meta(&self, tick: u64) -> (res: bool)
        ensures
            res == (self.live && tick % 10 == 0),
    {
        self.live && tick % 10 == 0
    }

    /// Holds the log as it is now.
    fn redecode(&mut self, log: Vec<u8>, truncated: bool)
        requires
            old(self)@.wf(),
        ensures
            final(self)@ == old(self)@.redecoded(log@, truncated),
            final(self)@.wf(),
    {
        let bytes = normalize_cr(log);
        let (lines, stripped) = decode(bytes.as_slice());
        let count: usize = lines.len();
        let plain_count: usize = stripped.len();
        self.lines = lines;
        self.stripped = stripped;
        self.truncated = truncated;
        let query = self.query.clone();
        self.compute_matches(query.as_str());
        if self.follow {
            let page: usize = if self.height == 0 {
                1
            } else {
                self.height
            };
            self.scroll = count.saturating_sub(page);
        }
    }

    /// Tails a live run: decodes the log again when it grew, keeps to the
    /// bottom when following, and notices that the capture finished.
    pub fn poll(&mut self, tick: u64, size: u64, log: Option<(Vec<u8>, bool)>, meta: Option<Known>)
        requires
            old(self)@.wf(),
        ensures
            final(self)@ == old(self)@.polled(tick, size, log_view(log), known_view(meta)),
            final(self)@.wf(),
    {
        if !self.live {
            return;
        }
        if size != self.last_size {
            self.last_size = size;
            if let Some((bytes, truncated)) = log {
                self.redecode(bytes, truncated);
            }
        }
        if let Some(known) = meta {
            if tick % 10 == 0 && known.meta.state(known.alive) != RunState::Running {
                self.live = false;
                self.meta = known.meta;
            }
        }
    }

    /// The window that a frame of `rows` rows shows; scrolling and paging go
    /// by it from then on.
    pub fn frame(&mut self, rows: usize) -> (res: Window)
        requires
            old(self)@.wf(),
        ensures
            final(self)@ == old(self)@.framed(rows as nat),
            final(self)@.wf(),
            res.start == final(self)@.scroll,
            res.end == at_most(final(self)@.scroll + rows as nat, final(self)@.lines.len()),
            res.start <= res.end <= final(self)@.lines.len(),
            match res.overlay {
                Some((row, text)) => overlay_of(final(self)@, res.start as int, res.end as int)
                    == Some((row as int, text@)),
                None => overlay_of(final(self)@, res.start as int, res.end as int) is None,
            },
    {
        let count: usize = self.lines.len();
        let last: usize = count.saturating_sub(rows);
        self.height = rows;
        if self.scroll > last {
            self.scroll = last;
        }
        let start: usize = self.scroll;
        let end: usize = if count - start < rows {
            count
        } else {
            start + rows
        };
        proof {
            lemma_matching_bound(self@.stripped, self@.query);
        }
        let overlay = if self.matches.len() > 0 {
            let line: usize = self.matches[self.match_idx];
            if start <= line && line < end {
                Some((line - start, self.stripped[line].clone()))
            } else {
                None
            }
        } else {
            None
        };
        Window { start, end, overlay }
    }
}

// ----------------------------------------------------------------- laws --

/// `N` undoes `n`, and `n` undoes `N`: they walk the matches in a circle.
pub proof fn law_matches_are_a_circle(v: ViewerView)
    requires
        v.wf(),
        v.matches.len() > 0,
    ensures
        v.keyed(Key::Char('n')).keyed(Key::Char('N')) == v.at_match(v.match_idx),
        v.keyed(Key::Char('N')).keyed(Key::Char('n')) == v.at_match(v.match_idx),
{
}

/// Scrolling unpins the view, `G` pins a live one again and shows the bottom,
/// and `f` turns following on and off.
pub proof fn law_following(v: ViewerView, key: Key)
    ensures
        key == Key::Char('j') || key == Key::Char('k') || key == Key::Char('d') || key == Key::Char(
            'u',
        ) || key == Key::Char('g') || key == Key::Up || key == Key::Down || key == Key::PageUp || key
            == Key::PageDown ==> !v.keyed(key).follow,
        v.keyed(Key::Char('G')).follow == v.live,
        v.keyed(Key::Char('G')).scroll == v.bottom(),
        v.live ==> v.keyed(Key::Char('f')).follow == !v.follow,
        v.live && !v.follow ==> v.keyed(Key::Char('f')).scroll == v.bottom(),
        v.live ==> v.keyed(Key::Char('f')).keyed(Key::Char('f')).follow == v.follow,
{
}

/// No key changes what the log holds, nor what was searched for.
pub proof fn law_keys_keep_the_log(v: ViewerView, key: Key)
    ensures
        v.keyed(key).lines == v.lines,
        v.keyed(key).stripped == v.stripped,
        v.keyed(key).meta == v.meta,
        v.keyed(key).matches == v.matches,
        v.keyed(key).query == v.query,
        v.keyed(key).live == v.live,
{
}

/// Keys that move down stop where the last page fills the screen.
pub proof fn law_scrolling_stops_at_the_bottom(v: ViewerView, key: Key)
    requires
        key == Key::Char('j') || key == Key::Down || key == Key::Char('d') || key == Key::PageDown
            || key == Key::Char('G'),
    ensures
        v.keyed(key).scroll <= v.bottom(),
{
}

/// A view that follows stays at the bottom as output arrives; one that does
/// not stays where it is.
pub proof fn law_tailing(
    v: ViewerView,
    tick: u64,
    size: u64,
    bytes: Seq<u8>,
    truncated: bool,
    meta: Option<(RunView, bool)>,
)
    requires
        v.live,
        size != v.last_size,
    ensures
        ({
            let next = v.polled(tick, size, Some((bytes, truncated)), meta);
            &&& next.lines == shown_lines(normalized(bytes))
            &&& next.stripped == plain_lines(normalized(bytes))
            &&& next.last_size == size
            &&& v.follow ==> next.scroll == next.bottom()
            &&& !v.follow ==> next.scroll == v.scroll
            &&& next.follow == v.follow
        }),
{
}

/// While the log does not grow, nothing is decoded again; and a run that is
/// over is not looked at any more.
pub proof fn law_quiet_logs_are_left_alone(
    v: ViewerView,
    tick: u64,
    size: u64,
    log: Option<(Seq<u8>, bool)>,
    meta: Option<(RunView, bool)>,
)
    ensures
        size == v.last_size ==> v.polled(tick, size, log, meta).lines == v.lines && v.polled(
            tick,
            size,
            log,
            meta,
        ).scroll == v.scroll,
        !v.live ==> v.polled(tick, size, log, meta) == v,
        v.polled(tick, size, log, meta).live ==> v.live,
{
}

/// The viewer notices in a tick that is a multiple of ten that the capture is
/// over, and takes its final record.
pub proof fn law_finish_is_noticed(
    v: ViewerView,
    tick: u64,
    size: u64,
    log: Option<(Seq<u8>, bool)>,
    meta: RunView,
    alive: bool,
)
    requires
        v.live,
        tick % 10 == 0,
        meta.state(alive) != RunState::Running,
    ensures
        !v.polled(tick, size, log, Some((meta, alive))).live,
        v.polled(tick, size, log, Some((meta, alive))).meta == meta,
{
}

/// A search hit opens scrolled to its line, at most three lines below the top,
/// with that match as the current one.
pub proof fn law_hits_open_at_their_line(
    meta: RunView,
    alive: bool,
    line: usize,
    query: Seq<char>,
    bytes: Seq<u8>,
    truncated: bool,
    size: u64,
)
    requires
        line < plain_lines(normalized(bytes)).len() <= usize::MAX,
        folded(query).len() > 0,
        mentions(plain_lines(normalized(bytes))[line as int], folded(query)),
    ensures
        ({
            let v = opened(meta, alive, Some(line), Some(query), true, bytes, truncated, size);
            &&& v.scroll <= line <= v.scroll + 3
            &&& v.match_idx < v.matches.len()
            &&& v.matches[v.match_idx as int] == line
            &&& !v.follow
            &&& v.from_results
        }),
{
    let stripped = plain_lines(normalized(bytes));
    let needle = folded(query);
    law_matches_are_the_mentions(stripped, needle);
    let found = matching(stripped, needle);
    assert(found.contains(line));
    let at = choose|k: int| 0 <= k < found.len() && found[k] == line;
    let p = |m: usize| m == line;
    assert forall|k: int| 0 <= k < at implies !p(#[trigger] found[k]) by {
        assert(found[k] < found[at]);
    }
    lemma_first_index(found, p, at as nat);
}

/// A frame of at least four rows shows the current match that the view was
/// moved to, highlighted, wherever the log has that line.
pub proof fn law_matches_are_highlighted(v: ViewerView, rows: nat)
    requires
        v.wf(),
        v.matches.len() > 0,
        rows >= 4,
        v.scroll == minus(v.matches[v.match_idx as int] as nat, 3),
        v.matches[v.match_idx as int] < v.lines.len(),
    ensures
        ({
            let next = v.framed(rows);
            let line = v.matches[v.match_idx as int] as int;
            let end = at_most(next.scroll + rows, next.lines.len());
            overlay_of(next, next.scroll as int, end as int) == Some(
                (line - next.scroll, v.stripped[line]),
            )
        }),
{
}

/// A live run opens pinned to its tail.
pub proof fn law_live_runs_open_pinned(
    meta: RunView,
    bytes: Seq<u8>,
    truncated: bool,
    size: u64,
)
    requires
        meta.state(true) == RunState::Running,
    ensures
        ({
            let v = opened(meta, true, None, None, false, bytes, truncated, size);
            v.live && v.follow && v.scroll == v.bottom()
        }),
{
}

/// The window of a frame lies inside the log, and no row stays empty that a
/// line could fill.
pub proof fn law_windows_are_full(v: ViewerView, rows: nat)
    ensures
        v.framed(rows).scroll <= v.lines.len(),
        v.lines.len() >= rows ==> v.framed(rows).scroll + rows <= v.lines.len(),
        v.lines.len() <= rows ==> v.framed(rows).scroll == 0,
        v.framed(rows).framed(rows) == v.framed(rows),
{
}

} // verus!
