//! The lifeguard: the den over HTTP, so that a capture can be watched live
//! from any browser on the tailnet. Read-only by construction: a request is
//! answered from what the store holds, and nothing here changes it.
use crate::store::{
    flying, known_views, leaked, ops, FileOp, Known, Marker, RunState, RunView, Store,
};
use crate::text::{
    after_char, after_prefix, ascii_lower, ascii_lowered, before_char, chars_of, decimal,
    head_before, lines, lines_of, push_decimal, read_text, same, split_once, starts_with, text_in,
    texts, trim, trimmed, words, words_of,
};
use vstd::prelude::*;

verus! {

/// A character that a run id may hold.
pub open spec fn id_char(c: char) -> bool {
    '0' <= c <= '9' || c == '-'
}

/// What may name a run: digits and dashes, at least one.
pub open spec fn is_run_id(id: Seq<char>) -> bool {
    id.len() > 0 && forall|k: int| 0 <= k < id.len() ==> id_char(#[trigger] id[k])
}

fn fits_id(c: char) -> (res: bool)
    ensures
        res == id_char(c),
{
    let u: u32 = c as u32;
    (0x30 <= u && u <= 0x39) || u == 0x2d
}

/// Run ids are `{millis:013}-{pid:05}`; anything else is not a run and must
/// never reach the filesystem (no `../` games).
pub fn valid_id(id: &str) -> (res: bool)
    ensures
        res == is_run_id(id@),
{
    let v = chars_of(id);
    if v.len() == 0 {
        return false;
    }
    let mut i: usize = 0;
    while i < v.len()
        invariant
            i <= v@.len(),
            v@ == id@,
            forall|k: int| 0 <= k < i ==> id_char(#[trigger] v@[k]),
        decreases v@.len() - i,
    {
        if !fits_id(v[i]) {
            assert(!id_char(v@[i as int]));
            return false;
        }
        i = i + 1;
    }
    true
}

// ----------------------------------------------------------------- HTML --

/// What stands in HTML for a character.
pub open spec fn esc_char(c: char) -> Seq<char> {
    if c == '&' {
        "&amp;"@
    } else if c == '<' {
        "&lt;"@
    } else if c == '>' {
        "&gt;"@
    } else if c == '"' {
        "&quot;"@
    } else {
        seq![c]
    }
}

/// What stands in HTML for a text.
pub open spec fn escaped(s: Seq<char>) -> Seq<char>
    decreases s.len(),
{
    if s.len() == 0 {
        seq![]
    } else {
        escaped(s.drop_last()) + esc_char(s.last())
    }
}

/// HTML-escape user-controlled text (captured command lines).
pub fn esc(s: &str) -> (res: String)
    ensures
        res@ == escaped(s@),
{
    let v = chars_of(s);
    let mut out = String::new();
    let mut i: usize = 0;
    while i < v.len()
        invariant
            i <= v@.len(),
            out@ == escaped(v@.take(i as int)),
        decreases v@.len() - i,
    {
        let c = v[i];
        if c == '&' {
            out.push_str("&amp;");
        } else if c == '<' {
            out.push_str("&lt;");
        } else if c == '>' {
            out.push_str("&gt;");
        } else if c == '"' {
            out.push_str("&quot;");
        } else {
            out.push(c);
        }
        i = i + 1;
        proof {
            let t = v@.take(i as int);
            assert(t.drop_last() =~= v@.take(i - 1));
            assert(t.last() == c);
            assert(out@ =~= escaped(t));
        }
    }
    assert(v@.take(i as int) =~= v@);
    out
}

pub const INDEX_HEAD: &'static str = "<!DOCTYPE html>\n<html lang=\"en\">\n<head>\n<meta charset=\"utf-8\">\n<meta name=\"viewport\" content=\"width=device-width, initial-scale=1\">\n<title>otterm — the den</title>\n<link rel=\"stylesheet\" href=\"/assets/den.css\">\n</head>\n<body>\n<header>🦦 the den <span class=sub>— live from the lifeguard. stay cool.</span></header>\n";

pub const INDEX_EMPTY: &'static str = "<p class=empty>no captures yet — <code>otterm run -- your-command</code> and it'll show up here.</p>";

pub const INDEX_TAIL: &'static str = "</body>\n</html>\n";

/// The mark of a run that is still going.
pub open spec fn dot_html(state: RunState) -> Seq<char> {
    if state == RunState::Running {
        "<span class=live>●</span>"@
    } else {
        ""@
    }
}

/// The mark of how a run went.
pub open spec fn status_html(exit_code: Option<i32>) -> Seq<char> {
    match exit_code {
        Some(code) => if code == 0 {
            "<span class=ok>✓</span>"@
        } else {
            "<span class=err>✗</span>"@
        },
        None => ""@,
    }
}

/// A run's line on the index page.
pub open spec fn row_html(m: RunView, state: RunState) -> Seq<char> {
    "<a class=run href=\"/watch/"@ + escaped(m.id) + "\">"@ + dot_html(state) + "<code>"@ + escaped(
        m.cmdline(),
    ) + "</code><span class=meta>"@ + status_html(m.exit_code) + " "@ + decimal(m.bytes as nat)
        + " B</span></a>\n"@
}

/// The lines of runs, one after the other.
pub open spec fn rows_html(runs: Seq<(RunView, bool)>) -> Seq<char>
    decreases runs.len(),
{
    if runs.len() == 0 {
        seq![]
    } else {
        rows_html(runs.drop_last()) + row_html(runs.last().0, runs.last().0.state(runs.last().1))
    }
}

/// The index page: the captures in flight, then the library newest first.
/// With each run comes whether its process lives.
pub open spec fn index_html(running: Seq<(RunView, bool)>, runs: Seq<(RunView, bool)>) -> Seq<char> {
    INDEX_HEAD@ + (if running.len() == 0 && runs.len() == 0 {
        INDEX_EMPTY@
    } else {
        seq![]
    }) + rows_html(running) + rows_html(runs.reverse()) + INDEX_TAIL@
}

fn push_row(html: &mut String, run: &Known)
    ensures
        final(html)@ == old(html)@ + row_html(run.meta@, run.meta@.state(run.alive)),
{
    html.push_str("<a class=run href=\"/watch/");
    html.push_str(esc(run.meta.id.as_str()).as_str());
    html.push_str("\">");
    let dot = if run.meta.state(run.alive) == RunState::Running {
        "<span class=live>●</span>"
    } else {
        ""
    };
    html.push_str(dot);
    html.push_str("<code>");
    html.push_str(esc(run.meta.cmdline().as_str()).as_str());
    html.push_str("</code><span class=meta>");
    let status = match run.meta.exit_code {
        Some(code) => if code == 0 {
            "<span class=ok>✓</span>"
        } else {
            "<span class=err>✗</span>"
        },
        None => "",
    };
    html.push_str(status);
    html.push_str(" ");
    push_decimal(html, run.meta.bytes);
    html.push_str(" B</span></a>\n");
    assert(html@ =~= old(html)@ + row_html(run.meta@, run.meta@.state(run.alive)));
}

/// The den, rendered per request: live captures first, then the library,
/// `runs`, which comes oldest first, newest first.
pub fn render_index(running: &Vec<Known>, runs: &Vec<Known>) -> (res: String)
    ensures
        res@ == index_html(known_views(running@), known_views(runs@)),
{
    let mut html = INDEX_HEAD.to_owned();
    if running.len() == 0 && runs.len() == 0 {
        html.push_str(INDEX_EMPTY);
    }
    let ghost top = html@;
    let ghost first = known_views(running@);
    let mut i: usize = 0;
    while i < running.len()
        invariant
            i <= running@.len(),
            first == known_views(running@),
            html@ == top + rows_html(first.take(i as int)),
        decreases running@.len() - i,
    {
        push_row(&mut html, &running[i]);
        i = i + 1;
        proof {
            let t = first.take(i as int);
            assert(t.drop_last() =~= first.take(i - 1));
            assert(t.last() == running@[i - 1]@);
            assert(html@ =~= top + rows_html(t));
        }
    }
    assert(first.take(i as int) =~= first);
    let ghost mid = html@;
    let ghost back = known_views(runs@).reverse();
    let mut left: usize = runs.len();
    while left > 0
        invariant
            left <= runs@.len(),
            back == known_views(runs@).reverse(),
            html@ == mid + rows_html(back.take(runs@.len() - left)),
        decreases left,
    {
        left = left - 1;
        push_row(&mut html, &runs[left]);
        proof {
            let t = back.take(runs@.len() - left);
            assert(t.drop_last() =~= back.take(runs@.len() - left - 1));
            assert(t.last() == runs@[left as int]@);
            assert(html@ =~= mid + rows_html(t));
        }
    }
    assert(back.take(runs@.len() as int) =~= back);
    html.push_str(INDEX_TAIL);
    assert(html@ =~= index_html(first, known_views(runs@)));
    html
}

/// The index page, and the changes that go with it: none but the removal of
/// markers that stand for nothing any more.
pub struct IndexPage {
    pub html: String,
    pub changes: Vec<FileOp>,
}

/// The index page of `store`, from what was read of it: its markers, and its
/// library, oldest first.
pub fn index_page(store: &Store, markers: &Vec<Marker>, runs: &Vec<Known>) -> (res: IndexPage)
    ensures
        res.html@ == index_html(flying(markers@), known_views(runs@)),
        ops(res.changes@) == leaked(store.root(), markers@),
{
    let mut running: Vec<Known> = Vec::new();
    let mut i: usize = 0;
    assert(known_views(running@) =~= seq![]);
    while i < markers.len()
        invariant
            i <= markers@.len(),
            known_views(running@) == flying(markers@.take(i as int)),
        decreases markers@.len() - i,
    {
        assert(markers@.take(i + 1).drop_last() =~= markers@.take(i as int));
        if let Some(m) = &markers[i].meta {
            if m.state(markers[i].alive) != RunState::Done {
                let run = Known { meta: m.clone(), alive: markers[i].alive };
                assert(known_views(running@.push(run)) =~= known_views(running@).push(run@));
                running.push(run);
            }
        }
        i = i + 1;
    }
    assert(markers@.take(i as int) =~= markers@);
    let sweep = store.list_running(markers);
    IndexPage { html: render_index(&running, runs), changes: sweep.stale }
}

// --------------------------------------------------------------- assets --

/// The scripts of the terminal that the watch page runs.
pub open spec fn is_script(name: Seq<char>) -> bool {
    ||| name == "core/index.js"@
    ||| name == "core/transport.js"@
    ||| name == "core/wasm-bridge.js"@
    ||| name == "core/wasm-inline.js"@
    ||| name == "core/terminal-core.js"@
    ||| name == "dom/index.js"@
    ||| name == "dom/wterm.js"@
    ||| name == "dom/debug.js"@
    ||| name == "dom/input.js"@
    ||| name == "dom/renderer.js"@
}

/// The file below the web directory that an asset's name stands for, and its
/// type; none for a name that is no asset.
pub open spec fn asset_of(name: Seq<char>) -> Option<(Seq<char>, Seq<char>)> {
    if is_script(name) {
        Some(("wterm/"@ + name, "text/javascript"@))
    } else if name == "dom/terminal.css"@ {
        Some(("wterm/"@ + name, "text/css"@))
    } else if name == "den.css"@ {
        Some((name, "text/css"@))
    } else {
        None
    }
}

/// The vendored terminal and the den's own styles: the file and its type.
pub fn asset(name: &str) -> (res: Option<(String, &'static str)>)
    ensures
        match res {
            Some(found) => asset_of(name@) == Some((found.0@, found.1@)),
            None => asset_of(name@) is None,
        },
{
    let script = same(name, "core/index.js")
        || same(name, "core/transport.js")
        || same(name, "core/wasm-bridge.js")
        || same(name, "core/wasm-inline.js")
        || same(name, "core/terminal-core.js")
        || same(name, "dom/index.js")
        || same(name, "dom/wterm.js")
        || same(name, "dom/debug.js")
        || same(name, "dom/input.js")
        || same(name, "dom/renderer.js");
    if script || same(name, "dom/terminal.css") {
        let mut file = "wterm/".to_owned();
        file.push_str(name);
        if script {
            Some((file, "text/javascript"))
        } else {
            Some((file, "text/css"))
        }
    } else if same(name, "den.css") {
        Some((name.to_owned(), "text/css"))
    } else {
        None
    }
}

// ------------------------------------------------------------- requests --

/// One GET request.
pub struct Request {
    pub path: String,
    pub headers: Vec<(String, String)>,
}

/// What the headers hold.
pub open spec fn header_views(v: Seq<(String, String)>) -> Seq<(Seq<char>, Seq<char>)> {
    v.map_values(|h: (String, String)| (h.0@, h.1@))
}

/// The value of the first header named `name`.
pub open spec fn header_of(headers: Seq<(Seq<char>, Seq<char>)>, name: Seq<char>) -> Option<Seq<char>>
    decreases headers.len(),
{
    if headers.len() == 0 {
        None
    } else if headers[0].0 == name {
        Some(headers[0].1)
    } else {
        header_of(headers.drop_first(), name)
    }
}

impl Request {
    pub fn header(&self, name: &str) -> (res: Option<&str>)
        ensures
            match res {
                Some(v) => header_of(header_views(self.headers@), name@) == Some(v@),
                None => header_of(header_views(self.headers@), name@) is None,
            },
    {
        let ghost all = header_views(self.headers@);
        let mut i: usize = 0;
        assert(all.skip(0) =~= all);
        while i < self.headers.len()
            invariant
                i <= self.headers@.len(),
                all == header_views(self.headers@),
                header_of(all, name@) == header_of(all.skip(i as int), name@),
            decreases self.headers@.len() - i,
        {
            assert(all.skip(i as int)[0] == (
                self.headers@[i as int].0@,
                self.headers@[i as int].1@,
            ));
            if same(self.headers[i].0.as_str(), name) {
                return Some(self.headers[i].1.as_str());
            }
            assert(all.skip(i as int).drop_first() =~= all.skip(i + 1));
            i = i + 1;
        }
        None
    }
}

/// How many header lines are read at most: this is a den server, not a public
/// web server.
pub const MAX_HEADER_LINES: usize = 64;

/// A request as far as it has been read.
pub struct RequestReader {
    path: Option<String>,
    headers: Vec<(String, String)>,
    seen: usize,
}

/// A request as far as it has been read: its path once the first line is in,
/// its headers, and how many lines came after the first.
pub ghost struct Reading {
    pub path: Option<Seq<char>>,
    pub headers: Seq<(Seq<char>, Seq<char>)>,
    pub seen: nat,
}

/// What a line makes of a request.
pub enum Fed {
    /// Read another line.
    More(RequestReader),
    /// The request is complete.
    Complete(Request),
    /// The client hung up before it said anything.
    Closed,
    /// This is no request that is answered.
    Bad(&'static str),
}

pub ghost enum FedView {
    More(Reading),
    Complete(Seq<char>, Seq<(Seq<char>, Seq<char>)>),
    Closed,
    Bad(Seq<char>),
}

impl View for Fed {
    type V = FedView;

    open spec fn view(&self) -> FedView {
        match *self {
            Fed::More(r) => FedView::More(r@),
            Fed::Complete(q) => FedView::Complete(q.path@, header_views(q.headers@)),
            Fed::Closed => FedView::Closed,
            Fed::Bad(why) => FedView::Bad(why@),
        }
    }
}

impl View for RequestReader {
    type V = Reading;

    closed spec fn view(&self) -> Reading {
        Reading {
            path: match self.path {
                Some(p) => Some(p@),
                None => None,
            },
            headers: header_views(self.headers@),
            seen: self.seen as nat,
        }
    }
}

/// What the request line makes of a request.
pub open spec fn request_line(line: Seq<char>) -> FedView {
    let parts = words(line);
    if line.len() == 0 {
        FedView::Closed
    } else if parts.len() < 3 {
        FedView::Bad("bad request line"@)
    } else if parts[0] != "GET"@ {
        FedView::Bad("method not allowed"@)
    } else {
        FedView::More(Reading { path: Some(parts[1]), headers: seq![], seen: 0 })
    }
}

/// The header on a line: its name, trimmed and in lower case, and its value,
/// trimmed.
pub open spec fn header_line(line: Seq<char>) -> (Seq<char>, Seq<char>) {
    (
        trim(before_char(line, ':')).map_values(|c: char| ascii_lower(c)),
        trim(after_char(line, ':')),
    )
}

impl Reading {
    /// Whether more lines are to be read: the header lines are capped.
    pub open spec fn open(self) -> bool {
        self.seen < MAX_HEADER_LINES && self.headers.len() <= self.seen && (self.path is None
            ==> self.seen == 0)
    }

    /// What the next line makes of the request; an empty `line` is the end of
    /// the stream.
    pub open spec fn fed(self, line: Seq<char>) -> FedView {
        if self.path is None {
            request_line(line)
        } else if line.len() == 0 || line == "\r\n"@ {
            FedView::Complete(self.path.unwrap(), self.headers)
        } else {
            let headers = if line.contains(':') {
                self.headers.push(header_line(line))
            } else {
                self.headers
            };
            if self.seen + 1 == MAX_HEADER_LINES {
                FedView::Complete(self.path.unwrap(), headers)
            } else {
                FedView::More(Reading { path: self.path, headers, seen: self.seen + 1 })
            }
        }
    }
}

impl RequestReader {
    pub fn new() -> (res: RequestReader)
        ensures
            res@ == (Reading { path: None, headers: seq![], seen: 0 }),
            res@.open(),
    {
        let res = RequestReader { path: None, headers: Vec::new(), seen: 0 };
        assert(header_views(res.headers@) =~= seq![]);
        res
    }

    /// Takes the next line, its line end included; an empty one is the end of
    /// the stream.
    pub fn feed(self, line: &str) -> (res: Fed)
        requires
            self@.open(),
        ensures
            res@ == self@.fed(line@),
            res matches Fed::More(r) ==> r@.open(),
            res matches Fed::Complete(q) ==> q.headers@.len() <= MAX_HEADER_LINES,
    {
        match self.path {
            None => {
                if line.is_empty() {
                    return Fed::Closed;
                }
                let parts = words_of(line);
                assert(texts(parts@).len() == parts@.len());
                if parts.len() < 3 {
                    return Fed::Bad("bad request line");
                }
                assert(texts(parts@)[0] == parts@[0]@ && texts(parts@)[1] == parts@[1]@);
                if !same(parts[0].as_str(), "GET") {
                    return Fed::Bad("method not allowed");
                }
                let next = RequestReader {
                    path: Some(parts[1].clone()),
                    headers: Vec::new(),
                    seen: 0,
                };
                assert(header_views(next.headers@) =~= seq![]);
                Fed::More(next)
            },
            Some(path) => {
                let mut headers = self.headers;
                if line.is_empty() || same(line, "\r\n") {
                    return Fed::Complete(Request { path, headers });
                }
                if let Some((k, v)) = split_once(line, ':') {
                    let name = trimmed(k.as_str());
                    let h = (ascii_lowered(name.as_str()), trimmed(v.as_str()));
                    proof {
                        assert(header_views(headers@.push(h)) =~= header_views(headers@).push(
                            header_line(line@),
                        ));
                    }
                    headers.push(h);
                }
                if self.seen + 1 == MAX_HEADER_LINES {
                    Fed::Complete(Request { path, headers })
                } else {
                    Fed::More(RequestReader { path: Some(path), headers, seen: self.seen + 1 })
                }
            },
        }
    }
}

// ------------------------------------------------------------ responses --

/// What a response carries.
pub enum Body {
    /// The index page.
    Index,
    /// The watch page.
    Watch,
    /// A file below the web directory.
    Asset(String),
    Text(&'static str),
}

pub struct Response {
    pub status: u16,
    pub mime: &'static str,
    pub body: Body,
}

pub ghost enum BodyView {
    Index,
    Watch,
    Asset(Seq<char>),
    Text(Seq<char>),
}

pub ghost struct ResponseView {
    pub status: u16,
    pub mime: Seq<char>,
    pub body: BodyView,
}

impl View for Response {
    type V = ResponseView;

    open spec fn view(&self) -> ResponseView {
        ResponseView {
            status: self.status,
            mime: self.mime@,
            body: match self.body {
                Body::Index => BodyView::Index,
                Body::Watch => BodyView::Watch,
                Body::Asset(file) => BodyView::Asset(file@),
                Body::Text(t) => BodyView::Text(t@),
            },
        }
    }
}

/// Where a request leads.
pub enum Routed {
    Answer(Response),
    /// The stream of the run of that name, for `stream_answer`.
    Stream(String),
}

pub ghost enum RoutedView {
    Answer(ResponseView),
    Stream(Seq<char>),
}

impl View for Routed {
    type V = RoutedView;

    open spec fn view(&self) -> RoutedView {
        match *self {
            Routed::Answer(r) => RoutedView::Answer(r@),
            Routed::Stream(id) => RoutedView::Stream(id@),
        }
    }
}

pub open spec fn page(body: BodyView) -> ResponseView {
    ResponseView { status: 200, mime: "text/html; charset=utf-8"@, body }
}

pub open spec fn plain(status: u16, text: Seq<char>) -> ResponseView {
    ResponseView { status, mime: "text/plain"@, body: BodyView::Text(text) }
}

/// Where a request for `target` leads: what follows a `?` in it does not
/// matter.
pub open spec fn answer(target: Seq<char>) -> RoutedView {
    let path = before_char(target, '?');
    if path == "/"@ {
        RoutedView::Answer(page(BodyView::Index))
    } else if starts_with(path, "/watch/"@) {
        if is_run_id(path.skip("/watch/"@.len() as int)) {
            RoutedView::Answer(page(BodyView::Watch))
        } else {
            RoutedView::Answer(plain(404, "no such run"@))
        }
    } else if starts_with(path, "/assets/"@) {
        match asset_of(path.skip("/assets/"@.len() as int)) {
            Some((file, mime)) => RoutedView::Answer(
                ResponseView { status: 200, mime, body: BodyView::Asset(file) },
            ),
            None => RoutedView::Answer(plain(404, "not found"@)),
        }
    } else if starts_with(path, "/stream/"@) {
        RoutedView::Stream(path.skip("/stream/"@.len() as int))
    } else {
        RoutedView::Answer(plain(404, "not found"@))
    }
}

fn html(body: Body) -> (res: Routed)
    ensures
        res matches Routed::Answer(r) && r.status == 200 && r.mime@ == "text/html; charset=utf-8"@
            && r.body == body,
{
    Routed::Answer(Response { status: 200, mime: "text/html; charset=utf-8", body })
}

/// A short answer in plain text.
pub fn plain_text(status: u16, text: &'static str) -> (res: Response)
    ensures
        res@ == plain(status, text@),
{
    Response { status, mime: "text/plain", body: Body::Text(text) }
}

/// Where a request for `target` leads.
pub fn respond(target: &str) -> (res: Routed)
    ensures
        res@ == answer(target@),
{
    let path = head_before(target, '?');
    if same(path.as_str(), "/") {
        html(Body::Index)
    } else if let Some(id) = after_prefix(path.as_str(), "/watch/") {
        if valid_id(id.as_str()) {
            html(Body::Watch)
        } else {
            Routed::Answer(plain_text(404, "no such run"))
        }
    } else if let Some(name) = after_prefix(path.as_str(), "/assets/") {
        match asset(name.as_str()) {
            Some((file, mime)) => Routed::Answer(
                Response { status: 200, mime, body: Body::Asset(file) },
            ),
            None => Routed::Answer(plain_text(404, "not found")),
        }
    } else if let Some(id) = after_prefix(path.as_str(), "/stream/") {
        Routed::Stream(id)
    } else {
        Routed::Answer(plain_text(404, "not found"))
    }
}

/// The reason phrase of a status.
pub open spec fn reason(status: u16) -> Seq<char> {
    if status == 200 {
        "OK"@
    } else if status == 400 {
        "Bad Request"@
    } else if status == 404 {
        "Not Found"@
    } else {
        "Error"@
    }
}

/// The head of a response with a body of `len` bytes.
pub open spec fn head_text(status: u16, mime: Seq<char>, len: nat) -> Seq<char> {
    "HTTP/1.1 "@ + decimal(status as nat) + " "@ + reason(status) + "\r\ncontent-type: "@ + mime
        + "\r\ncontent-length: "@ + decimal(len) + "\r\nconnection: close\r\n\r\n"@
}

pub fn response_head(status: u16, mime: &str, len: usize) -> (res: String)
    ensures
        res@ == head_text(status, mime@, len as nat),
{
    let phrase = match status {
        200 => "OK",
        400 => "Bad Request",
        404 => "Not Found",
        _ => "Error",
    };
    let mut out = "HTTP/1.1 ".to_owned();
    push_decimal(&mut out, status as u64);
    out.push_str(" ");
    out.push_str(phrase);
    out.push_str("\r\ncontent-type: ");
    out.push_str(mime);
    out.push_str("\r\ncontent-length: ");
    push_decimal(&mut out, len as u64);
    out.push_str("\r\nconnection: close\r\n\r\n");
    assert(out@ =~= head_text(status, mime@, len as nat));
    out
}

// ------------------------------------------------------------- address --

/// Where the server listens, and what it warns of.
pub struct Listen {
    pub addr: String,
    pub warning: Option<&'static str>,
}

/// The addresses that stand for every interface of a machine.
pub open spec fn everywhere(addr: Seq<char>) -> bool {
    addr == "0.0.0.0"@ || addr == "::"@ || addr == "[::]"@
}

pub const EVERYWHERE_WARNING: &'static str = "WARNING — listening on all interfaces; anyone who can reach this machine can watch your captures.";

pub const NO_TAILNET: &'static str = "no tailnet address to listen on — is the tailnet up? (--bind names another)";

/// The first address that `tailscale ip -4` printed; none where it is empty.
pub open spec fn tailnet_addr(printed: Seq<u8>) -> Option<Seq<char>> {
    let rows = lines(text_in(printed));
    if rows.len() > 0 && trim(rows[0]).len() > 0 {
        Some(trim(rows[0]))
    } else {
        None
    }
}

/// Where to listen: at the address that was asked for, else at this machine's
/// address on the tailnet. Loopback has to be asked for.
pub open spec fn listen_addr(asked: Option<Seq<char>>, printed: Option<Seq<u8>>) -> Option<
    Seq<char>,
> {
    match asked {
        Some(addr) => Some(addr),
        None => match printed {
            Some(bytes) => tailnet_addr(bytes),
            None => None,
        },
    }
}

/// Where to listen. `asked` is the address on the command line; `printed` is
/// what `tailscale ip -4` printed, none where it did not answer.
pub fn listen_on(asked: Option<&str>, printed: Option<&[u8]>) -> (res: Result<Listen, &'static str>)
    ensures
        ({
            let addr = listen_addr(
                match asked {
                    Some(a) => Some(a@),
                    None => None,
                },
                match printed {
                    Some(p) => Some(p@),
                    None => None,
                },
            );
            match res {
                Ok(l) => {
                    &&& addr == Some(l.addr@)
                    &&& match l.warning {
                        Some(w) => everywhere(l.addr@) && w@ == EVERYWHERE_WARNING@,
                        None => !everywhere(l.addr@),
                    }
                },
                Err(why) => addr is None && why@ == NO_TAILNET@,
            }
        }),
{
    let addr = match asked {
        Some(a) => a.to_owned(),
        None => {
            let bytes = match printed {
                Some(p) => p,
                None => {
                    return Err(NO_TAILNET);
                },
            };
            let rows = lines_of(read_text(bytes).as_str());
            assert(texts(rows@).len() == rows@.len());
            if rows.len() == 0 {
                return Err(NO_TAILNET);
            }
            assert(texts(rows@)[0] == rows@[0]@);
            let first = trimmed(rows[0].as_str());
            if first.as_str().is_empty() {
                return Err(NO_TAILNET);
            }
            first
        },
    };
    let wide = same(addr.as_str(), "0.0.0.0") || same(addr.as_str(), "::") || same(
        addr.as_str(),
        "[::]",
    );
    let warning = if wide {
        Some(EVERYWHERE_WARNING)
    } else {
        None
    };
    Ok(Listen { addr, warning })
}

// ----------------------------------------------------------------- laws --

/// Escaped text cannot open or close a tag, nor end an attribute.
pub proof fn law_escaped_text_is_inert(s: Seq<char>)
    ensures
        forall|k: int|
            0 <= k < escaped(s).len() ==> {
                let c = #[trigger] escaped(s)[k];
                c != '<' && c != '>' && c != '"'
            },
    decreases s.len(),
{
    if s.len() > 0 {
        reveal_strlit("&amp;");
        reveal_strlit("&lt;");
        reveal_strlit("&gt;");
        reveal_strlit("&quot;");
        law_escaped_text_is_inert(s.drop_last());
        let head = escaped(s.drop_last());
        let tail = esc_char(s.last());
        assert forall|k: int| 0 <= k < escaped(s).len() implies {
            let c = #[trigger] escaped(s)[k];
            c != '<' && c != '>' && c != '"'
        } by {
            if k < head.len() {
                assert(escaped(s)[k] == head[k]);
            } else {
                assert(escaped(s)[k] == tail[k - head.len()]);
            }
        }
    }
}

/// A run id is a plain name: no part of it can lead out of a directory.
pub proof fn law_run_ids_are_plain_names(id: Seq<char>)
    requires
        is_run_id(id),
    ensures
        id.len() > 0,
        forall|k: int| 0 <= k < id.len() ==> id[k] != '/' && id[k] != '.' && id[k] != '\0',
        escaped(id) == id,
    decreases id.len(),
{
    assert forall|k: int| 0 <= k < id.len() implies id[k] != '/' && id[k] != '.' && id[k]
        != '\0' by {
        assert(id_char(id[k]));
    }
    assert(id_char(id.last()));
    assert(id =~= id.drop_last().push(id.last()));
    if id.len() > 1 {
        assert forall|k: int| 0 <= k < id.drop_last().len() implies id_char(
            #[trigger] id.drop_last()[k],
        ) by {
            assert(id_char(id[k]));
        }
        law_run_ids_are_plain_names(id.drop_last());
        assert(id.drop_last() + seq![id.last()] =~= id);
    } else {
        assert(escaped(id.drop_last()) =~= seq![]);
        assert(escaped(id) =~= seq![id.last()]);
    }
}

/// The watch page answers for run ids and for nothing else; every other name
/// below `/watch/` is answered with 404.
pub proof fn law_watch_is_for_runs(target: Seq<char>)
    ensures
        ({
            let path = before_char(target, '?');
            let id = path.skip("/watch/"@.len() as int);
            &&& answer(target) == RoutedView::Answer(page(BodyView::Watch)) <==> starts_with(
                path,
                "/watch/"@,
            ) && is_run_id(id)
            &&& starts_with(path, "/watch/"@) && !is_run_id(id) ==> answer(target)
                == RoutedView::Answer(plain(404, "no such run"@))
        }),
{
    reveal_strlit("/");
    reveal_strlit("/watch/");
}

/// A file is served only where the table of assets holds it, with its type.
pub proof fn law_assets_come_from_the_table(target: Seq<char>, answered: ResponseView, file: Seq<char>)
    requires
        answer(target) == RoutedView::Answer(answered),
        answered.body == BodyView::Asset(file),
    ensures
        starts_with(before_char(target, '?'), "/assets/"@),
        asset_of(before_char(target, '?').skip("/assets/"@.len() as int)) == Some(
            (file, answered.mime),
        ),
        answered.status == 200,
{
}

/// No asset lies outside the web directory: none starts with `/`, and no two
/// dots follow each other in one.
pub proof fn law_assets_stay_inside(name: Seq<char>)
    ensures
        asset_of(name) matches Some((file, _)) ==> file.len() > 0 && file[0] != '/' && forall|k: int|
            0 <= k < file.len() - 1 ==> !(file[k] == '.' && #[trigger] file[k + 1] == '.'),
{
    reveal_strlit("wterm/");
    if name == "core/index.js"@ {
        reveal_strlit("core/index.js");
    } else if name == "core/transport.js"@ {
        reveal_strlit("core/transport.js");
    } else if name == "core/wasm-bridge.js"@ {
        reveal_strlit("core/wasm-bridge.js");
    } else if name == "core/wasm-inline.js"@ {
        reveal_strlit("core/wasm-inline.js");
    } else if name == "core/terminal-core.js"@ {
        reveal_strlit("core/terminal-core.js");
    } else if name == "dom/index.js"@ {
        reveal_strlit("dom/index.js");
    } else if name == "dom/wterm.js"@ {
        reveal_strlit("dom/wterm.js");
    } else if name == "dom/debug.js"@ {
        reveal_strlit("dom/debug.js");
    } else if name == "dom/input.js"@ {
        reveal_strlit("dom/input.js");
    } else if name == "dom/renderer.js"@ {
        reveal_strlit("dom/renderer.js");
    } else if name == "dom/terminal.css"@ {
        reveal_strlit("dom/terminal.css");
    } else if name == "den.css"@ {
        reveal_strlit("den.css");
    }
}

/// Without an address on the command line the server listens on the tailnet
/// or not at all; one that is asked for is taken as it is.
pub proof fn law_listening_is_asked_for(asked: Option<Seq<char>>, printed: Option<Seq<u8>>)
    ensures
        asked is Some ==> listen_addr(asked, printed) == asked,
        asked is None && listen_addr(asked, printed) is Some ==> printed is Some
            && listen_addr(asked, printed) == tailnet_addr(printed.unwrap()),
{
}

/// The index page names every run: with its watch link and its escaped
/// command line, the captures in flight first, the newest of the library next.
pub proof fn law_index_lists_newest_first(
    running: Seq<(RunView, bool)>,
    runs: Seq<(RunView, bool)>,
    newest: (RunView, bool),
)
    ensures
        index_html(running, runs.push(newest)) == INDEX_HEAD@ + rows_html(running) + row_html(
            newest.0,
            newest.0.state(newest.1),
        ) + rows_html(runs.reverse()) + INDEX_TAIL@,
{
    let back = runs.push(newest).reverse();
    assert(back =~= seq![newest] + runs.reverse());
    lemma_rows_join(seq![newest], runs.reverse());
    assert(seq![newest].drop_last() =~= seq![]);
    assert(rows_html(seq![newest].drop_last()) =~= seq![]);
    assert(rows_html(seq![newest]) =~= row_html(newest.0, newest.0.state(newest.1)));
    assert(index_html(running, runs.push(newest)) =~= INDEX_HEAD@ + rows_html(running) + row_html(
        newest.0,
        newest.0.state(newest.1),
    ) + rows_html(runs.reverse()) + INDEX_TAIL@);
}

proof fn lemma_rows_join(a: Seq<(RunView, bool)>, b: Seq<(RunView, bool)>)
    ensures
        rows_html(a + b) == rows_html(a) + rows_html(b),
    decreases b.len(),
{
    if b.len() == 0 {
        assert(a + b =~= a);
        assert(rows_html(a) + rows_html(b) =~= rows_html(a));
    } else {
        assert((a + b).drop_last() =~= a + b.drop_last());
        lemma_rows_join(a, b.drop_last());
        assert(rows_html(a + b) =~= rows_html(a) + rows_html(b));
    }
}

} // verus!
