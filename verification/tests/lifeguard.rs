//! The read-only web server: pages, routes, requests.
use otterm::serve::{
    asset, esc, index_page, listen_on, render_index, respond, response_head, valid_id, Body, Fed,
    Request, RequestReader, Response, Routed, EVERYWHERE_WARNING, NO_TAILNET,
};
use otterm::store::{FileOp, Known, Marker, RunMeta, RunState, Store};
use otterm::stream::{stream_answer, stream_step, stream_turn, Heard, Inbox, Next, Upgrade};
use otterm::web::{DEN_CSS, WATCH_HTML};
use otterm::ws::{
    accept_key, encode, parse_frame, MAX_MESSAGE, OP_BINARY, OP_CLOSE, OP_CONT, OP_PING, OP_PONG,
    OP_TEXT,
};

fn meta(id: &str, cmdline: &str) -> RunMeta {
    RunMeta {
        id: id.to_owned(),
        cmd: cmdline.split(' ').map(String::from).collect(),
        cwd: "/tmp".into(),
        started_ms: 1_700_000_000_000,
        duration_ms: 5,
        exit_code: Some(0),
        bytes: 3,
        done: true,
        pid: None,
    }
}

fn known(meta: RunMeta, alive: bool) -> Known {
    Known { meta, alive }
}

/// Reads a raw request line by line.
fn read(raw: &str) -> Fed {
    let mut reader = RequestReader::new();
    let mut lines = raw.split_inclusive('\n');
    loop {
        match reader.feed(lines.next().unwrap_or("")) {
            Fed::More(next) => reader = next,
            done => return done,
        }
    }
}

fn complete(raw: &str) -> Request {
    match read(raw) {
        Fed::Complete(request) => request,
        _ => panic!("no request: {raw}"),
    }
}

/// The answer to a request that does not stream.
fn plain_route(target: &str) -> Response {
    match respond(target) {
        Routed::Answer(answer) => answer,
        Routed::Stream(id) => panic!("{target} streams {id}"),
    }
}

/// The answer to a raw request, whole, where `runs` is the library.
fn request(runs: &Vec<Known>, raw: &str) -> String {
    let answer = plain_route(&complete(raw).path);
    let body = match answer.body {
        Body::Index => render_index(&vec![], runs),
        Body::Watch => WATCH_HTML.to_owned(),
        Body::Asset(file) if file == "den.css" => DEN_CSS.to_owned(),
        Body::Asset(file) => format!("the file {file}"),
        Body::Text(text) => text.to_owned(),
    };
    response_head(answer.status, answer.mime, body.len()) + &body
}

#[test]
fn esc_escapes_html() {
    assert_eq!(esc("<a&\"b\">"), "&lt;a&amp;&quot;b&quot;&gt;");
}

#[test]
fn valid_id_accepts_only_run_id_chars() {
    assert!(valid_id("0170123456789-00123"));
    assert!(!valid_id("../etc/passwd"));
    assert!(!valid_id(""));
    assert!(!valid_id("abc"));
}

#[test]
fn index_lists_runs_newest_first() {
    let store = Store::open_at(b"/den".to_vec());
    let older = meta(&store.new_id(1_700_000_000_000, 77), "echo older");
    let newer = meta(&store.new_id(1_700_000_000_002, 77), "echo newer");
    let link = format!("/watch/{}", newer.id);
    let html = render_index(&vec![], &vec![known(older, false), known(newer, false)]);
    assert!(html.contains("echo older"));
    assert!(html.contains(&link));
    assert!(html.find("echo newer") < html.find("echo older"));
}

#[test]
fn index_of_an_empty_library() {
    let html = render_index(&vec![], &vec![]);
    assert!(html.starts_with("<!DOCTYPE html>\n"));
    assert!(html.contains("no captures yet"));
    assert!(html.ends_with("</body>\n</html>\n"));
    assert!(!html.contains("/watch/"));
}

#[test]
fn index_marks_each_run() {
    let mut live = meta("3-1", "make");
    live.done = false;
    live.pid = Some(1);
    live.exit_code = None;
    let mut failed = meta("2-1", "false");
    failed.exit_code = Some(3);
    let html = render_index(
        &vec![known(live, true)],
        &vec![known(meta("1-1", "true"), false), known(failed, false)],
    );
    let rows: Vec<&str> = html.lines().filter(|l| l.contains("/watch/")).collect();
    assert_eq!(
        rows,
        [
            "<a class=run href=\"/watch/3-1\"><span class=live>●</span><code>make</code><span class=meta> 3 B</span></a>",
            "<a class=run href=\"/watch/2-1\"><code>false</code><span class=meta><span class=err>✗</span> 3 B</span></a>",
            "<a class=run href=\"/watch/1-1\"><code>true</code><span class=meta><span class=ok>✓</span> 3 B</span></a>",
        ]
    );
}

#[test]
fn index_escapes_commands() {
    let html = render_index(&vec![], &vec![known(meta("1-2", "echo <b>&\"x\""), false)]);
    assert!(html.contains("echo &lt;b&gt;&amp;&quot;x&quot;"));
    assert!(!html.contains("echo <b>"));
}

#[test]
fn http_routes() {
    let store = Store::open_at(b"/den".to_vec());
    let meta = meta(&store.new_id(1_700_000_000_000, 77), "ls -la");
    let id = meta.id.clone();
    let runs = vec![known(meta, false)];

    let index = request(&runs, "GET / HTTP/1.1\r\nHost: x\r\n\r\n");
    assert!(index.starts_with("HTTP/1.1 200"), "{index}");
    assert!(index.contains("ls -la"));

    let watch = request(&runs, &format!("GET /watch/{id} HTTP/1.1\r\nHost: x\r\n\r\n"));
    assert!(watch.contains("wterm"), "{watch}");

    let js = request(&runs, "GET /assets/core/index.js HTTP/1.1\r\nHost: x\r\n\r\n");
    assert!(js.contains("content-type: text/javascript"), "{js}");

    let css = request(&runs, "GET /assets/den.css HTTP/1.1\r\nHost: x\r\n\r\n");
    assert!(css.contains("--deep"), "{css}");

    let missing = request(&runs, "GET /nope HTTP/1.1\r\nHost: x\r\n\r\n");
    assert!(missing.starts_with("HTTP/1.1 404"), "{missing}");

    let traversal = request(&runs, "GET /assets/../Cargo.toml HTTP/1.1\r\nHost: x\r\n\r\n");
    assert!(traversal.starts_with("HTTP/1.1 404"), "{traversal}");
}

#[test]
fn routes_that_are_refused_say_why() {
    let answer = plain_route("/watch/../x");
    assert_eq!((answer.status, answer.mime), (404, "text/plain"));
    assert!(matches!(answer.body, Body::Text("no such run")));
    let answer = plain_route("/watch/1-2?from=list");
    assert!(matches!(answer.body, Body::Watch));
    let answer = plain_route("/assets/core");
    assert!(matches!(answer.body, Body::Text("not found")));
    assert!(matches!(plain_route("").body, Body::Text("not found")));
}

#[test]
fn streams_go_their_own_way() {
    assert!(matches!(respond("/stream/1-2"), Routed::Stream(id) if id == "1-2"));
    assert!(matches!(respond("/stream/1-2?x"), Routed::Stream(id) if id == "1-2"));
    assert!(matches!(respond("/stream/../x"), Routed::Stream(id) if id == "../x"));
    assert!(matches!(respond("/stream"), Routed::Answer(a) if a.status == 404));
}

const UPGRADE: &str = "GET /stream/1-2 HTTP/1.1\r\nHost: x\r\nUpgrade: websocket\r\nConnection: Upgrade\r\nSec-WebSocket-Key: dGhlIHNhbXBsZSBub25jZQ==\r\nSec-WebSocket-Version: 13\r\n\r\n";

#[test]
fn a_known_run_is_upgraded() {
    let request = complete(UPGRADE);
    match stream_answer("1-2", &request, true) {
        Upgrade::Switch(head) => assert_eq!(
            head,
            "HTTP/1.1 101 Switching Protocols\r\nupgrade: websocket\r\nconnection: Upgrade\r\nsec-websocket-accept: s3pPLMBiTxaQ9kYGzzhZRbK+xOo=\r\n\r\n"
        ),
        Upgrade::Refused(_) => panic!("refused"),
    }
}

#[test]
fn streams_that_are_refused_say_why() {
    let request = complete(UPGRADE);
    for (id, known) in [("1-2", false), ("../x", true), ("", true), ("abc", true)] {
        match stream_answer(id, &request, known) {
            Upgrade::Refused(a) => {
                assert_eq!((a.status, a.mime), (404, "text/plain"));
                assert!(matches!(a.body, Body::Text("no such run")));
            }
            Upgrade::Switch(_) => panic!("{id} is streamed"),
        }
    }
    let bare = complete("GET /stream/1-2 HTTP/1.1\r\nHost: x\r\n\r\n");
    match stream_answer("1-2", &bare, true) {
        Upgrade::Refused(a) => {
            assert_eq!((a.status, a.mime), (400, "text/plain"));
            assert!(matches!(a.body, Body::Text("expected a websocket upgrade")));
        }
        Upgrade::Switch(_) => panic!("streamed without a key"),
    }
}

#[test]
fn a_finished_run_streams_and_says_how_it_went() {
    let step = stream_step(0, b"abc", RunState::Done, Some(0));
    assert_eq!(
        step.frames,
        [encode(OP_BINARY, b"abc"), encode(OP_TEXT, b"{\"done\":true,\"exit\":0}")]
    );
    assert_eq!((step.sent, step.done), (3, true));
    let step = stream_step(3, b"abc", RunState::Died, None);
    assert_eq!(step.frames, [encode(OP_TEXT, b"{\"done\":true,\"exit\":null}")]);
    let step = stream_step(0, b"", RunState::Done, Some(-15));
    assert_eq!(step.frames, [encode(OP_TEXT, b"{\"done\":true,\"exit\":-15}")]);
}

#[test]
fn a_live_run_streams_what_is_new() {
    let first = stream_step(0, b"one", RunState::Running, None);
    assert_eq!(first.frames, [encode(OP_BINARY, b"one")]);
    assert_eq!((first.sent, first.done), (3, false));
    let idle = stream_step(first.sent, b"one", RunState::Running, None);
    assert!(idle.frames.is_empty() && !idle.done);
    let last = stream_step(first.sent, b"one two", RunState::Done, Some(3));
    assert_eq!(
        last.frames,
        [encode(OP_BINARY, b" two"), encode(OP_TEXT, b"{\"done\":true,\"exit\":3}")]
    );
    assert_eq!((last.sent, last.done), (7, true));
}

#[test]
fn a_stream_goes_on_waits_or_closes() {
    let live = stream_turn(Some((RunState::Running, None)), 5, b"abc");
    assert_eq!(live.frames, [encode(OP_BINARY, b"abc")]);
    assert_eq!((live.offset, live.next), (8, Next::GoOn));
    let over = stream_turn(Some((RunState::Done, Some(2))), 8, b"");
    assert_eq!(over.frames, [encode(OP_TEXT, b"{\"done\":true,\"exit\":2}")]);
    assert_eq!((over.offset, over.next), (8, Next::Wait));
    let died = stream_turn(Some((RunState::Died, None)), 0, b"");
    assert_eq!(died.next, Next::Wait);
    let gone = stream_turn(None, 8, b"!");
    assert_eq!(
        gone.frames,
        [encode(OP_BINARY, b"!"), encode(OP_TEXT, b"{\"done\":true,\"exit\":null}")]
    );
    assert_eq!((gone.offset, gone.next), (9, Next::Close));
}

#[test]
fn large_output_goes_in_pieces_that_fit() {
    let log = vec![7u8; MAX_MESSAGE * 2 + 5];
    let step = stream_step(0, &log, RunState::Running, None);
    let mut sent = Vec::new();
    for frame in &step.frames {
        let (frame, _) = parse_frame(frame).unwrap().unwrap();
        assert_eq!(frame.opcode, OP_BINARY);
        sent.push(frame.payload.len());
    }
    assert_eq!(sent, [MAX_MESSAGE, MAX_MESSAGE, 5]);
    let fits = stream_step(0, &log[..MAX_MESSAGE], RunState::Running, None);
    assert_eq!(fits.frames.len(), 1);
}

/// A frame as a client sends it, unmasked, with or without its last bit.
fn client(opcode: u8, fin: bool, payload: &[u8]) -> Vec<u8> {
    let mut frame = encode(opcode, payload);
    if !fin {
        frame[0] &= 0x7f;
    }
    frame
}

#[test]
fn pings_are_answered_and_close_leaves() {
    let mut inbox = Inbox::new();
    assert!(matches!(inbox.hear(), Heard::Wait));
    let ping = client(OP_PING, true, b"hey");
    inbox.take_in(&ping[..2]);
    assert!(matches!(inbox.hear(), Heard::Wait));
    inbox.take_in(&ping[2..]);
    inbox.take_in(&client(OP_TEXT, true, b"input"));
    inbox.take_in(&client(OP_CLOSE, true, b""));
    assert!(matches!(inbox.hear(), Heard::Reply(f) if f == encode(OP_PONG, b"hey")));
    assert!(matches!(inbox.hear(), Heard::Nothing));
    assert!(matches!(inbox.hear(), Heard::Leave));
    assert!(matches!(inbox.hear(), Heard::Wait));
}

#[test]
fn messages_in_parts_are_bounded() {
    let mut inbox = Inbox::new();
    inbox.take_in(&client(OP_CONT, true, b"of nothing"));
    inbox.take_in(&client(OP_BINARY, false, &vec![0; MAX_MESSAGE]));
    inbox.take_in(&client(OP_CONT, false, b""));
    assert!(matches!(inbox.hear(), Heard::Nothing));
    assert!(matches!(inbox.hear(), Heard::Nothing));
    assert!(matches!(inbox.hear(), Heard::Nothing));
    inbox.take_in(&client(OP_CONT, true, b"!"));
    assert!(matches!(inbox.hear(), Heard::Broken("ws message too large")));

    let mut inbox = Inbox::new();
    inbox.take_in(&client(OP_TEXT, false, b"a"));
    inbox.take_in(&client(OP_CONT, true, b"b"));
    inbox.take_in(&client(OP_CONT, true, &vec![0; MAX_MESSAGE]));
    for _ in 0..3 {
        assert!(matches!(inbox.hear(), Heard::Nothing));
    }

    let mut inbox = Inbox::new();
    inbox.take_in(&[0x82, 127, 0, 0, 0, 1, 0, 0, 0, 0]);
    assert!(matches!(inbox.hear(), Heard::Broken("ws frame too large")));
}

#[test]
fn the_server_listens_where_it_is_told_or_on_the_tailnet() {
    let tailnet = listen_on(None, Some(b"100.64.0.7\nfd7a::1\n")).unwrap();
    assert_eq!((tailnet.addr.as_str(), tailnet.warning), ("100.64.0.7", None));
    let spaced = listen_on(None, Some(b"  100.64.0.7 \r\n")).unwrap();
    assert_eq!(spaced.addr, "100.64.0.7");
    let asked = listen_on(Some("127.0.0.1"), Some(b"100.64.0.7\n")).unwrap();
    assert_eq!((asked.addr.as_str(), asked.warning), ("127.0.0.1", None));
    for wide in ["0.0.0.0", "::", "[::]"] {
        assert_eq!(listen_on(Some(wide), None).unwrap().warning, Some(EVERYWHERE_WARNING));
    }
    for printed in [None, Some(&b""[..]), Some(&b" \n100.64.0.7\n"[..])] {
        assert_eq!(listen_on(None, printed).err(), Some(NO_TAILNET));
    }
}

#[test]
fn the_index_page_sweeps_and_lists() {
    let store = Store::open_at(b"/den".to_vec());
    let mut live = meta("1-1", "top");
    (live.done, live.pid, live.exit_code) = (false, Some(1), None);
    let markers = vec![
        Marker { name: b"1-1".to_vec(), meta: Some(live), alive: true },
        Marker { name: b"1-9".to_vec(), meta: None, alive: false },
    ];
    let page = index_page(&store, &markers, &vec![known(meta("1-0", "make"), false)]);
    let top = page.html.find("top").unwrap();
    let make = page.html.find("make").unwrap();
    assert!(top < make && page.html.contains("class=live"));
    assert_eq!(page.changes.len(), 1);
    assert!(matches!(&page.changes[0], FileOp::Remove { path } if path == b"/den/running/1-9"));
}

#[test]
fn assets_come_from_the_table() {
    assert_eq!(asset("dom/terminal.css"), Some(("wterm/dom/terminal.css".into(), "text/css")));
    assert_eq!(
        asset("core/wasm-inline.js"),
        Some(("wterm/core/wasm-inline.js".into(), "text/javascript"))
    );
    assert_eq!(asset("dom/"), None);
    assert_eq!(asset("../den.css"), None);
}

#[test]
fn requests_are_read_line_by_line() {
    let r = complete("GET /x HTTP/1.1\r\nHost:  den \r\nX-A: 1\r\nno colon\r\nx-a: 2\r\n\r\n");
    assert_eq!(r.path, "/x");
    assert_eq!(r.headers.len(), 3);
    assert_eq!(r.header("host"), Some("den"));
    assert_eq!(r.header("x-a"), Some("1"));
    assert_eq!(r.header("missing"), None);
    // The end of the stream ends the headers too.
    assert_eq!(complete("GET /x HTTP/1.1\r\nHost: a").header("host"), Some("a"));
}

#[test]
fn requests_that_are_refused() {
    assert!(matches!(read(""), Fed::Closed));
    assert!(matches!(read("GET /x\r\n"), Fed::Bad("bad request line")));
    assert!(matches!(read("\r\n"), Fed::Bad("bad request line")));
    assert!(matches!(read("POST /x HTTP/1.1\r\n"), Fed::Bad("method not allowed")));
}

#[test]
fn header_lines_are_capped() {
    let mut raw = "GET / HTTP/1.1\r\n".to_owned();
    for i in 0..100 {
        raw.push_str(&format!("h{i}: {i}\r\n"));
    }
    let r = complete(&raw);
    assert_eq!(r.headers.len(), 64);
    assert_eq!(r.header("h63"), Some("63"));
    assert_eq!(r.header("h64"), None);
}

#[test]
fn heads_are_complete() {
    assert_eq!(
        response_head(200, "text/css", 12),
        "HTTP/1.1 200 OK\r\ncontent-type: text/css\r\ncontent-length: 12\r\nconnection: close\r\n\r\n"
    );
    assert!(response_head(400, "a", 0).starts_with("HTTP/1.1 400 Bad Request\r\n"));
    assert!(response_head(404, "a", 0).starts_with("HTTP/1.1 404 Not Found\r\n"));
    assert!(response_head(500, "a", 0).starts_with("HTTP/1.1 500 Error\r\n"));
}

#[test]
fn accept_key_matches_rfc6455_vector() {
    // The worked example from RFC 6455 §1.3.
    assert_eq!(
        accept_key("dGhlIHNhbXBsZSBub25jZQ=="),
        "s3pPLMBiTxaQ9kYGzzhZRbK+xOo="
    );
}

#[test]
fn accept_key_trims_the_client_key() {
    assert_eq!(
        accept_key(" dGhlIHNhbXBsZSBub25jZQ==\r\n"),
        "s3pPLMBiTxaQ9kYGzzhZRbK+xOo="
    );
}

// --------------------------------------------------------------- frames --

/// A masked client frame the way a browser sends it.
fn masked_frame(fin: bool, op: u8, payload: &[u8]) -> Vec<u8> {
    let mut v = vec![if fin { 0x80 } else { 0 } | op, 0x80 | payload.len() as u8];
    v.extend_from_slice(&[1, 2, 3, 4]); // mask key
    for (i, b) in payload.iter().enumerate() {
        v.push(b ^ [1u8, 2, 3, 4][i % 4]);
    }
    v
}

#[test]
fn encode_roundtrips_through_parse() {
    let bytes = encode(OP_BINARY, b"hi");
    assert_eq!(&bytes[..2], &[0x82, 0x02]); // FIN+binary, len 2
    let (frame, used) = parse_frame(&bytes).unwrap().unwrap();
    assert!(frame.fin);
    assert_eq!(frame.opcode, OP_BINARY);
    assert_eq!(frame.payload, b"hi");
    assert_eq!(used, bytes.len());
}

#[test]
fn parse_unmasks_client_frames() {
    let (frame, _) = parse_frame(&masked_frame(true, OP_PING, b"yo, otter")).unwrap().unwrap();
    assert_eq!(frame.opcode, OP_PING);
    assert_eq!(frame.payload, b"yo, otter");
    let (frame, _) = parse_frame(&masked_frame(false, OP_PING, b"")).unwrap().unwrap();
    assert!(!frame.fin);
}

#[test]
fn incomplete_frame_is_none_not_error() {
    let whole = encode(OP_BINARY, &[7u8; 300]);
    for n in 0..whole.len() {
        assert!(parse_frame(&whole[..n]).unwrap().is_none());
    }
    let masked = masked_frame(true, OP_BINARY, b"hello");
    for n in 0..masked.len() {
        assert!(parse_frame(&masked[..n]).unwrap().is_none());
    }
}

#[test]
fn extended_lengths() {
    for len in [125usize, 126, 300, 65_535, 65_536, 70_000] {
        let payload = vec![7u8; len];
        let mut bytes = encode(OP_BINARY, &payload);
        let whole = bytes.len();
        bytes.extend_from_slice(b"next");
        let (frame, used) = parse_frame(&bytes).unwrap().unwrap();
        assert_eq!(frame.payload, payload);
        assert_eq!(used, whole);
    }
    assert_eq!(encode(OP_BINARY, &[0u8; 300]).len(), 304);
}

#[test]
fn oversized_frame_is_an_error() {
    // Declared length above the limit, no payload needed.
    let buf = [0x82, 127, 0, 0, 0, 0, 0, 0x20, 0x00, 0x00]; // 2 MiB
    assert_eq!(parse_frame(&buf).err().as_deref(), Some("ws frame too large"));
    let buf = [0x82, 127, 255, 255, 255, 255, 255, 255, 255, 255];
    assert!(parse_frame(&buf).is_err());
}
