//! The library on the screen: keys, views, the viewer, search, what is shown.
use ansi_to_tui::IntoText;
use otterm::fleet::{parse_fake, Peer};
use otterm::store::{Known, RunMeta, Store};
use otterm::tui::app::{board_args, rerun_args, App, InFlight, Loaded, Mode, Opening, Want};
use otterm::tui::clock::{age, age_at, duration};
use otterm::tui::den::DenStats;
use otterm::tui::keys::Key;
use otterm::tui::screen::View;
use otterm::tui::ui;
use otterm::tui::ui::{StatusLine, Tone};
use otterm::tui::viewer::{decode, normalize_cr, Log};

fn run(id: &str, cmdline: &str, started_ms: u64) -> RunMeta {
    RunMeta {
        id: id.to_owned(),
        cmd: cmdline.split(' ').map(String::from).collect(),
        cwd: "/home/otter/Den".into(),
        started_ms,
        duration_ms: 2400,
        exit_code: Some(0),
        bytes: 100,
        done: true,
        pid: None,
    }
}

fn live(id: &str, cmdline: &str, started_ms: u64) -> RunMeta {
    let mut m = run(id, cmdline, started_ms);
    m.done = false;
    m.pid = Some(42);
    m.exit_code = None;
    m
}

fn library() -> Loaded {
    Loaded {
        listed: vec![
            run("1-1", "cargo test", 1000),
            run("2-1", "npm run build", 2000),
            run("3-1", "cargo build", 3000),
        ],
        running: vec![],
    }
}

fn store() -> Store {
    Store::open_at(b"/den".to_vec())
}

/// The library in its list view.
fn app() -> App {
    let mut app = App::new(store(), Some("otter".into()), library());
    press(&mut app, Key::Enter);
    app
}

fn press(app: &mut App, key: Key) -> Want {
    app.on_key_at(key, 10_000)
}

fn type_in(app: &mut App, text: &str) {
    for c in text.chars() {
        press(app, Key::Char(c));
    }
}

fn shown(app: &App) -> Vec<&str> {
    app.filtered.iter().map(|&i| app.runs[i].id.as_str()).collect()
}

fn cursor(app: &App) -> Option<&str> {
    app.selected_meta().map(|m| m.id.as_str())
}

fn log(text: &str) -> Log {
    Log { bytes: text.as_bytes().to_vec(), truncated: false, size: text.len() as u64 }
}

/// Opens the selected run on a log.
fn open(app: &mut App, text: &str, alive: bool) {
    match press(app, Key::Enter) {
        Want::Open(Opening { meta, jump_to, query, from_results }) => {
            app.open_viewer(meta, alive, jump_to, query.as_deref(), from_results, Ok(log(text)))
        }
        _ => panic!("nothing to open"),
    }
}

fn numbered(n: usize) -> String {
    (0..n).map(|i| format!("line {i}\n")).collect()
}

// ------------------------------------------------------------ line ends --

/// Regression: pty CRLF endings must not leave `\r` in decoded spans —
/// stray carriage returns corrupt ratatui's cell rendering.
#[test]
fn crlf_normalized_before_decode() {
    let bytes = b"deploy\r\nERROR: refused\r\nprogress 1\rprogress 2\r\n".to_vec();
    let text = normalize_cr(bytes).into_text().unwrap();
    let lines: Vec<String> = text
        .lines
        .iter()
        .map(|l| l.spans.iter().map(|s| s.content.as_ref()).collect())
        .collect();
    assert!(lines.iter().all(|l| !l.contains('\r')));
    // A lone \r (progress rewrite) becomes its own line.
    assert_eq!(
        lines[..4],
        ["deploy", "ERROR: refused", "progress 1", "progress 2"]
    );
}

#[test]
fn line_ends_become_normal_once() {
    let once = normalize_cr(b"a\r\r\nb\rc\r".to_vec());
    assert_eq!(once, b"a\n\nb\nc\n");
    assert_eq!(normalize_cr(once.clone()), once);
    assert_eq!(normalize_cr(b"".to_vec()), b"");
    assert_eq!(normalize_cr(b"plain\n".to_vec()), b"plain\n");
}

#[test]
fn logs_are_decoded_for_display_and_for_search() {
    let (lines, stripped) = decode(b"\x1b[31mred\x1b[0m apple\nplain \xff line\n");
    assert_eq!(stripped, ["red apple", "plain \u{fffd} line"]);
    assert_eq!(lines.len(), 2);
    let first: String = lines[0].spans.iter().map(|s| s.content.as_ref()).collect();
    assert_eq!(first, "red apple");
    assert_eq!(lines[0].spans[0].style.fg, Some(ratatui::style::Color::Red));
    let (lines, stripped) = decode(b"a\nb\nc");
    assert_eq!((lines.len(), stripped.len()), (3, 3));
}

// ----------------------------------------------------------------- list --

#[test]
fn runs_are_listed_newest_first() {
    let mut loaded = library();
    loaded.running.push(InFlight { meta: live("9-1", "make", 2500), size: Some(777) });
    loaded.running.push(InFlight { meta: live("9-2", "make", 2500), size: None });
    let mut a = App::new(store(), None, loaded);
    assert!(a.running && a.view == View::Splash);
    press(&mut a, Key::Other);
    assert_eq!(shown(&a), ["3-1", "9-1", "9-2", "2-1", "1-1"]);
    assert_eq!(a.runs[1].bytes, 777);
    assert_eq!(a.runs[2].bytes, 100);
}

#[test]
fn the_splash_screen_opens_or_quits() {
    for key in [Key::Char('q'), Key::Esc] {
        let mut a = App::new(store(), None, library());
        press(&mut a, key);
        assert!(!a.running);
    }
    let mut a = App::new(store(), None, library());
    press(&mut a, Key::Char('x'));
    assert!(a.running && a.view == View::List);
}

#[test]
fn the_cursor_moves_and_stops() {
    let mut a = app();
    assert_eq!(cursor(&a), Some("3-1"));
    press(&mut a, Key::Char('j'));
    press(&mut a, Key::Down);
    press(&mut a, Key::Down);
    assert_eq!(cursor(&a), Some("1-1"));
    press(&mut a, Key::Up);
    assert_eq!(cursor(&a), Some("2-1"));
    press(&mut a, Key::Char('g'));
    press(&mut a, Key::Char('k'));
    assert_eq!(cursor(&a), Some("3-1"));
    press(&mut a, Key::Char('G'));
    assert_eq!(cursor(&a), Some("1-1"));
    let mut empty = App::new(store(), None, Loaded { listed: vec![], running: vec![] });
    press(&mut empty, Key::Enter);
    for key in [Key::Down, Key::Up, Key::Char('G'), Key::Enter, Key::Char('x'), Key::Char('R')] {
        assert!(matches!(press(&mut empty, key), Want::Nothing));
        assert_eq!(cursor(&empty), None);
    }
}

#[test]
fn words_of_a_command_stay_apart() {
    let cmd = vec!["echo".to_owned(), "a b".to_owned(), "--".to_owned()];
    assert_eq!(rerun_args(&cmd), ["run", "--", "echo", "a b", "--"]);
    assert_eq!(rerun_args(&vec![]), ["run", "--"]);
    assert_eq!(board_args("otter@pi-den"), ["ssh", "otter@pi-den"]);
}

#[test]
fn the_filter_is_live() {
    let mut a = app();
    press(&mut a, Key::Char('G'));
    press(&mut a, Key::Char('/'));
    assert!(a.mode == Mode::FilterInput);
    type_in(&mut a, "CARGO");
    assert_eq!(shown(&a), ["3-1", "1-1"]);
    assert_eq!(cursor(&a), Some("1-1"));
    press(&mut a, Key::Enter);
    assert!(a.mode == Mode::Normal);
    assert_eq!(a.filter, "CARGO");
    // Prompt again: it starts with the filter.
    press(&mut a, Key::Char('/'));
    assert_eq!(a.input, "CARGO");
    press(&mut a, Key::Backspace);
    assert_eq!(a.filter, "CARG");
    press(&mut a, Key::Esc);
    assert_eq!(a.filter, "");
    assert_eq!(shown(&a).len(), 3);
    // The directory counts too.
    press(&mut a, Key::Char('/'));
    type_in(&mut a, "otter/den");
    assert_eq!(shown(&a).len(), 3);
    type_in(&mut a, "zz");
    assert_eq!(shown(&a).len(), 0);
    assert_eq!(cursor(&a), None);
}

#[test]
fn esc_clears_the_filter_before_it_quits() {
    let mut a = app();
    press(&mut a, Key::Char('/'));
    type_in(&mut a, "npm");
    press(&mut a, Key::Enter);
    press(&mut a, Key::Esc);
    assert!(a.running);
    assert_eq!(shown(&a).len(), 3);
    press(&mut a, Key::Esc);
    assert!(!a.running);
}

#[test]
fn q_quits_with_a_filter_too() {
    let mut a = app();
    press(&mut a, Key::Char('/'));
    type_in(&mut a, "npm");
    press(&mut a, Key::Enter);
    press(&mut a, Key::Char('q'));
    assert!(!a.running);
    assert_eq!(a.filter, "npm");
}

#[test]
fn reloading_keeps_the_cursor_on_its_run() {
    let mut a = app();
    press(&mut a, Key::Down);
    assert_eq!(cursor(&a), Some("2-1"));
    let mut more = library();
    more.listed.push(run("4-1", "ls", 4000));
    a.reload(more);
    assert_eq!(cursor(&a), Some("2-1"));
    assert_eq!(a.selected, 2);
    // A run that is gone leaves the cursor inside the list.
    a.reload(Loaded { listed: vec![run("7-1", "ls", 1)], running: vec![] });
    assert_eq!(cursor(&a), Some("7-1"));
    a.reload_failed("disk on fire");
    assert_eq!(a.status.as_deref(), Some("reload failed: disk on fire"));
}

#[test]
fn messages_last_until_the_next_key() {
    let mut a = app();
    a.reload_failed("x");
    press(&mut a, Key::Other);
    assert_eq!(a.status, None);
}

#[test]
fn deletion_is_asked_for_and_confirmed() {
    let mut a = app();
    assert!(matches!(press(&mut a, Key::Char('x')), Want::ProbeSelected));
    a.request_delete(false);
    assert!(a.mode == Mode::ConfirmDelete);
    assert!(matches!(press(&mut a, Key::Char('n')), Want::Nothing));
    assert!(a.mode == Mode::Normal);
    a.request_delete(false);
    match press(&mut a, Key::Char('y')) {
        Want::Delete { id } => assert_eq!(id, "3-1"),
        _ => panic!("not deleted"),
    }
    let mut rest = library();
    rest.listed.pop();
    a.deleted(Ok(()), Some(rest));
    assert_eq!(a.status.as_deref(), Some("run deleted"));
    assert_eq!(shown(&a), ["2-1", "1-1"]);
    a.deleted(Err("busy".into()), None);
    assert_eq!(a.status.as_deref(), Some("delete failed: busy"));
}

#[test]
fn a_run_that_is_going_is_not_deleted() {
    let mut a = App::new(
        store(),
        None,
        Loaded { listed: vec![], running: vec![InFlight { meta: live("1-1", "top", 1), size: None }] },
    );
    press(&mut a, Key::Enter);
    press(&mut a, Key::Char('x'));
    a.request_delete(true);
    assert!(a.mode == Mode::Normal);
    assert_eq!(a.status.as_deref(), Some("that run is still going — can't delete it"));
    a.request_delete(false); // it died
    assert!(a.mode == Mode::ConfirmDelete);
}

#[test]
fn commands_are_run_anew() {
    let mut a = app();
    press(&mut a, Key::Down);
    match press(&mut a, Key::Char('R')) {
        Want::Rerun { args, cmd, cwd } => {
            assert_eq!(args, ["run", "--", "npm", "run", "build"]);
            assert_eq!(cmd, ["npm", "run", "build"]);
            assert_eq!(cwd, "/home/otter/Den");
            let mut more = library();
            more.running.push(InFlight { meta: live("8-1", "npm run build", 9000), size: Some(1) });
            a.rerun_started(&cmd, Some(more));
        }
        _ => panic!("not run"),
    }
    assert_eq!(a.status.as_deref(), Some("re-running: npm run build"));
    assert_eq!(cursor(&a), Some("8-1"));
    a.rerun_failed(Some("no such directory"));
    assert_eq!(a.status.as_deref(), Some("re-run failed: no such directory"));
    a.rerun_failed(None);
    assert_eq!(a.status.as_deref(), Some("can't locate the otterm binary"));
}

#[test]
fn ticks_refresh_the_list_and_poll_live_runs() {
    let mut a = app();
    for n in 1..=20u64 {
        let want = a.on_tick();
        assert_eq!(matches!(want, Want::Refresh), n % 10 == 0);
    }
    press(&mut a, Key::Char('/'));
    for _ in 0..10 {
        assert!(matches!(a.on_tick(), Want::Nothing));
    }
    a.tick = u64::MAX;
    a.on_tick();
    assert_eq!(a.tick, 0);
}

// --------------------------------------------------------------- viewer --

#[test]
fn a_finished_run_opens_at_its_start() {
    let mut a = app();
    open(&mut a, &numbered(100), false);
    assert!(a.view == View::Viewer);
    let v = a.viewer.as_ref().unwrap();
    assert_eq!((v.lines.len(), v.scroll, v.live, v.follow), (100, 0, false, false));
    press(&mut a, Key::Esc);
    assert!(a.view == View::List && a.viewer.is_none());
}

#[test]
fn a_log_that_cannot_be_read_is_told() {
    let mut a = app();
    a.open_viewer(run("1-1", "ls", 1), false, None, None, false, Err("gone".into()));
    assert!(a.view == View::List && a.viewer.is_none());
    assert_eq!(a.status.as_deref(), Some("can't read output: gone"));
}

#[test]
fn scrolling_pages_and_stops() {
    let mut a = app();
    open(&mut a, &numbered(100), false);
    let at = |a: &App| a.viewer.as_ref().unwrap().scroll;
    press(&mut a, Key::Down);
    press(&mut a, Key::Char('d'));
    assert_eq!(at(&a), 13);
    press(&mut a, Key::PageUp);
    press(&mut a, Key::Up);
    press(&mut a, Key::Up);
    assert_eq!(at(&a), 0);
    press(&mut a, Key::Char('G'));
    assert_eq!(at(&a), 76);
    press(&mut a, Key::PageDown);
    assert_eq!(at(&a), 76);
    press(&mut a, Key::Char('g'));
    assert_eq!(at(&a), 0);
    // A screen that shows it all does not scroll.
    ui::viewer_window(&mut a, 200).unwrap();
    press(&mut a, Key::Char('G'));
    assert_eq!(at(&a), 0);
}

#[test]
fn the_viewer_searches_and_walks_its_matches() {
    let mut a = app();
    open(&mut a, &numbered(100), false);
    press(&mut a, Key::Char('/'));
    assert!(a.mode == Mode::ViewerSearchInput);
    type_in(&mut a, "LINE 5");
    press(&mut a, Key::Enter);
    {
        let v = a.viewer.as_ref().unwrap();
        assert_eq!(v.query, "line 5");
        assert_eq!(v.matches, [5, 50, 51, 52, 53, 54, 55, 56, 57, 58, 59]);
        assert_eq!((v.match_idx, v.scroll), (0, 2));
    }
    press(&mut a, Key::Char('n'));
    assert_eq!(a.viewer.as_ref().unwrap().scroll, 47);
    press(&mut a, Key::Char('N'));
    press(&mut a, Key::Char('N'));
    assert_eq!(a.viewer.as_ref().unwrap().match_idx, 10);
    press(&mut a, Key::Char('n'));
    assert_eq!(a.viewer.as_ref().unwrap().match_idx, 0);
    // From the middle, the search goes on downwards, and from the end around.
    press(&mut a, Key::Char('d'));
    press(&mut a, Key::Char('/'));
    assert_eq!(a.input, "line 5");
    press(&mut a, Key::Enter);
    assert_eq!(a.viewer.as_ref().unwrap().match_idx, 1);
    press(&mut a, Key::Char('G'));
    press(&mut a, Key::Char('/'));
    press(&mut a, Key::Enter);
    assert_eq!(a.viewer.as_ref().unwrap().match_idx, 0);
}

#[test]
fn searches_without_matches_are_told() {
    let mut a = app();
    open(&mut a, "abc\n", false);
    press(&mut a, Key::Char('/'));
    type_in(&mut a, "Zz");
    press(&mut a, Key::Enter);
    assert_eq!(a.status.as_deref(), Some("no matches for 'Zz'"));
    press(&mut a, Key::Char('/'));
    press(&mut a, Key::Backspace);
    press(&mut a, Key::Backspace);
    press(&mut a, Key::Backspace);
    press(&mut a, Key::Enter);
    assert_eq!(a.status.as_deref(), Some("search cleared"));
    assert!(a.viewer.as_ref().unwrap().matches.is_empty());
}

#[test]
fn a_live_run_is_followed() {
    let mut a = App::new(
        store(),
        None,
        Loaded { listed: vec![], running: vec![InFlight { meta: live("1-1", "top", 1), size: None }] },
    );
    press(&mut a, Key::Enter);
    open(&mut a, &numbered(100), true);
    let v = a.viewer.as_ref().unwrap();
    assert!(v.live && v.follow);
    assert_eq!(v.scroll, 76);
    let size = v.last_size;
    match a.on_tick() {
        Want::Poll { id } => assert_eq!(id, "1-1"),
        _ => panic!("not polled"),
    }
    assert!(!v_ref(&a).wants_log(size));
    assert!(v_ref(&a).wants_log(size + 9));
    a.poll(size + 9, Some((numbered(110).into_bytes(), false)), None);
    assert_eq!((v_ref(&a).lines.len(), v_ref(&a).scroll), (110, 86));
    // Scrolling unpins; what arrives then does not move the view.
    press(&mut a, Key::Up);
    assert!(!v_ref(&a).follow);
    a.poll(size + 20, Some((numbered(120).into_bytes(), true)), None);
    assert_eq!((v_ref(&a).lines.len(), v_ref(&a).scroll), (120, 85));
    assert!(v_ref(&a).truncated);
    press(&mut a, Key::Char('f'));
    assert_eq!((v_ref(&a).follow, v_ref(&a).scroll), (true, 96));
    press(&mut a, Key::Char('f'));
    assert!(!v_ref(&a).follow);
    press(&mut a, Key::Char('G'));
    assert!(v_ref(&a).follow);
    // An unchanged size is not decoded again, nor a log that cannot be read.
    a.poll(size + 20, Some((b"x".to_vec(), false)), None);
    assert_eq!(v_ref(&a).lines.len(), 120);
    a.poll(size + 30, None, None);
    assert_eq!((v_ref(&a).lines.len(), v_ref(&a).last_size), (120, size + 30));
    // The end is noticed in a tenth tick only.
    let done = || Some(Known { meta: run("1-1", "top", 1), alive: false });
    a.tick = 9;
    assert!(!v_ref(&a).wants_meta(a.tick));
    a.poll(size + 30, None, done());
    assert!(v_ref(&a).live);
    a.tick = 10;
    assert!(v_ref(&a).wants_meta(a.tick));
    a.poll(size + 30, None, Some(Known { meta: live("1-1", "top", 1), alive: true }));
    assert!(v_ref(&a).live);
    a.poll(size + 30, None, done());
    assert!(!v_ref(&a).live);
    assert_eq!(v_ref(&a).meta.exit_code, Some(0));
    assert!(matches!(a.on_tick(), Want::Nothing));
}

fn v_ref(a: &App) -> &otterm::tui::viewer::Viewer {
    a.viewer.as_ref().unwrap()
}

#[test]
fn windows_are_clamped_and_show_the_match() {
    let mut a = app();
    open(&mut a, &numbered(100), false);
    press(&mut a, Key::Char('/'));
    type_in(&mut a, "line 42");
    press(&mut a, Key::Enter);
    let w = ui::viewer_window(&mut a, 10).unwrap();
    assert_eq!((w.start, w.end), (39, 49));
    assert_eq!(w.overlay, Some((3, "line 42".to_owned())));
    press(&mut a, Key::Char('G'));
    let w = ui::viewer_window(&mut a, 10).unwrap();
    assert_eq!((w.start, w.end, w.overlay), (90, 100, None));
    let w = ui::viewer_window(&mut a, 30).unwrap();
    assert_eq!((w.start, w.end), (70, 100));
    let w = ui::viewer_window(&mut a, 0).unwrap();
    assert_eq!((w.start, w.end, w.overlay), (70, 70, None));
    press(&mut a, Key::Esc);
    assert!(ui::viewer_window(&mut a, 10).is_none());
}

// --------------------------------------------------------------- search --

/// Searches all logs, by the run.
fn search(a: &mut App, query: &str, logs: &dyn Fn(&str) -> Option<Vec<u8>>) {
    press(a, Key::Char('s'));
    type_in(a, query);
    match press(a, Key::Enter) {
        Want::Search => {}
        _ => panic!("no search"),
    }
    let mut at = 0;
    while a.search_next(at) {
        let id = a.runs[at].id.clone();
        a.search_log(at, logs(&id));
        at += 1;
    }
    a.end_search();
}

#[test]
fn all_output_is_searched_newest_first() {
    let mut a = app();
    search(&mut a, "  ErrOr ", &|id| match id {
        "1-1" => Some(b"ok\nan Error here  \r\nerror again\n".to_vec()),
        "3-1" => Some(b"\x1b[31mERR\x1b[0mOR\n".to_vec()),
        _ => None,
    });
    assert!(a.view == View::Results);
    assert_eq!(a.content_query, "error");
    let hits: Vec<(&str, usize, &str)> =
        a.hits.iter().map(|h| (h.meta.id.as_str(), h.line, h.text.as_str())).collect();
    assert_eq!(
        hits,
        [("3-1", 0, "ERROR"), ("1-1", 1, "an Error here"), ("1-1", 2, "error again")]
    );
    press(&mut a, Key::Down);
    match press(&mut a, Key::Enter) {
        Want::Open(o) => {
            assert_eq!(o.meta.id, "1-1");
            assert_eq!(o.jump_to, Some(1));
            assert_eq!(o.query.as_deref(), Some("error"));
            a.open_viewer(
                o.meta,
                false,
                o.jump_to,
                o.query.as_deref(),
                o.from_results,
                Ok(log("ok\nan Error here\nerror again\n")),
            );
        }
        _ => panic!("not opened"),
    }
    let v = v_ref(&a);
    assert_eq!((v.matches.as_slice(), v.match_idx, v.scroll), ([1, 2].as_slice(), 0, 0));
    press(&mut a, Key::Char('q'));
    assert!(a.view == View::Results);
    press(&mut a, Key::Esc);
    assert!(a.view == View::List);
}

#[test]
fn one_chatty_log_gives_five_hits() {
    let mut a = app();
    search(&mut a, "line", &|_| Some(numbered(1000).into_bytes()));
    assert_eq!(a.hits.len(), 15);
    assert_eq!(a.hits[4].line, 4);
    assert_eq!(a.hits[5].meta.id, "2-1");
}

#[test]
fn searches_are_bounded() {
    let listed = (0..200).map(|i| run(&format!("{i}-1"), "x", i)).collect();
    let mut a = App::new(store(), None, Loaded { listed, running: vec![] });
    press(&mut a, Key::Enter);
    search(&mut a, "line", &|_| Some(numbered(9).into_bytes()));
    assert_eq!(a.hits.len(), 500);
}

#[test]
fn searches_that_find_nothing_say_so() {
    let mut a = app();
    search(&mut a, "Zebra", &|_| Some(b"nothing\n".to_vec()));
    assert!(a.view == View::List);
    assert_eq!(a.status.as_deref(), Some("no runs mention 'zebra'"));
    // An empty query is no search.
    press(&mut a, Key::Char('s'));
    type_in(&mut a, "   ");
    assert!(matches!(press(&mut a, Key::Enter), Want::Nothing));
    assert!(a.mode == Mode::Normal);
}

// ----------------------------------------------------------------- raft --

fn machines() -> Vec<Peer> {
    let mut ps = parse_fake("den=10.0.0.1;pi=10.0.0.2;attic=10.0.0.3,offline");
    ps[0].is_self = true;
    ps
}

#[test]
fn machines_are_boarded_from_the_raft() {
    let mut a = app();
    assert!(matches!(press(&mut a, Key::Char('t')), Want::AskRaft));
    a.open_raft(Ok(machines()));
    assert!(a.view == View::Raft && a.peers_err.is_none());
    press(&mut a, Key::Enter);
    assert_eq!(a.status.as_deref(), Some("that's this machine — you're already aboard"));
    assert_eq!(a.take_pending_ssh(), None);
    press(&mut a, Key::Char('G'));
    press(&mut a, Key::Enter);
    assert_eq!(a.status.as_deref(), Some("attic is offline"));
    press(&mut a, Key::Up);
    press(&mut a, Key::Enter);
    assert_eq!(a.take_pending_ssh().as_deref(), Some("otter@10.0.0.2"));
    assert_eq!(a.take_pending_ssh(), None);
    // Asked again, and nothing answers.
    assert!(matches!(press(&mut a, Key::Char('r')), Want::AskRaft));
    a.open_raft(Err("no tailnet".into()));
    assert_eq!(a.peers_err.as_deref(), Some("no tailnet"));
    assert_eq!((a.peers.len(), a.peer_selected), (0, 0));
    press(&mut a, Key::Enter);
    press(&mut a, Key::Char('p'));
    assert_eq!((a.status.as_deref(), a.qr.is_none()), (None, true));
    press(&mut a, Key::Esc);
    assert!(a.view == View::List);
}

#[test]
fn the_qr_code_takes_the_next_key() {
    let mut a = app();
    a.open_raft(Ok(machines()));
    press(&mut a, Key::Down);
    press(&mut a, Key::Char('p'));
    let (caption, picture) = a.qr.clone().unwrap();
    assert_eq!(caption, "ssh://otter@10.0.0.2");
    assert_eq!(Ok(picture), otterm::fleet::qr_text(&caption));
    press(&mut a, Key::Char('q'));
    assert!(a.qr.is_none() && a.view == View::Raft && a.running);
}

#[test]
fn an_address_that_fits_no_qr_code_is_told() {
    let mut a = app();
    let long = "x".repeat(8000);
    a.open_raft(Ok(parse_fake(&format!("far={long}"))));
    press(&mut a, Key::Char('p'));
    assert!(a.qr.is_none());
    assert_eq!(a.status.as_deref(), Some("QR failed: data too long"));
}

// ------------------------------------------------------------------ den --

#[test]
fn the_den_adds_up() {
    let mut failed = run("4-1", "cargo test", 90_000_000);
    failed.exit_code = Some(101);
    failed.duration_ms = 9000;
    let mut killed = run("5-1", "npm ci", 100_000_000);
    killed.exit_code = None;
    killed.duration_ms = 9000;
    let runs = vec![run("1-1", "npm ci", 0), run("2-1", "cargo test", 1), failed, killed];
    let d = DenStats::compute_at(100_000_000, &runs);
    assert_eq!((d.total, d.bytes, d.ok, d.failed, d.today), (4, 400, 2, 1, 2));
    assert_eq!(d.most_run, Some(("cargo test".into(), 2)));
    assert_eq!(d.longest, Some(("cargo test".into(), 9000)));
    let d = DenStats::compute(&runs);
    assert_eq!((d.total, d.today), (4, 0));
    let none = DenStats::compute_at(5, &[]);
    assert_eq!((none.total, none.most_run, none.longest), (0, None, None));
}

#[test]
fn the_den_knows_what_it_cannot_add_up() {
    let mut big = run("1-1", "dd", 1);
    big.bytes = u64::MAX;
    let small = run("2-1", "ls", 1);
    assert!(DenStats::fits(&[]));
    assert!(DenStats::fits(&[big.clone()]));
    assert!(!DenStats::fits(&[small.clone(), big]));
    let mut a = app();
    assert!(a.opens_den(Key::Char('o')) && !a.opens_den(Key::Char('j')));
    press(&mut a, Key::Char('/'));
    assert!(!a.opens_den(Key::Char('o')));
}

#[test]
fn the_den_opens_and_closes() {
    for key in [Key::Char('o'), Key::Char('q'), Key::Esc] {
        let mut a = app();
        press(&mut a, Key::Char('o'));
        assert!(a.view == View::Den);
        assert_eq!(a.den.as_ref().unwrap().total, 3);
        press(&mut a, Key::Char('z'));
        assert!(a.view == View::Den);
        press(&mut a, key);
        assert!(a.view == View::List && a.running);
    }
    let mut a = app();
    a.on_key(Key::Char('o'));
    assert!(a.view == View::Den);
}

// ---------------------------------------------------------------- clock --

#[test]
fn durations_are_formatted_as_floats_are() {
    assert_eq!(duration(84), "84ms");
    assert_eq!(duration(2400), "2.4s");
    assert_eq!(duration(187_000), "3m07s");
    for ms in 0..200_000u64 {
        let expect = match ms {
            0..=999 => format!("{ms}ms"),
            1000..=59_999 => format!("{:.1}s", ms as f64 / 1000.0),
            _ => format!("{}m{:02}s", ms / 60_000, (ms % 60_000) / 1000),
        };
        assert_eq!(duration(ms), expect);
    }
    assert_eq!(duration(u64::MAX), "307445734561825m51s");
}

#[test]
fn ages_take_the_largest_unit() {
    let now = 1_000_000_000;
    for (ago, text) in [
        (0, "0s"),
        (59_999, "59s"),
        (60_000, "1m"),
        (3_599_999, "59m"),
        (3_600_000, "1h"),
        (86_399_999, "23h"),
        (86_400_000, "1d"),
        (345_600_000, "4d"),
    ] {
        assert_eq!(age_at(now, now - ago), text);
    }
    assert_eq!(age_at(5, 10), "0s");
    assert_eq!(age(u64::MAX), "0s");
    assert!(age(0).ends_with('d'));
}

// ----------------------------------------------------------- the screen --

#[test]
fn rows_show_the_state_of_each_run() {
    let mut failed = run("2-1", "false", 2000);
    failed.exit_code = Some(1);
    let mut a = App::new(
        store(),
        None,
        Loaded {
            listed: vec![run("1-1", "true", 1000), failed],
            running: vec![
                InFlight { meta: live("4-1", "top", 4000), size: Some(2048) },
                InFlight { meta: live("3-1", "crash", 3000), size: None },
            ],
        },
    );
    a.tick = 5;
    let rows = ui::list_rows(&a, &vec![true, false, false, false], 6000);
    let seen: Vec<(char, Tone, &str, &str, &str, &str)> = rows
        .iter()
        .map(|r| (r.mark, r.tone, &*r.age, &*r.took, &*r.bytes, &*r.cmdline))
        .collect();
    assert_eq!(
        seen,
        [
            ('⠹', Tone::Live, "2s", "2.0s", "2.0 KB", "top"),
            ('!', Tone::Bad, "3s", "died", "100 B", "crash"),
            ('✗', Tone::Bad, "4s", "2.4s", "100 B", "false"),
            ('✓', Tone::Good, "5s", "2.4s", "100 B", "true"),
        ]
    );
    assert!(ui::empty_message(&a).is_none());
}

#[test]
fn spinners_turn() {
    let spin: Vec<char> = "⠋⠙⠹⠸⠼⠴⠦⠧⠇⠏".chars().collect();
    let mut a = App::new(
        store(),
        None,
        Loaded { listed: vec![], running: vec![InFlight { meta: live("1-1", "x", 1), size: None }] },
    );
    for tick in 0..60 {
        a.tick = tick;
        assert_eq!(ui::list_rows(&a, &vec![true], 1)[0].mark, spin[(tick / 2) as usize % 10]);
    }
}

#[test]
fn empty_lists_say_why() {
    let a = App::new(store(), None, Loaded { listed: vec![], running: vec![] });
    assert!(ui::empty_message(&a).unwrap().starts_with("the library is empty"));
    let mut a = app();
    press(&mut a, Key::Char('/'));
    type_in(&mut a, "zzz");
    assert_eq!(ui::empty_message(&a), Some("nothing matches the filter (Esc clears it)"));
}

#[test]
fn headers_count() {
    let mut a = app();
    let h = ui::header(&a);
    assert_eq!((h.library.as_str(), h.filter, h.hits), ("library · 3 runs", None, None));
    press(&mut a, Key::Char('/'));
    type_in(&mut a, "cargo");
    press(&mut a, Key::Enter);
    search(&mut a, "line", &|_| Some(b"line\n".to_vec()));
    let h = ui::header(&a);
    assert_eq!(h.filter.as_deref(), Some(" · filter 'cargo' (2 shown)"));
    assert_eq!(h.hits.as_deref(), Some(" · 3 hits for 'line'"));
}

#[test]
fn results_are_ellipsized_and_count_lines_from_one() {
    let mut a = App::new(
        store(),
        None,
        Loaded { listed: vec![run("1-1", "a-command-that-is-rather-long-indeed", 1000)], running: vec![] },
    );
    press(&mut a, Key::Enter);
    search(&mut a, "two", &|_| Some(b"one\ntwo \n".to_vec()));
    let rows = ui::result_rows(&a, 4000);
    assert_eq!(rows.len(), 1);
    assert_eq!(rows[0].command, "a-command-that-is-rather-lo…");
    assert_eq!((rows[0].age.as_str(), rows[0].line.as_str(), rows[0].text.as_str()), ("3s", "2:", "two"));
    assert_eq!(ui::ellipsize("four", 4), "four");
    assert_eq!(ui::ellipsize("fiver", 4), "fiv…");
    assert_eq!(ui::ellipsize("x", 0), "…");
}

#[test]
fn the_viewer_header_tells_the_run() {
    let mut a = app();
    open(&mut a, "x\n", false);
    let h = ui::viewer_header(v_ref(&a), false, 9000);
    assert_eq!((h.mark, h.tone, h.cmdline.as_str()), ('✓', Tone::Good, "cargo build"));
    assert_eq!(h.detail, "  · 6s ago · 2.4s · 100 B · exit 0");
    assert_eq!(h.tail, None);
    {
        let v = a.viewer.as_mut().unwrap();
        v.truncated = true;
        v.meta.exit_code = Some(-9);
    }
    let h = ui::viewer_header(v_ref(&a), false, 9000);
    assert_eq!((h.mark, h.tone), ('✗', Tone::Bad));
    assert!(h.detail.ends_with("exit -9"));
    assert_eq!(h.tail, Some("  [tail only — log exceeds 16MB]"));
    a.open_viewer(live("9-1", "top", 1000), true, None, None, false, Ok(log("abc")));
    let h = ui::viewer_header(v_ref(&a), true, 3500);
    assert_eq!((h.mark, h.tone), ('●', Tone::Live));
    assert_eq!(h.detail, "  · live 2.5s · 3 B · following");
    press(&mut a, Key::Up);
    assert!(ui::viewer_header(v_ref(&a), true, 3500).detail.ends_with("paused — f to follow"));
    a.open_viewer(live("9-1", "top", 1000), false, None, None, false, Ok(log("abc")));
    let h = ui::viewer_header(v_ref(&a), false, 3500);
    assert_eq!(h.mark, '!');
    assert!(h.detail.ends_with("exit ?"));
}

#[test]
fn the_bottom_line_prompts_tells_and_hints() {
    let hints = |a: &App| match ui::status_line(a) {
        StatusLine::Hints { hints, matches } => (hints, matches),
        _ => panic!("no hints"),
    };
    let mut a = app();
    assert!(hints(&a).0.starts_with("  Enter view · R re-run"));
    a.reload_failed("x");
    assert!(matches!(ui::status_line(&a), StatusLine::Message(m) if m == " reload failed: x"));
    press(&mut a, Key::Char('/'));
    type_in(&mut a, "ab");
    assert!(matches!(ui::status_line(&a),
        StatusLine::Prompt { label: " filter ", input } if input == " ab"));
    press(&mut a, Key::Esc);
    press(&mut a, Key::Char('s'));
    assert!(matches!(ui::status_line(&a),
        StatusLine::Prompt { label: " search all output ", .. }));
    press(&mut a, Key::Esc);
    a.request_delete(false);
    assert!(matches!(ui::status_line(&a), StatusLine::Confirm(q) if q.starts_with(" delete this run")));
    press(&mut a, Key::Esc);
    open(&mut a, &numbered(20), false);
    assert!(hints(&a).0.starts_with("  j/k scroll · d/u page"));
    press(&mut a, Key::Char('/'));
    assert!(matches!(ui::status_line(&a), StatusLine::Prompt { label: " search ", .. }));
    type_in(&mut a, "line 1");
    press(&mut a, Key::Enter);
    press(&mut a, Key::Char('n'));
    assert_eq!(hints(&a).1, "  [2/11 matches]");
    a.viewer.as_mut().unwrap().live = true;
    assert!(hints(&a).0.starts_with("  f follow"));
    press(&mut a, Key::Esc);
    assert_eq!(hints(&a).1, "");
    search(&mut a, "line", &|_| Some(b"line\n".to_vec()));
    assert_eq!(hints(&a).0, "  Enter open at match · Esc back");
}

#[test]
fn the_splash_moves() {
    let waves = otterm::banner::WAVES;
    assert_eq!(ui::wave_line(0), waves);
    assert_eq!(ui::wave_line(3), format!("{}{}", &waves[3..], &waves[..3]));
    assert_eq!(ui::wave_line(waves.len() as u64 * 7 + 1), ui::wave_line(1));
    let lit: Vec<bool> = (0..9).map(ui::hint_lit).collect();
    assert_eq!(lit, [true, true, true, true, true, true, true, false, true]);
    let widest = otterm::banner::OTTER.lines().map(|l| l.len()).max().unwrap();
    assert_eq!(ui::otter_width() as usize, widest);
    assert_eq!(ui::art_width(""), 0);
    let rows: Vec<&str> = otterm::banner::OTTER.lines().skip(1).collect();
    assert_eq!(ui::art_rows(otterm::banner::OTTER), rows);
    assert!(ui::art_rows("").is_empty());
}
