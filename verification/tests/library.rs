//! The store: ids, paths, the operations on disk, and what is read back.
use otterm::capture::{
    exit_status, footer, human_bytes, pty_size, Capture, Chunk, Exit, Launch, Tee,
};
use otterm::store::{
    epoch_ms, index_lines, now_ms, FileOp, IndexLine, Marker, RunMeta, RunState, Store,
};

fn meta(id: &str) -> RunMeta {
    RunMeta {
        id: id.to_owned(),
        cmd: vec!["ls".into(), "-la".into()],
        cwd: "/tmp".into(),
        started_ms: 1_700_000_000_000,
        duration_ms: 5,
        exit_code: Some(0),
        bytes: 3,
        done: true,
        pid: None,
    }
}

fn live(id: &str) -> RunMeta {
    let mut m = meta(id);
    m.done = false;
    m.pid = Some(42);
    m.exit_code = None;
    m
}

fn text(bytes: &[u8]) -> &str {
    std::str::from_utf8(bytes).unwrap()
}

/// A disk in memory, as the operations change it.
#[derive(Default)]
struct Disk {
    files: std::collections::BTreeMap<String, Vec<u8>>,
}

impl Disk {
    fn apply(&mut self, ops: Vec<FileOp>) {
        for op in ops {
            match op {
                FileOp::MakeDir { .. } => {}
                FileOp::Write { path, data } => {
                    self.files.insert(text(&path).into(), data);
                }
                FileOp::Rename { from, to } => {
                    let data = self.files.remove(text(&from)).unwrap();
                    self.files.insert(text(&to).into(), data);
                }
                FileOp::Append { path, data } => {
                    self.files.entry(text(&path).into()).or_default().extend(data);
                }
                FileOp::Remove { path } => {
                    self.files.remove(text(&path));
                }
                FileOp::RemoveTree { path } => {
                    let dir = format!("{}/", text(&path));
                    self.files.retain(|name, _| !name.starts_with(&dir));
                }
            }
        }
    }

    fn read(&self, path: &str) -> Option<&str> {
        self.files.get(path).map(|b| text(b))
    }
}

#[test]
fn ids_are_padded_and_sort_by_time() {
    let store = Store::open_at(b"/den".to_vec());
    assert_eq!(store.new_id(1_700_000_000_000, 123), "1700000000000-00123");
    assert_eq!(store.new_id(170_123_456_789, 123), "0170123456789-00123");
    assert_eq!(store.new_id(7, 1_234_567), "0000000000007-34567");
    assert!(store.new_id(999, 99_999) < store.new_id(1000, 0));
}

#[test]
fn paths_lie_below_the_root() {
    let store = Store::open_at(b"/den".to_vec());
    assert_eq!(text(&store.run_dir("1-2")), "/den/runs/1-2");
    assert_eq!(text(&store.output_path("1-2")), "/den/runs/1-2/output.log");
    assert_eq!(text(&store.meta_path("1-2")), "/den/runs/1-2/meta.json");
    assert_eq!(text(&store.marker_path("1-2")), "/den/running/1-2");
    assert_eq!(text(&store.index_path()), "/den/index.jsonl");
    let made: Vec<String> = store
        .layout()
        .into_iter()
        .map(|op| match op {
            FileOp::MakeDir { path } => text(&path).to_owned(),
            _ => panic!("only directories are made"),
        })
        .collect();
    assert_eq!(made, ["/den/runs", "/den/running"]);
}

#[test]
fn the_environment_decides_where_the_store_is() {
    let at = |s: Result<Store, String>| text(&s.unwrap().index_path()).to_owned();
    assert_eq!(
        at(Store::open(Some(b"/x".to_vec()), Some(b"/data".to_vec()))),
        "/x/index.jsonl"
    );
    assert_eq!(at(Store::open(None, Some(b"/data".to_vec()))), "/data/otterm/index.jsonl");
    assert_eq!(at(Store::open(None, Some(b"/".to_vec()))), "/otterm/index.jsonl");
    assert_eq!(
        Store::open(None, None).err(),
        Some("no platform data directory".to_owned())
    );
}

#[test]
fn a_run_is_registered_recorded_and_deleted() {
    let store = Store::open_at(b"/den".to_vec());
    let mut disk = Disk::default();
    disk.files.insert("/den/runs/1-2/output.log".into(), b"first".to_vec());
    disk.files.insert("/den/runs/1-3/output.log".into(), b"second".to_vec());
    disk.apply(store.record_start("1-2", "{start}"));
    assert_eq!(disk.read("/den/runs/1-2/meta.json"), Some("{start}"));
    assert_eq!(disk.read("/den/running/1-2"), Some(""));
    assert_eq!(disk.read("/den/index.jsonl"), None);

    disk.apply(store.record("1-2", "{done}"));
    assert_eq!(disk.read("/den/runs/1-2/meta.json"), Some("{done}"));
    assert_eq!(disk.read("/den/running/1-2"), None);
    assert_eq!(disk.read("/den/index.jsonl"), Some("{done}\n"));

    disk.apply(store.record("1-3", "{other}"));
    assert_eq!(disk.read("/den/index.jsonl"), Some("{done}\n{other}\n"));

    assert_eq!(disk.read("/den/runs/1-2/output.log"), Some("first"));
    let index = disk.read("/den/index.jsonl").unwrap();
    assert_eq!(index_lines(index.as_bytes()), ["{done}", "{other}"]);

    disk.apply(vec![store.rewrite_index(&vec!["{other}".into()])]);
    disk.apply(store.delete("1-2"));
    assert_eq!(disk.read("/den/runs/1-2/meta.json"), None);
    assert_eq!(disk.read("/den/runs/1-3/meta.json"), Some("{other}"));
    assert_eq!(disk.read("/den/index.jsonl"), Some("{other}\n"));
    assert_eq!(disk.read("/den/runs/1-2/output.log"), None);
    assert_eq!(disk.read("/den/runs/1-3/output.log"), Some("second"));
}

#[test]
fn records_are_put_in_place_in_one_step() {
    let store = Store::open_at(b"/den".to_vec());
    let ops = store.write_meta("1-2", "{}");
    assert!(matches!(&ops[0], FileOp::Write { path, .. } if text(path) == "/den/runs/1-2/meta.json.tmp"));
    assert!(matches!(&ops[1], FileOp::Rename { from, to }
        if text(from) == "/den/runs/1-2/meta.json.tmp" && text(to) == "/den/runs/1-2/meta.json"));
    assert_eq!(ops.len(), 2);
}

#[test]
fn the_index_is_read_leniently() {
    assert_eq!(index_lines(b"a\nb\r\n\nc"), ["a", "b", "", "c"]);
    let runs = Store::list(&vec![
        IndexLine { meta: Some(meta("1-1")), has_dir: true },
        IndexLine { meta: None, has_dir: true },
        IndexLine { meta: Some(meta("1-2")), has_dir: false },
        IndexLine { meta: Some(meta("1-3")), has_dir: true },
    ]);
    let ids: Vec<&str> = runs.iter().map(|m| m.id.as_str()).collect();
    assert_eq!(ids, ["1-1", "1-3"]);
    assert_eq!(Store::last(&runs).unwrap().id, "1-3");
    assert_eq!(Store::last(&vec![]).err(), Some("no runs captured yet"));
    let rest = Store::without(&runs, "1-1");
    assert_eq!(rest.len(), 1);
    assert_eq!(rest[0].id, "1-3");
}

#[test]
fn a_byte_that_is_no_text_spoils_its_own_row_only() {
    assert_eq!(index_lines(b"{a}\n\xff\n{b}\n"), ["{a}", "\u{fffd}", "{b}"]);
    assert_eq!(index_lines(b"{a}\n\xff\n")[0], "{a}");
    assert_eq!(index_lines(b"{a}\r"), ["{a}\r"]);
    assert!(index_lines(b"").is_empty());
}

#[test]
fn markers_are_swept() {
    let store = Store::open_at(b"/den".to_vec());
    let marker = |name: &str, meta, alive| Marker { name: name.into(), meta, alive };
    let sweep = store.list_running(&vec![
        marker("1-1", Some(live("1-1")), true),
        marker("1-9", None, false),
        marker("1-2", Some(meta("1-2")), true),
        marker("1-3", Some(live("1-3")), false),
    ]);
    let ids: Vec<&str> = sweep.running.iter().map(|m| m.id.as_str()).collect();
    assert_eq!(ids, ["1-1", "1-3"]);
    let mut disk = Disk::default();
    for name in ["1-1", "1-9", "1-2", "1-3"] {
        disk.files.insert(format!("/den/running/{name}"), Vec::new());
    }
    disk.files.insert("/den/index.jsonl".into(), b"{}\n".to_vec());
    disk.apply(sweep.stale);
    let left: Vec<&String> = disk.files.keys().collect();
    assert_eq!(left, ["/den/index.jsonl", "/den/running/1-1", "/den/running/1-3"]);
    let again = store.list_running(&vec![
        marker("1-3", Some(live("1-3")), false),
        marker("1-1", Some(live("1-1")), true),
    ]);
    assert_eq!(again.running.len(), 2);
    assert!(again.stale.is_empty());
}

#[test]
fn a_deleted_run_is_deleted_once() {
    let store = Store::open_at(b"/den".to_vec());
    let mut disk = Disk::default();
    disk.apply(store.record("1-2", "{a}"));
    disk.apply(store.record("1-3", "{b}"));
    disk.apply(store.delete("1-2"));
    disk.apply(vec![store.rewrite_index(&vec!["{b}".into()])]);
    let once = disk.files.clone();
    assert_eq!(disk.read("/den/index.jsonl"), Some("{b}\n"));
    disk.apply(store.delete("1-2"));
    disk.apply(vec![store.rewrite_index(&vec!["{b}".into()])]);
    assert_eq!(disk.files, once);
}

#[test]
fn states_follow_the_record_and_the_process() {
    assert_eq!(meta("1").state(true), RunState::Done);
    assert_eq!(live("1").state(true), RunState::Running);
    assert_eq!(live("1").state(false), RunState::Died);
    assert_eq!(live("1").probe(), Some(42));
    assert_eq!(meta("1").probe(), None);
    // A record of the oldest kind says neither that it is done nor who ran it.
    let mut old = meta("1");
    old.done = false;
    assert_eq!(old.state(false), RunState::Done);
    assert!(meta("1").success());
    assert!(!live("1").success());
    assert_eq!(meta("1").cmdline(), "ls -la");
    let mut bare = meta("1");
    bare.cmd = vec![];
    assert_eq!(bare.cmdline(), "");
}

#[test]
fn logs_are_read_from_their_tail() {
    assert_eq!(Store::tail_window(10, 16), (0, false));
    assert_eq!(Store::tail_window(16, 16), (0, false));
    assert_eq!(Store::tail_window(20, 16), (4, true));
    assert_eq!(Store::read_output(b"ab\ncd".to_vec(), false), (b"ab\ncd".to_vec(), false));
    assert_eq!(Store::read_output(b"ab\ncd\n".to_vec(), true), (b"cd\n".to_vec(), true));
    assert_eq!(Store::read_output(b"abcd".to_vec(), true), (b"abcd".to_vec(), true));
    assert_eq!(Store::read_output(b"".to_vec(), true), (b"".to_vec(), true));
}

#[test]
fn the_clock_counts_from_the_epoch() {
    assert_eq!(epoch_ms(None), 0);
    assert_eq!(epoch_ms(Some(1_700_000_000_000)), 1_700_000_000_000);
    let now = std::time::SystemTime::now()
        .duration_since(std::time::UNIX_EPOCH)
        .unwrap()
        .as_millis() as u64;
    assert!(now_ms().abs_diff(now) < 60_000);
}

// -------------------------------------------------------------- capture --

#[test]
fn a_capture_counts_what_it_forwards() {
    let argv: Vec<String> = vec!["echo".into(), "hi".into()];
    let mut c = Capture::start("1-2".into(), &argv, "/tmp".into(), 1000, 42);
    assert_eq!(c.meta.state(true), RunState::Running);
    assert_eq!(c.meta.cmd, argv);
    assert!(matches!(c.tee(Chunk::Data(3)), Tee::Forward(3)));
    assert!(matches!(c.tee(Chunk::Data(4)), Tee::Forward(4)));
    assert!(matches!(c.tee(Chunk::Data(0)), Tee::Finish));
    assert!(matches!(c.tee(Chunk::End), Tee::Finish));
    c.finish(1250, Exit { code: 3, signaled: false });
    assert_eq!(c.meta.bytes, 7);
    assert_eq!(c.meta.duration_ms, 250);
    assert_eq!(c.meta.exit_code, Some(3));
    assert_eq!(c.meta.state(true), RunState::Done);
}

#[test]
fn a_killed_child_has_no_exit_code() {
    let mut c = Capture::start("1-2".into(), &vec!["sleep".into()], "/".into(), 1000, 42);
    c.finish(900, Exit { code: 1, signaled: true });
    assert_eq!(c.meta.exit_code, None);
    assert_eq!(c.meta.duration_ms, 0);
}

#[test]
fn exit_codes_keep_their_bits() {
    for code in [0u32, 1, 255, 0x7fff_ffff, 0x8000_0000, 0xffff_ffff] {
        assert_eq!(exit_status(code), code as i32);
    }
}

#[test]
fn launches_part_the_program_from_its_arguments() {
    let l = Launch::new(&vec!["ls".into(), "-l".into(), "/".into()], true, false);
    assert_eq!(l.program, "ls");
    assert_eq!(l.args, ["-l", "/"]);
    assert!(!l.interactive);
    assert!(Launch::new(&vec!["sh".into()], true, true).interactive);
    assert_eq!(pty_size(None), (80, 24));
    assert_eq!(pty_size(Some((100, 30))), (100, 30));
}

#[test]
fn footers_sum_the_capture_up() {
    assert_eq!(footer(true, 7, 0), None);
    assert_eq!(
        footer(false, 2048, 3).unwrap(),
        "\x1b[2m~( o.o )~  captured 2.0 KB · exit 3 · otterm to browse\x1b[0m"
    );
}

#[test]
fn sizes_are_formatted_as_floats_are() {
    let expect = |n: u64| match n {
        0..=1023 => format!("{n} B"),
        1024..=1_048_575 => format!("{:.1} KB", n as f64 / 1024.0),
        _ => format!("{:.1} MB", n as f64 / 1_048_576.0),
    };
    assert_eq!(human_bytes(1536), "1.5 KB");
    assert_eq!(human_bytes(16_777_216), "16.0 MB");
    for n in 0..200_000u64 {
        assert_eq!(human_bytes(n), expect(n));
    }
    let mut n: u64 = 1;
    for step in 0..4000u64 {
        n = n.wrapping_mul(6_364_136_223_846_793_005).wrapping_add(step);
        for shift in [0, 8, 16, 24, 32, 40] {
            assert_eq!(human_bytes(n >> shift), expect(n >> shift));
        }
    }
    for k in 20..64 {
        for d in 0..3u64 {
            let n = (1u64 << k).wrapping_add(d).wrapping_sub(1);
            assert_eq!(human_bytes(n), expect(n));
        }
    }
    assert_eq!(human_bytes(u64::MAX), expect(u64::MAX));
}
