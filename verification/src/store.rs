//! The library's records and where they live on disk. Layout:
//!
//! ```text
//! <data dir>/
//!   index.jsonl          one RunMeta per line, append-only (rewritten on delete)
//!   runs/<id>/output.log raw captured bytes, ANSI escapes included
//!   runs/<id>/meta.json  the same RunMeta, so a run dir is self-describing
//!   running/<id>         a marker for each capture in flight
//! ```
//!
//! Nothing here touches the disk: a change to the store is a list of file
//! operations that the program carries out in order, and what the disk holds
//! comes in as plain values. A path is its bytes, with `/` between its parts.
use crate::text::{decimal, lemma_texts_push, padded, read_text, text_in, texts};
use vstd::prelude::*;
use vstd::utf8::encode_utf8;

verus! {

/// What is known of one captured run.
pub struct RunMeta {
    pub id: String,
    pub cmd: Vec<String>,
    pub cwd: String,
    pub started_ms: u64,
    pub duration_ms: u64,
    /// None while running or when the child was killed by a signal.
    pub exit_code: Option<i32>,
    pub bytes: u64,
    /// False between the start of the capture and its record. Records of the
    /// oldest kind lack it; they are all completed, which `state` tells by `pid`.
    pub done: bool,
    /// Pid of the capturing process, for liveness checks.
    pub pid: Option<u32>,
}

/// A run as contracts speak of it.
#[verifier::ext_equal]
pub ghost struct RunView {
    pub id: Seq<char>,
    pub cmd: Seq<Seq<char>>,
    pub cwd: Seq<char>,
    pub started_ms: u64,
    pub duration_ms: u64,
    pub exit_code: Option<i32>,
    pub bytes: u64,
    pub done: bool,
    pub pid: Option<u32>,
}

#[derive(Clone, Copy, PartialEq, Eq, Structural, Debug)]
pub enum RunState {
    Done,
    Running,
    /// The capturing process vanished without finishing the record:
    /// killed, crashed, or the machine went down.
    Died,
}

impl View for RunMeta {
    type V = RunView;

    open spec fn view(&self) -> RunView {
        RunView {
            id: self.id@,
            cmd: texts(self.cmd@),
            cwd: self.cwd@,
            started_ms: self.started_ms,
            duration_ms: self.duration_ms,
            exit_code: self.exit_code,
            bytes: self.bytes,
            done: self.done,
            pid: self.pid,
        }
    }
}

/// The texts of `words`, with `gap` between any two.
pub open spec fn joined(words: Seq<Seq<char>>, gap: Seq<char>) -> Seq<char>
    decreases words.len(),
{
    if words.len() == 0 {
        seq![]
    } else if words.len() == 1 {
        words[0]
    } else {
        joined(words.drop_last(), gap) + gap + words.last()
    }
}

/// The strings of `words`, with `gap` between any two.
pub fn join_words(words: &Vec<String>, gap: &str) -> (res: String)
    ensures
        res@ == joined(texts(words@), gap@),
{
    let mut out = String::new();
    let mut i: usize = 0;
    while i < words.len()
        invariant
            i <= words@.len(),
            out@ == joined(texts(words@).take(i as int), gap@),
        decreases words@.len() - i,
    {
        if i > 0 {
            out.push_str(gap);
        }
        out.push_str(words[i].as_str());
        i = i + 1;
        proof {
            let t = texts(words@).take(i as int);
            assert(t.drop_last() =~= texts(words@).take(i - 1));
            assert(t.last() == words@[i - 1]@);
            if i == 1 {
                assert(seq![] + words@[0]@ =~= words@[0]@);
            }
        }
    }
    assert(texts(words@).take(i as int) =~= texts(words@));
    out
}

/// A copy of a list of strings.
pub fn copy_words(words: &Vec<String>) -> (res: Vec<String>)
    ensures
        texts(res@) == texts(words@),
        res@.len() == words@.len(),
{
    let mut out: Vec<String> = Vec::new();
    let mut i: usize = 0;
    while i < words.len()
        invariant
            i <= words@.len(),
            out@.len() == i,
            forall|k: int| 0 <= k < i ==> out@[k]@ == words@[k]@,
        decreases words@.len() - i,
    {
        out.push(words[i].clone());
        i = i + 1;
    }
    assert(texts(out@) =~= texts(words@));
    out
}

impl Clone for RunMeta {
    fn clone(&self) -> (res: Self)
        ensures
            res@ == self@,
    {
        RunMeta {
            id: self.id.clone(),
            cmd: copy_words(&self.cmd),
            cwd: self.cwd.clone(),
            started_ms: self.started_ms,
            duration_ms: self.duration_ms,
            exit_code: self.exit_code,
            bytes: self.bytes,
            done: self.done,
            pid: self.pid,
        }
    }
}

impl RunView {
    /// The command as the user typed it.
    pub open spec fn cmdline(self) -> Seq<char> {
        joined(self.cmd, " "@)
    }

    pub open spec fn success(self) -> bool {
        self.exit_code == Some(0i32)
    }

    /// The process whose liveness decides the state, if any does.
    pub open spec fn probe(self) -> Option<u32> {
        if self.done {
            None
        } else {
            self.pid
        }
    }

    /// The state of the run, where `alive` says whether its process lives.
    pub open spec fn state(self, alive: bool) -> RunState {
        if self.probe() is None {
            RunState::Done
        } else if alive {
            RunState::Running
        } else {
            RunState::Died
        }
    }
}

impl RunMeta {
    pub fn success(&self) -> (res: bool)
        ensures
            res == self@.success(),
    {
        match self.exit_code {
            Some(code) => code == 0,
            None => false,
        }
    }

    /// The command as the user typed it, for display and filtering.
    pub fn cmdline(&self) -> (res: String)
        ensures
            res@ == self@.cmdline(),
    {
        join_words(&self.cmd, " ")
    }

    /// The pid to ask about before `state` can tell; none where the record
    /// itself tells.
    pub fn probe(&self) -> (res: Option<u32>)
        ensures
            res == self@.probe(),
    {
        if self.done {
            None
        } else {
            self.pid
        }
    }

    /// Where the run stands. `alive` is whether the process of `probe` lives;
    /// it does not matter where there is none to ask about.
    pub fn state(&self, alive: bool) -> (res: RunState)
        ensures
            res == self@.state(alive),
    {
        match (self.done, self.pid) {
            (true, _) => RunState::Done,
            (false, None) => RunState::Done,  // a record of the oldest kind
            (false, Some(_)) => if alive {
                RunState::Running
            } else {
                RunState::Died
            },
        }
    }
}

/// A run, with whether the process of its `probe` lives.
pub struct Known {
    pub meta: RunMeta,
    pub alive: bool,
}

impl View for Known {
    type V = (RunView, bool);

    open spec fn view(&self) -> (RunView, bool) {
        (self.meta@, self.alive)
    }
}

/// What is known of the runs of `v`.
pub open spec fn known_views(v: Seq<Known>) -> Seq<(RunView, bool)> {
    v.map_values(|k: Known| k@)
}

// ----------------------------------------------------------------- time --

/// `SystemTime::now` as `SystemTime::duration_since` places it: the
/// milliseconds since the Unix epoch, or `None` for a clock that stands
/// before it. Nothing is known of the result.
#[verifier::external_body]
fn clock_ms() -> (res: Option<u128>) {
    std::time::SystemTime::now().duration_since(std::time::UNIX_EPOCH).ok().map(|d| d.as_millis())
}

/// The low 64 bits of a clock reading; zero for a clock before the epoch.
pub fn epoch_ms(clock: Option<u128>) -> (res: u64)
    ensures
        res == match clock {
            Some(ms) => ms % 0x1_0000_0000_0000_0000,
            None => 0,
        },
{
    match clock {
        Some(ms) => (ms % 0x1_0000_0000_0000_0000) as u64,
        None => 0,
    }
}

/// Milliseconds since the Unix epoch, by the system clock.
pub fn now_ms() -> u64 {
    epoch_ms(clock_ms())
}

// ---------------------------------------------------------------- paths --

/// `part` below `base`: an absolute `part` stands alone, and a separator is
/// put in unless `base` ends with one or is empty.
pub open spec fn path_join(base: Seq<u8>, part: Seq<u8>) -> Seq<u8> {
    if part.len() > 0 && part[0] == 47u8 {
        part
    } else if base.len() == 0 || base.last() == 47u8 {
        base + part
    } else {
        base.push(47u8) + part
    }
}

pub fn push_bytes(out: &mut Vec<u8>, tail: &[u8])
    ensures
        final(out)@ == old(out)@ + tail@,
{
    let mut i: usize = 0;
    while i < tail.len()
        invariant
            i <= tail@.len(),
            out@ == old(out)@ + tail@.take(i as int),
        decreases tail@.len() - i,
    {
        out.push(tail[i]);
        i = i + 1;
        assert(tail@.take(i as int) =~= tail@.take(i - 1).push(tail@[i - 1]));
    }
    assert(tail@.take(i as int) =~= tail@);
}

fn join_path(base: &Vec<u8>, part: &[u8]) -> (res: Vec<u8>)
    ensures
        res@ == path_join(base@, part@),
{
    let mut out: Vec<u8> = Vec::new();
    if part.len() > 0 && part[0] == 47u8 {
        push_bytes(&mut out, part);
        assert(out@ =~= part@);
    } else {
        push_bytes(&mut out, base.as_slice());
        if base.len() > 0 && base[base.len() - 1] != 47u8 {
            out.push(47u8);
        }
        push_bytes(&mut out, part);
        assert(out@ =~= path_join(base@, part@));
    }
    out
}

/// One change to the disk.
pub enum FileOp {
    /// Create a directory and those above it.
    MakeDir { path: Vec<u8> },
    /// Make `data` the whole content of a file.
    Write { path: Vec<u8>, data: Vec<u8> },
    /// Put the file `from` in the place of `to`, in one step.
    Rename { from: Vec<u8>, to: Vec<u8> },
    /// Add `data` at the end of a file, in one write; create it if need be.
    Append { path: Vec<u8>, data: Vec<u8> },
    /// Remove a file; that it is gone already is fine.
    Remove { path: Vec<u8> },
    /// Remove a directory with all below it; that it is gone already is fine.
    RemoveTree { path: Vec<u8> },
}

/// A change as contracts speak of it.
pub ghost enum Op {
    MakeDir(Seq<u8>),
    Write(Seq<u8>, Seq<u8>),
    Rename(Seq<u8>, Seq<u8>),
    Append(Seq<u8>, Seq<u8>),
    Remove(Seq<u8>),
    RemoveTree(Seq<u8>),
}

impl View for FileOp {
    type V = Op;

    open spec fn view(&self) -> Op {
        match *self {
            FileOp::MakeDir { path } => Op::MakeDir(path@),
            FileOp::Write { path, data } => Op::Write(path@, data@),
            FileOp::Rename { from, to } => Op::Rename(from@, to@),
            FileOp::Append { path, data } => Op::Append(path@, data@),
            FileOp::Remove { path } => Op::Remove(path@),
            FileOp::RemoveTree { path } => Op::RemoveTree(path@),
        }
    }
}

pub open spec fn ops(v: Seq<FileOp>) -> Seq<Op> {
    v.map_values(|op: FileOp| op@)
}

/// What is on a disk: the content of each file by its path, and the
/// directories.
#[verifier::ext_equal]
pub ghost struct Disk {
    pub files: Map<Seq<u8>, Seq<u8>>,
    pub dirs: Set<Seq<u8>>,
}

/// Whether `path` lies below the directory `dir`.
pub open spec fn below(path: Seq<u8>, dir: Seq<u8>) -> bool {
    path.len() > dir.len() && path.take(dir.len() as int) == dir && path[dir.len() as int] == 47u8
}

/// What a disk holds after a change.
pub open spec fn after_op(disk: Disk, op: Op) -> Disk {
    match op {
        Op::MakeDir(path) => Disk {
            dirs: Set::new(|p: Seq<u8>| disk.dirs.contains(p) || p == path || below(path, p)),
            ..disk
        },
        Op::Write(path, data) => Disk { files: disk.files.insert(path, data), ..disk },
        Op::Rename(from, to) => if disk.files.dom().contains(from) {
            Disk { files: disk.files.remove(from).insert(to, disk.files[from]), ..disk }
        } else {
            disk
        },
        Op::Append(path, data) => Disk {
            files: disk.files.insert(path, content(disk, path) + data),
            ..disk
        },
        Op::Remove(path) => Disk { files: disk.files.remove(path), ..disk },
        Op::RemoveTree(path) => Disk {
            files: disk.files.restrict(
                Set::new(|p: Seq<u8>| disk.files.dom().contains(p) && !below(p, path)),
            ),
            dirs: Set::new(|p: Seq<u8>| disk.dirs.contains(p) && p != path && !below(p, path)),
        },
    }
}

/// What a file holds; a file that is not there holds nothing.
pub open spec fn content(disk: Disk, path: Seq<u8>) -> Seq<u8> {
    if disk.files.dom().contains(path) {
        disk.files[path]
    } else {
        seq![]
    }
}

/// What a disk holds after a list of changes.
pub open spec fn after_ops(disk: Disk, list: Seq<Op>) -> Disk
    decreases list.len(),
{
    if list.len() == 0 {
        disk
    } else {
        after_op(after_ops(disk, list.drop_last()), list.last())
    }
}

// ---------------------------------------------------------------- store --

/// Where the library keeps its captures.
pub struct Store {
    root: Vec<u8>,
}

/// The directory of the run `id` in the store at `root`.
pub open spec fn run_dir(root: Seq<u8>, id: Seq<char>) -> Seq<u8> {
    path_join(path_join(root, encode_utf8("runs"@)), encode_utf8(id))
}

pub open spec fn output_path(root: Seq<u8>, id: Seq<char>) -> Seq<u8> {
    path_join(run_dir(root, id), encode_utf8("output.log"@))
}

pub open spec fn meta_path(root: Seq<u8>, id: Seq<char>) -> Seq<u8> {
    path_join(run_dir(root, id), encode_utf8("meta.json"@))
}

pub open spec fn meta_tmp_path(root: Seq<u8>, id: Seq<char>) -> Seq<u8> {
    path_join(run_dir(root, id), encode_utf8("meta.json.tmp"@))
}

/// The directory of the markers.
pub open spec fn running_dir(root: Seq<u8>) -> Seq<u8> {
    path_join(root, encode_utf8("running"@))
}

pub open spec fn marker_path(root: Seq<u8>, id: Seq<char>) -> Seq<u8> {
    path_join(running_dir(root), encode_utf8(id))
}

pub open spec fn index_path(root: Seq<u8>) -> Seq<u8> {
    path_join(root, encode_utf8("index.jsonl"@))
}

/// The id of a run that `pid` starts at `now`.
pub open spec fn run_id(now: u64, pid: u32) -> Seq<char> {
    padded(now as nat, 13) + "-"@ + padded((pid % 100000) as nat, 5)
}

/// The changes that put `json` in the place of a run's meta.json: readers
/// see the old file or the new one, never a torn one.
pub open spec fn meta_ops(root: Seq<u8>, id: Seq<char>, json: Seq<char>) -> Seq<Op> {
    seq![
        Op::Write(meta_tmp_path(root, id), encode_utf8(json)),
        Op::Rename(meta_tmp_path(root, id), meta_path(root, id)),
    ]
}

/// The changes that register a capture.
pub open spec fn start_ops(root: Seq<u8>, id: Seq<char>, json: Seq<char>) -> Seq<Op> {
    meta_ops(root, id, json).push(Op::Write(marker_path(root, id), seq![]))
}

/// The changes that file a finished run.
pub open spec fn record_ops(root: Seq<u8>, id: Seq<char>, json: Seq<char>) -> Seq<Op> {
    meta_ops(root, id, json).push(
        Op::Append(index_path(root), encode_utf8(json.push('\n'))),
    ).push(Op::Remove(marker_path(root, id)))
}

/// The changes that drop a run's files.
pub open spec fn delete_ops(root: Seq<u8>, id: Seq<char>) -> Seq<Op> {
    seq![Op::RemoveTree(run_dir(root, id)), Op::Remove(marker_path(root, id))]
}

/// A line for each of `entries`.
pub open spec fn index_text(entries: Seq<Seq<char>>) -> Seq<char>
    decreases entries.len(),
{
    if entries.len() == 0 {
        seq![]
    } else {
        index_text(entries.drop_last()) + entries.last().push('\n')
    }
}

/// A copy of `bytes`.
pub fn copy_bytes(bytes: &[u8]) -> (res: Vec<u8>)
    ensures
        res@ == bytes@,
{
    let mut out: Vec<u8> = Vec::new();
    push_bytes(&mut out, bytes);
    assert(out@ =~= bytes@);
    out
}

impl Clone for Store {
    fn clone(&self) -> (res: Self)
        ensures
            res.root() == self.root(),
    {
        Store { root: copy_bytes(self.root.as_slice()) }
    }
}

impl Store {
    pub closed spec fn root(self) -> Seq<u8> {
        self.root@
    }

    /// The store of this machine: `dir` is what `OTTERM_DATA_DIR` names,
    /// `data_dir` the platform's data directory.
    pub fn open(dir: Option<Vec<u8>>, data_dir: Option<Vec<u8>>) -> (res: Result<Store, String>)
        ensures
            dir matches Some(d) ==> (res matches Ok(s) && s.root() == d@),
            dir is None ==> match data_dir {
                Some(d) => res matches Ok(s) && s.root() == path_join(d@, encode_utf8("otterm"@)),
                None => res matches Err(e) && e@ == "no platform data directory"@,
            },
    {
        match dir {
            Some(d) => Ok(Store::open_at(d)),
            None => match data_dir {
                Some(d) => Ok(Store::open_at(join_path(&d, "otterm".as_bytes()))),
                None => Err("no platform data directory".to_owned()),
            },
        }
    }

    /// Root a store at an arbitrary directory.
    pub fn open_at(root: Vec<u8>) -> (res: Store)
        ensures
            res.root() == root@,
    {
        Store { root }
    }

    /// What has to stand on disk before the store is used.
    pub fn layout(&self) -> (res: Vec<FileOp>)
        ensures
            ops(res@) == seq![
                Op::MakeDir(path_join(self.root(), encode_utf8("runs"@))),
                Op::MakeDir(running_dir(self.root())),
            ],
    {
        let mut out: Vec<FileOp> = Vec::new();
        out.push(FileOp::MakeDir { path: join_path(&self.root, "runs".as_bytes()) });
        out.push(FileOp::MakeDir { path: self.running_dir() });
        assert(ops(out@) =~= seq![
            Op::MakeDir(path_join(self.root(), encode_utf8("runs"@))),
            Op::MakeDir(running_dir(self.root())),
        ]);
        out
    }

    /// Millisecond timestamp + pid: sortable, unique enough for one machine.
    pub fn new_id(&self, now: u64, pid: u32) -> (res: String)
        ensures
            res@ == run_id(now, pid),
    {
        let mut out = String::new();
        push_padded(&mut out, now, 13);
        out.push_str("-");
        push_padded(&mut out, (pid % 100_000) as u64, 5);
        assert(out@ =~= run_id(now, pid));
        out
    }

    pub fn run_dir(&self, id: &str) -> (res: Vec<u8>)
        ensures
            res@ == run_dir(self.root(), id@),
    {
        let runs = join_path(&self.root, "runs".as_bytes());
        join_path(&runs, id.as_bytes())
    }

    pub fn output_path(&self, id: &str) -> (res: Vec<u8>)
        ensures
            res@ == output_path(self.root(), id@),
    {
        let dir = self.run_dir(id);
        join_path(&dir, "output.log".as_bytes())
    }

    pub fn index_path(&self) -> (res: Vec<u8>)
        ensures
            res@ == index_path(self.root()),
    {
        join_path(&self.root, "index.jsonl".as_bytes())
    }

    /// The directory of the markers.
    pub fn running_dir(&self) -> (res: Vec<u8>)
        ensures
            res@ == running_dir(self.root()),
    {
        join_path(&self.root, "running".as_bytes())
    }

    /// Marker file registering an in-flight capture. A tiny directory of
    /// markers means discovering live runs never requires scanning every
    /// run dir ever recorded.
    pub fn marker_path(&self, id: &str) -> (res: Vec<u8>)
        ensures
            res@ == marker_path(self.root(), id@),
    {
        let dir = self.running_dir();
        join_path(&dir, id.as_bytes())
    }

    pub fn meta_path(&self, id: &str) -> (res: Vec<u8>)
        ensures
            res@ == meta_path(self.root(), id@),
    {
        let dir = self.run_dir(id);
        join_path(&dir, "meta.json".as_bytes())
    }

    /// How to put `json` in the place of a run's meta.json.
    pub fn write_meta(&self, id: &str, json: &str) -> (res: Vec<FileOp>)
        ensures
            ops(res@) == meta_ops(self.root(), id@, json@),
    {
        let dir = self.run_dir(id);
        let tmp = join_path(&dir, "meta.json.tmp".as_bytes());
        let mut out: Vec<FileOp> = Vec::new();
        out.push(
            FileOp::Write { path: copy_bytes(tmp.as_slice()), data: copy_bytes(json.as_bytes()) },
        );
        out.push(FileOp::Rename { from: tmp, to: self.meta_path(id) });
        assert(ops(out@) =~= meta_ops(self.root(), id@, json@));
        out
    }

    /// Register a capture the moment it starts, so that it can be seen and
    /// followed live. `json` is its record.
    pub fn record_start(&self, id: &str, json: &str) -> (res: Vec<FileOp>)
        ensures
            ops(res@) == start_ops(self.root(), id@, json@),
    {
        let mut out = self.write_meta(id, json);
        let ghost before = out@;
        out.push(FileOp::Write { path: self.marker_path(id), data: Vec::new() });
        assert(ops(out@) =~= ops(before).push(out@.last()@));
        assert(out@.last()@ == Op::Write(marker_path(self.root(), id@), seq![]));
        out
    }

    /// File a finished run: final meta.json, an index line, and the marker
    /// removed. The index line is one append, so that captures that finish
    /// at the same time don't interleave partial lines.
    pub fn record(&self, id: &str, json: &str) -> (res: Vec<FileOp>)
        ensures
            ops(res@) == record_ops(self.root(), id@, json@),
    {
        let mut out = self.write_meta(id, json);
        let ghost two = out@;
        let mut line = json.to_owned();
        line.push('\n');
        out.push(
            FileOp::Append {
                path: self.index_path(),
                data: copy_bytes(line.as_str().as_bytes()),
            },
        );
        let ghost three = out@;
        out.push(FileOp::Remove { path: self.marker_path(id) });
        assert(ops(three) =~= ops(two).push(three.last()@));
        assert(ops(out@) =~= ops(three).push(out@.last()@));
        out
    }

    /// Drop a run's files; the index is rewritten after it (`rewrite_index`).
    pub fn delete(&self, id: &str) -> (res: Vec<FileOp>)
        ensures
            ops(res@) == delete_ops(self.root(), id@),
    {
        let mut out: Vec<FileOp> = Vec::new();
        out.push(FileOp::RemoveTree { path: self.run_dir(id) });
        out.push(FileOp::Remove { path: self.marker_path(id) });
        assert(ops(out@) =~= delete_ops(self.root(), id@));
        out
    }

    /// Make the index hold one line for each of `entries`.
    pub fn rewrite_index(&self, entries: &Vec<String>) -> (res: FileOp)
        ensures
            res@ == Op::Write(index_path(self.root()), encode_utf8(index_text(texts(entries@)))),
    {
        let mut text = String::new();
        let mut i: usize = 0;
        while i < entries.len()
            invariant
                i <= entries@.len(),
                text@ == index_text(texts(entries@).take(i as int)),
            decreases entries@.len() - i,
        {
            text.push_str(entries[i].as_str());
            text.push('\n');
            i = i + 1;
            proof {
                let t = texts(entries@).take(i as int);
                assert(t.drop_last() =~= texts(entries@).take(i - 1));
                assert(t.last() == entries@[i - 1]@);
                assert(text@ =~= index_text(t));
            }
        }
        assert(texts(entries@).take(i as int) =~= texts(entries@));
        FileOp::Write { path: self.index_path(), data: copy_bytes(text.as_str().as_bytes()) }
    }
}

/// Appends `n` in decimal, with zeros in front up to `width` digits.
fn push_padded(out: &mut String, n: u64, width: usize)
    ensures
        final(out)@ == old(out)@ + padded(n as nat, width as nat),
{
    let digits = crate::text::decimal_of(n);
    let len: usize = crate::text::chars_of(digits.as_str()).len();
    let mut k: usize = len;
    while k < width
        invariant
            len == decimal(n as nat).len(),
            len <= k,
            k <= width || k == len,
            out@ == old(out)@ + Seq::new((k - len) as nat, |i: int| '0'),
        decreases width - k,
    {
        out.push('0');
        k = k + 1;
        assert(out@ =~= old(out)@ + Seq::new((k - len) as nat, |i: int| '0'));
    }
    out.push_str(digits.as_str());
    assert(out@ =~= old(out)@ + padded(n as nat, width as nat));
}

// -------------------------------------------------------------- reading --

/// What the runs of `v` hold.
pub open spec fn run_views(v: Seq<RunMeta>) -> Seq<RunView> {
    v.map_values(|m: RunMeta| m@)
}

/// Pushing a run onto a list pushes what it holds.
pub proof fn lemma_run_views_push(v: Seq<RunMeta>, m: RunMeta)
    ensures
        run_views(v.push(m)) == run_views(v).push(m@),
{
    assert(run_views(v.push(m)) =~= run_views(v).push(m@));
}

/// A line of the index, read back.
pub struct IndexLine {
    /// The record on the line; none where the line is corrupt.
    pub meta: Option<RunMeta>,
    /// Whether the directory of the run is still there.
    pub has_dir: bool,
}

/// The runs that an index lists: corrupt lines are passed over, and runs
/// whose directory is gone.
pub open spec fn listed(index: Seq<IndexLine>) -> Seq<RunView>
    decreases index.len(),
{
    if index.len() == 0 {
        seq![]
    } else {
        let rest = listed(index.drop_last());
        match index.last().meta {
            Some(m) => if index.last().has_dir {
                rest.push(m@)
            } else {
                rest
            },
            None => rest,
        }
    }
}

/// A marker of a capture in flight.
pub struct Marker {
    /// The name of its file.
    pub name: Vec<u8>,
    /// The record that the marker stands for; none where it is gone or corrupt.
    pub meta: Option<RunMeta>,
    /// Whether the process of its `probe` lives.
    pub alive: bool,
}

impl Marker {
    /// Whether the marker still stands for a capture that has not finished.
    pub open spec fn in_flight(self) -> bool {
        self.meta matches Some(m) && m@.state(self.alive) != RunState::Done
    }
}

/// The captures that the markers stand for.
pub open spec fn in_flight(markers: Seq<Marker>) -> Seq<RunView>
    decreases markers.len(),
{
    if markers.len() == 0 {
        seq![]
    } else {
        let rest = in_flight(markers.drop_last());
        if markers.last().in_flight() {
            rest.push(markers.last().meta.unwrap()@)
        } else {
            rest
        }
    }
}

/// The same captures, each with whether its process lives.
pub open spec fn flying(markers: Seq<Marker>) -> Seq<(RunView, bool)>
    decreases markers.len(),
{
    if markers.len() == 0 {
        seq![]
    } else {
        let rest = flying(markers.drop_last());
        if markers.last().in_flight() {
            rest.push((markers.last().meta.unwrap()@, markers.last().alive))
        } else {
            rest
        }
    }
}

/// The changes that remove the markers that stand for nothing any more.
pub open spec fn leaked(root: Seq<u8>, markers: Seq<Marker>) -> Seq<Op>
    decreases markers.len(),
{
    if markers.len() == 0 {
        seq![]
    } else {
        let rest = leaked(root, markers.drop_last());
        if markers.last().in_flight() {
            rest
        } else {
            rest.push(Op::Remove(path_join(running_dir(root), markers.last().name@)))
        }
    }
}

/// What a walk through the markers comes to.
pub struct Sweep {
    pub running: Vec<RunMeta>,
    /// The changes that remove the other markers.
    pub stale: Vec<FileOp>,
}

/// The runs of `runs` but those with the id `id`.
pub open spec fn without(runs: Seq<RunView>, id: Seq<char>) -> Seq<RunView>
    decreases runs.len(),
{
    if runs.len() == 0 {
        seq![]
    } else {
        let rest = without(runs.drop_last(), id);
        if runs.last().id == id {
            rest
        } else {
            rest.push(runs.last())
        }
    }
}

/// The place of the first newline in `bytes`, or its length.
pub open spec fn newline_at(bytes: Seq<u8>) -> int
    decreases bytes.len(),
{
    if bytes.len() == 0 || bytes[0] == 10u8 {
        0
    } else {
        1 + newline_at(bytes.drop_first())
    }
}

/// `tail` from its second line on, or all of it where it is one line.
pub open spec fn from_line_start(tail: Seq<u8>) -> Seq<u8> {
    if newline_at(tail) < tail.len() {
        tail.skip(newline_at(tail) + 1)
    } else {
        tail
    }
}

/// What is read of a log of which at most `max` bytes are wanted.
pub open spec fn log_tail(log: Seq<u8>, max: u64) -> Seq<u8> {
    if log.len() > max {
        from_line_start(log.skip(log.len() - max))
    } else {
        log
    }
}

/// `line` without a carriage return at its end.
pub open spec fn cut_cr(line: Seq<u8>) -> Seq<u8> {
    if line.len() > 0 && line.last() == 13u8 {
        line.drop_last()
    } else {
        line
    }
}

/// The lines of `bytes`: a line ends at a newline, with or without a carriage
/// return before it, and the end of the last line may be missing.
pub open spec fn byte_lines(bytes: Seq<u8>) -> Seq<Seq<u8>>
    decreases bytes.len(),
    via byte_lines_shrink
{
    let n = newline_at(bytes);
    if bytes.len() == 0 {
        seq![]
    } else if n == bytes.len() {
        seq![bytes]
    } else {
        seq![cut_cr(bytes.take(n))] + byte_lines(bytes.skip(n + 1))
    }
}

#[via_fn]
proof fn byte_lines_shrink(bytes: Seq<u8>) {
    lemma_newline_at(bytes);
}

pub proof fn lemma_newline_at(bytes: Seq<u8>)
    ensures
        0 <= newline_at(bytes) <= bytes.len(),
        newline_at(bytes) < bytes.len() ==> bytes[newline_at(bytes)] == 10u8,
        forall|k: int| 0 <= k < newline_at(bytes) ==> bytes[k] != 10u8,
    decreases bytes.len(),
{
    if bytes.len() > 0 && bytes[0] != 10u8 {
        lemma_newline_at(bytes.drop_first());
        assert forall|k: int| 0 <= k < newline_at(bytes) implies bytes[k] != 10u8 by {
            if k > 0 {
                assert(bytes.drop_first()[k - 1] == bytes[k]);
            }
        }
    }
}

/// The rows of an index. Each is read as text for itself, so that a byte
/// that is no text spoils its own row and no other.
pub open spec fn index_rows(bytes: Seq<u8>) -> Seq<Seq<char>> {
    byte_lines(bytes).map_values(|line: Seq<u8>| text_in(line))
}

/// Where the line that starts at `from` ends.
fn line_end(bytes: &[u8], from: usize) -> (res: usize)
    requires
        from <= bytes@.len(),
    ensures
        res == from + newline_at(bytes@.skip(from as int)),
        from <= res <= bytes@.len(),
{
    let mut i: usize = from;
    while i < bytes.len() && bytes[i] != 10u8
        invariant
            from <= i <= bytes@.len(),
            from + newline_at(bytes@.skip(from as int)) == i + newline_at(bytes@.skip(i as int)),
        decreases bytes@.len() - i,
    {
        assert(bytes@.skip(i as int).drop_first() =~= bytes@.skip(i + 1));
        i = i + 1;
    }
    i
}

/// The rows of an index, from its bytes.
pub fn index_lines(bytes: &[u8]) -> (res: Vec<String>)
    ensures
        texts(res@) == index_rows(bytes@),
{
    let mut out: Vec<String> = Vec::new();
    let size: usize = bytes.len();
    let mut at: usize = 0;
    proof {
        assert(bytes@.skip(0) =~= bytes@);
        assert(texts(out@) + index_rows(bytes@) =~= index_rows(bytes@));
    }
    while at < size
        invariant
            at <= size,
            size == bytes@.len(),
            index_rows(bytes@) == texts(out@) + index_rows(bytes@.skip(at as int)),
        decreases size - at,
    {
        let ghost rest = bytes@.skip(at as int);
        let n: usize = line_end(bytes, at);
        let end: usize = if n < size && at < n && bytes[n - 1] == 13u8 {
            n - 1
        } else {
            n
        };
        let row = read_text(&bytes[at..end]);
        let next: usize = if n < size {
            n + 1
        } else {
            n
        };
        proof {
            let len = n - at;
            let after = bytes@.skip(next as int);
            assert(rest.take(len) =~= bytes@.subrange(at as int, n as int));
            if n < size {
                assert(cut_cr(rest.take(len)) =~= bytes@.subrange(at as int, end as int));
                assert(rest.skip(len + 1) =~= after);
                assert(byte_lines(rest) == seq![bytes@.subrange(at as int, end as int)]
                    + byte_lines(after));
            } else {
                assert(rest =~= bytes@.subrange(at as int, end as int));
                assert(after =~= seq![]);
                assert(byte_lines(after) =~= seq![]);
                assert(byte_lines(rest) =~= seq![bytes@.subrange(at as int, end as int)]
                    + byte_lines(after));
            }
            assert(index_rows(rest) =~= seq![row@] + index_rows(after));
            lemma_texts_push(out@, row);
            assert(texts(out@) + (seq![row@] + index_rows(after)) =~= texts(out@).push(row@)
                + index_rows(after));
        }
        out.push(row);
        at = next;
    }
    proof {
        assert(bytes@.skip(at as int) =~= seq![]);
        assert(byte_lines(bytes@.skip(at as int)) =~= seq![]);
        assert(index_rows(bytes@.skip(at as int)) =~= seq![]);
        assert(texts(out@) =~= index_rows(bytes@));
    }
    out
}

impl Store {
    /// All runs, oldest first. Tolerates corrupt lines and runs whose
    /// directory was deleted out from under the index.
    pub fn list(index: &Vec<IndexLine>) -> (res: Vec<RunMeta>)
        ensures
            run_views(res@) == listed(index@),
    {
        let mut out: Vec<RunMeta> = Vec::new();
        let mut i: usize = 0;
        assert(run_views(out@) =~= seq![]);
        while i < index.len()
            invariant
                i <= index@.len(),
                run_views(out@) == listed(index@.take(i as int)),
            decreases index@.len() - i,
        {
            assert(index@.take(i + 1).drop_last() =~= index@.take(i as int));
            if index[i].has_dir {
                if let Some(m) = &index[i].meta {
                    let copy = m.clone();
                    proof {
                        lemma_run_views_push(out@, copy);
                    }
                    out.push(copy);
                }
            }
            i = i + 1;
        }
        assert(index@.take(i as int) =~= index@);
        out
    }

    /// In-flight (and died-in-flight) captures, via the markers. Markers
    /// whose run completed or vanished are to be removed.
    pub fn list_running(&self, markers: &Vec<Marker>) -> (res: Sweep)
        ensures
            run_views(res.running@) == in_flight(markers@),
            ops(res.stale@) == leaked(self.root(), markers@),
    {
        let dir = self.running_dir();
        let mut running: Vec<RunMeta> = Vec::new();
        let mut stale: Vec<FileOp> = Vec::new();
        let mut i: usize = 0;
        assert(run_views(running@) =~= seq![]);
        assert(ops(stale@) =~= seq![]);
        while i < markers.len()
            invariant
                i <= markers@.len(),
                dir@ == running_dir(self.root()),
                run_views(running@) == in_flight(markers@.take(i as int)),
                ops(stale@) == leaked(self.root(), markers@.take(i as int)),
            decreases markers@.len() - i,
        {
            assert(markers@.take(i + 1).drop_last() =~= markers@.take(i as int));
            let mut kept = false;
            if let Some(m) = &markers[i].meta {
                if m.state(markers[i].alive) != RunState::Done {
                    let copy = m.clone();
                    proof {
                        lemma_run_views_push(running@, copy);
                    }
                    running.push(copy);
                    kept = true;
                }
            }
            if !kept {
                let op = FileOp::Remove { path: join_path(&dir, markers[i].name.as_slice()) };
                assert(ops(stale@.push(op)) =~= ops(stale@).push(op@));
                stale.push(op);
            }
            i = i + 1;
        }
        assert(markers@.take(i as int) =~= markers@);
        Sweep { running, stale }
    }

    /// What stays of `runs` when the run `id` goes.
    pub fn without(runs: &Vec<RunMeta>, id: &str) -> (res: Vec<RunMeta>)
        ensures
            run_views(res@) == without(run_views(runs@), id@),
    {
        let mut out: Vec<RunMeta> = Vec::new();
        let mut i: usize = 0;
        assert(run_views(out@) =~= seq![]);
        while i < runs.len()
            invariant
                i <= runs@.len(),
                run_views(out@) == without(run_views(runs@).take(i as int), id@),
            decreases runs@.len() - i,
        {
            assert(run_views(runs@).take(i + 1).drop_last() =~= run_views(runs@).take(i as int));
            if !crate::text::same(runs[i].id.as_str(), id) {
                let copy = runs[i].clone();
                proof {
                    lemma_run_views_push(out@, copy);
                }
                out.push(copy);
            }
            i = i + 1;
        }
        assert(run_views(runs@).take(i as int) =~= run_views(runs@));
        out
    }

    /// The most recent of `runs`, which come oldest first.
    pub fn last(runs: &Vec<RunMeta>) -> (res: Result<&RunMeta, &'static str>)
        ensures
            match res {
                Ok(m) => runs@.len() > 0 && *m == runs@.last(),
                Err(why) => runs@.len() == 0 && why@ == "no runs captured yet"@,
            },
    {
        if runs.len() == 0 {
            Err("no runs captured yet")
        } else {
            Ok(&runs[runs.len() - 1])
        }
    }

    /// Where to start reading a log of `len` bytes of which at most `max` are
    /// wanted, and whether that leaves some out. The tail is kept: the end is
    /// usually what you're looking for.
    pub fn tail_window(len: u64, max: u64) -> (res: (u64, bool))
        ensures
            res.1 == (len > max),
            res.0 == if len > max {
                len - max
            } else {
                0
            },
    {
        if len > max {
            (len - max, true)
        } else {
            (0, false)
        }
    }

    /// A run's output, from the bytes that were read of its log. Where some
    /// were left out, don't start mid-escape-sequence: drop up to the first
    /// newline.
    pub fn read_output(tail: Vec<u8>, truncated: bool) -> (res: (Vec<u8>, bool))
        ensures
            res.0@ == if truncated {
                from_line_start(tail@)
            } else {
                tail@
            },
            res.1 == truncated,
    {
        if !truncated {
            return (tail, false);
        }
        assert(tail@.skip(0) =~= tail@);
        let i: usize = line_end(tail.as_slice(), 0);
        if i < tail.len() {
            assert(tail@.skip(i + 1) =~= tail@.subrange(i + 1, tail@.len() as int));
            (copy_bytes(&tail[i + 1..tail.len()]), true)
        } else {
            (tail, true)
        }
    }
}

} // verus!
