//! `otterm run`: what a capture decides while a command runs on a pty, its
//! output mirrored to the real terminal and kept byte for byte.
use crate::figures::{as_double, half_even, nearest, push_tenths, tenths, to_double};
use crate::store::{copy_words, RunMeta, RunView};
use crate::text::{decimal, push_decimal, texts};
use crate::text_laws::{law_doubles, law_rounding};
use vstd::prelude::*;

verus! {

/// How to launch a command under capture.
pub struct Launch {
    pub program: String,
    pub args: Vec<String>,
    /// Whether a person sits at both ends. Only then is the terminal put in
    /// raw mode, and only then does the pty echo: elsewhere there is nothing
    /// to echo back, and the end-of-input character would land in the log.
    pub interactive: bool,
}

impl Launch {
    /// The command line `argv`, where `stdin_tty` and `stdout_tty` say
    /// whether input and output are terminals.
    pub fn new(argv: &Vec<String>, stdin_tty: bool, stdout_tty: bool) -> (res: Launch)
        requires
            argv@.len() > 0,
        ensures
            res.program@ == argv@[0]@,
            texts(res.args@) == texts(argv@).skip(1),
            res.interactive == (stdin_tty && stdout_tty),
    {
        let mut args: Vec<String> = Vec::new();
        let mut i: usize = 1;
        while i < argv.len()
            invariant
                1 <= i <= argv@.len(),
                args@.len() == i - 1,
                forall|k: int| 0 <= k < i - 1 ==> args@[k]@ == argv@[k + 1]@,
            decreases argv@.len() - i,
        {
            args.push(argv[i].clone());
            i = i + 1;
        }
        assert(texts(args@) =~= texts(argv@).skip(1));
        Launch { program: argv[0].clone(), args, interactive: stdin_tty && stdout_tty }
    }
}

/// The size of the pty as columns and rows: the terminal's, or 80 by 24
/// where there is none to ask.
pub fn pty_size(terminal: Option<(u16, u16)>) -> (res: (u16, u16))
    ensures
        res == match terminal {
            Some(size) => size,
            None => (80u16, 24u16),
        },
{
    match terminal {
        Some(size) => size,
        None => (80, 24),
    }
}

/// What came of a read from the pty.
pub enum Chunk {
    /// So many bytes of output.
    Data(usize),
    /// The end. A failed read is one too: it is how a pty says that it closed.
    End,
}

/// What to do next.
pub enum Tee {
    /// Hand so many bytes to the terminal and to the log, flush both, and
    /// read on.
    Forward(usize),
    /// Wait for the child and finish.
    Finish,
}

/// How the child went.
pub struct Exit {
    pub code: u32,
    /// Whether a signal killed it.
    pub signaled: bool,
}

/// A capture under way.
pub struct Capture {
    /// The record, as it stands on disk.
    pub meta: RunMeta,
    /// How many bytes the child has printed so far.
    pub bytes: u64,
}

/// The record of a run that starts now.
pub open spec fn begun(
    id: Seq<char>,
    argv: Seq<Seq<char>>,
    cwd: Seq<char>,
    now: u64,
    pid: u32,
) -> RunView {
    RunView {
        id,
        cmd: argv,
        cwd,
        started_ms: now,
        duration_ms: 0,
        exit_code: None,
        bytes: 0,
        done: false,
        pid: Some(pid),
    }
}

/// The number that the 32 bits of `code` stand for with a sign.
pub open spec fn signed(code: u32) -> int {
    if code < 0x8000_0000 {
        code as int
    } else {
        code - 0x1_0000_0000
    }
}

/// The record of a run that ended.
pub open spec fn ended(meta: RunView, now: u64, bytes: u64, exit: Exit) -> RunView {
    RunView {
        duration_ms: if now >= meta.started_ms {
            (now - meta.started_ms) as u64
        } else {
            0
        },
        exit_code: if exit.signaled {
            None
        } else {
            Some(signed(exit.code) as i32)
        },
        bytes,
        done: true,
        ..meta
    }
}

/// `code` with its 32 bits read as a number with a sign.
pub fn exit_status(code: u32) -> (res: i32)
    ensures
        res == signed(code),
{
    if code <= 0x7fff_ffff {
        code as i32
    } else {
        -((0xffff_ffff - code) as i32) - 1
    }
}

/// What a chunk calls for.
pub open spec fn tee_step(chunk: Chunk) -> Tee {
    match chunk {
        Chunk::Data(n) => if n > 0 {
            Tee::Forward(n)
        } else {
            Tee::Finish
        },
        Chunk::End => Tee::Finish,
    }
}

/// How many bytes a step hands on.
pub open spec fn forwarded(step: Tee) -> nat {
    match step {
        Tee::Forward(n) => n as nat,
        Tee::Finish => 0,
    }
}

impl Capture {
    /// The capture of `argv` that the process `pid` starts at `now`.
    pub fn start(id: String, argv: &Vec<String>, cwd: String, now: u64, pid: u32) -> (res: Capture)
        ensures
            res.meta@ == begun(id@, texts(argv@), cwd@, now, pid),
            res.bytes == 0,
    {
        Capture {
            meta: RunMeta {
                id,
                cmd: copy_words(argv),
                cwd,
                started_ms: now,
                duration_ms: 0,
                exit_code: None,
                bytes: 0,
                done: false,
                pid: Some(pid),
            },
            bytes: 0,
        }
    }

    /// Every chunk goes to the terminal and the log, and is counted.
    pub fn tee(&mut self, chunk: Chunk) -> (res: Tee)
        requires
            chunk matches Chunk::Data(n) ==> old(self).bytes + n <= u64::MAX,
        ensures
            final(self).meta == old(self).meta,
            res == tee_step(chunk),
            final(self).bytes == old(self).bytes + forwarded(tee_step(chunk)),
    {
        match chunk {
            Chunk::Data(n) => if n > 0 {
                self.bytes = self.bytes + n as u64;
                Tee::Forward(n)
            } else {
                Tee::Finish
            },
            Chunk::End => Tee::Finish,
        }
    }

    /// Completes the record.
    pub fn finish(&mut self, now: u64, exit: Exit)
        ensures
            final(self).meta@ == ended(old(self).meta@, now, old(self).bytes, exit),
            final(self).bytes == old(self).bytes,
    {
        self.meta.duration_ms = now.saturating_sub(self.meta.started_ms);
        self.meta.exit_code = if exit.signaled {
            None
        } else {
            Some(exit_status(exit.code))
        };
        self.meta.bytes = self.bytes;
        self.meta.done = true;
    }
}

/// The line that `otterm run` prints when it is done.
pub open spec fn footer_text(bytes: u64, code: u32) -> Seq<char> {
    "\x1b[2m~( o.o )~  captured "@ + bytes_text(bytes) + " · exit "@ + decimal(code as nat)
        + " · otterm to browse\x1b[0m"@
}

/// The line to print after a capture; none under ambient capture, where it
/// would follow every single command.
pub fn footer(quiet: bool, bytes: u64, code: u32) -> (res: Option<String>)
    ensures
        quiet ==> res is None,
        !quiet ==> (res matches Some(line) && line@ == footer_text(bytes, code)),
{
    if quiet {
        return None;
    }
    let mut out = String::new();
    out.push_str("\x1b[2m~( o.o )~  captured ");
    out.push_str(human_bytes(bytes).as_str());
    out.push_str(" · exit ");
    push_decimal(&mut out, code as u64);
    out.push_str(" · otterm to browse\x1b[0m");
    assert(out@ =~= footer_text(bytes, code));
    Some(out)
}

/// `n` bytes for people: as bytes, or in KB or MB with one decimal.
pub open spec fn bytes_text(n: u64) -> Seq<char> {
    if n < 1024 {
        decimal(n as nat) + " B"@
    } else if n < 1_048_576 {
        tenths(half_even(n as nat * 10, 1024)) + " KB"@
    } else {
        tenths(half_even(as_double(n as nat) * 10, 1_048_576)) + " MB"@
    }
}

pub fn human_bytes(n: u64) -> (res: String)
    ensures
        res@ == bytes_text(n),
{
    let mut out = String::new();
    if n < 1024 {
        push_decimal(&mut out, n);
        out.push_str(" B");
    } else if n < 1_048_576 {
        let t: u128 = nearest(n as u128 * 10, 1024);
        assert(t <= 1_048_576);
        push_tenths(&mut out, t as u64);
        out.push_str(" KB");
    } else {
        let d: u128 = to_double(n);
        let t: u128 = nearest(d * 10, 1_048_576);
        assert(t <= d * 10 / 1_048_576 + 1);
        push_tenths(&mut out, t as u64);
        out.push_str(" MB");
    }
    assert(out@ =~= bytes_text(n));
    out
}

/// A capture's record is on file as running from its start, and as done, with
/// every byte counted, once it is finished.
pub proof fn law_capture_life(
    id: Seq<char>,
    argv: Seq<Seq<char>>,
    cwd: Seq<char>,
    now: u64,
    pid: u32,
    later: u64,
    bytes: u64,
    exit: Exit,
)
    ensures
        ({
            let first = begun(id, argv, cwd, now, pid);
            let last = ended(first, later, bytes, exit);
            &&& first.probe() == Some(pid)
            &&& first.state(true) == crate::store::RunState::Running
            &&& first.state(false) == crate::store::RunState::Died
            &&& forall|alive: bool| last.state(alive) == crate::store::RunState::Done
            &&& last.success() <==> exit.code == 0 && !exit.signaled
            &&& last.bytes == bytes
            &&& last.id == first.id && last.cmd == first.cmd && last.cwd == first.cwd
            &&& last.started_ms == first.started_ms
            &&& first.id == id && first.cmd == argv && first.cwd == cwd && first.started_ms == now
            &&& first.bytes == 0 && first.duration_ms == 0 && first.exit_code is None
            &&& later >= now ==> last.started_ms + last.duration_ms == later
            &&& later < now ==> last.duration_ms == 0
        }),
{
}

/// The record of a run that ends keeps what was known of it, and adds how
/// long it took, how it went and how much it printed: the time from its start
/// to its end, none where the clock went back; the exit code, with the 32 bits
/// that the system gave, unless a signal killed it; and the bytes counted.
pub proof fn law_endings(meta: RunView, now: u64, bytes: u64, exit: Exit)
    ensures
        ({
            let last = ended(meta, now, bytes, exit);
            &&& now >= meta.started_ms ==> meta.started_ms + last.duration_ms == now
            &&& now < meta.started_ms ==> last.duration_ms == 0
            &&& exit.signaled ==> last.exit_code is None
            &&& !exit.signaled ==> last.exit_code is Some
            &&& last.exit_code matches Some(c) ==> c == exit.code || c == exit.code
                - 0x1_0000_0000
            &&& last == (RunView {
                duration_ms: last.duration_ms,
                exit_code: last.exit_code,
                bytes,
                done: true,
                ..meta
            })
        }),
{
}

/// Output goes on, all of it and counted, until there is none; a read of
/// nothing, or one that fails, ends the capture.
pub proof fn law_output_goes_on(n: usize)
    ensures
        n > 0 ==> tee_step(Chunk::Data(n)) == Tee::Forward(n),
        tee_step(Chunk::Data(0)) == Tee::Finish,
        tee_step(Chunk::End) == Tee::Finish,
        forwarded(Tee::Forward(n)) == n,
        forwarded(Tee::Finish) == 0,
{
}

/// Sizes are given in bytes below 1024, in KB below 1024 of those, and in MB
/// from there on; the one decimal is the nearest, or the even one of two.
pub proof fn law_sizes(n: u64) -> (t: nat)
    ensures
        n < 1024 ==> bytes_text(n) == decimal(n as nat) + " B"@,
        1024 <= n < 1024 * 1024 ==> {
            &&& bytes_text(n) == tenths(t) + " KB"@
            &&& 20 * n <= 2048 * t + 1024
            &&& 2048 * t <= 20 * n + 1024
            &&& 20 * n == 2048 * t + 1024 || 2048 * t == 20 * n + 1024 ==> t % 2 == 0
        },
        1024 * 1024 <= n < 0x20_0000_0000_0000 ==> {
            &&& bytes_text(n) == tenths(t) + " MB"@
            &&& 20 * n <= 2_097_152 * t + 1_048_576
            &&& 2_097_152 * t <= 20 * n + 1_048_576
            &&& 20 * n == 2_097_152 * t + 1_048_576 || 2_097_152 * t == 20 * n + 1_048_576 ==> t % 2
                == 0
        },
        n >= 0x20_0000_0000_0000 ==> {
            &&& bytes_text(n) == tenths(t) + " MB"@
            &&& 20 * as_double(n as nat) <= 2_097_152 * t + 1_048_576
            &&& 2_097_152 * t <= 20 * as_double(n as nat) + 1_048_576
            &&& 20 * as_double(n as nat) == 2_097_152 * t + 1_048_576 || 2_097_152 * t == 20
                * as_double(n as nat) + 1_048_576 ==> t % 2 == 0
        },
{
    law_doubles(n as nat);
    if n < 1024 * 1024 {
        law_rounding(n as nat * 10, 1024);
        half_even(n as nat * 10, 1024)
    } else {
        law_rounding(as_double(n as nat) * 10, 1_048_576);
        half_even(as_double(n as nat) * 10, 1_048_576)
    }
}

/// What is said after a capture: how much was captured and how it went.
pub proof fn law_footer(bytes: u64, code: u32)
    ensures
        footer_text(bytes, code) == "\x1b[2m~( o.o )~  captured "@ + bytes_text(bytes) + " · exit "@
            + decimal(code as nat) + " · otterm to browse\x1b[0m"@,
{
}

} // verus!
