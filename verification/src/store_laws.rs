//! What holds of ids, of the index and of logs.
use crate::serve::{id_char, is_run_id};
use crate::store::{
    byte_lines, cut_cr, flying, from_line_start, in_flight, index_rows, index_text, leaked,
    lemma_newline_at, listed, log_tail, newline_at, path_join, run_id, running_dir, without,
    IndexLine, Marker, Op, RunState, RunView,
};
use crate::text::{decimal, digit, index_of_char, lemma_index_of_char_is, padded, text_in};
use vstd::prelude::*;
use vstd::utf8::{
    char_u32_cast, encode_scalar, encode_utf8, encode_utf8_decode_utf8, encode_utf8_valid_utf8,
    has_width_1_encoding, is_ascii_chars_encode_utf8, last_continuation_byte,
    leading_byte_width_1, leading_byte_width_2, leading_byte_width_3, leading_byte_width_4,
    second_last_continuation_byte, third_last_continuation_byte,
};

verus! {

// ------------------------------------------------------------------ ids --

/// The number that a run of digits stands for.
pub open spec fn value(s: Seq<char>) -> nat
    decreases s.len(),
{
    if s.len() == 0 {
        0
    } else {
        value(s.drop_last()) * 10 + (s.last() as nat - 48) as nat
    }
}

proof fn lemma_decimal(n: nat)
    ensures
        decimal(n).len() > 0,
        forall|k: int| 0 <= k < decimal(n).len() ==> '0' <= #[trigger] decimal(n)[k] <= '9',
        value(decimal(n)) == n,
    decreases n,
{
    if n < 10 {
        assert(decimal(n).drop_last() =~= seq![]);
        assert(value(decimal(n).drop_last()) == 0);
    } else {
        lemma_decimal(n / 10);
        assert(decimal(n).drop_last() =~= decimal(n / 10));
    }
}

proof fn lemma_zeros(zeros: Seq<char>, s: Seq<char>)
    requires
        forall|k: int| 0 <= k < zeros.len() ==> zeros[k] == '0',
    ensures
        value(zeros + s) == value(s),
    decreases zeros.len() + s.len(),
{
    if s.len() > 0 {
        assert((zeros + s).drop_last() =~= zeros + s.drop_last());
        assert((zeros + s).last() == s.last());
        lemma_zeros(zeros, s.drop_last());
    } else if zeros.len() > 0 {
        let z = zeros.drop_last();
        assert(zeros + s =~= zeros);
        assert(z + s =~= z);
        lemma_zeros(z, s);
    } else {
        assert(zeros + s =~= s);
    }
}

proof fn lemma_padded(n: nat, width: nat)
    ensures
        padded(n, width).len() >= width,
        padded(n, width).len() > 0,
        forall|k: int| 0 <= k < padded(n, width).len() ==> '0' <= #[trigger] padded(n, width)[k] <= '9',
        value(padded(n, width)) == n,
{
    lemma_decimal(n);
    let d = decimal(n);
    if d.len() < width {
        lemma_zeros(Seq::new((width - d.len()) as nat, |i: int| '0'), d);
    }
}

/// Every id that the store makes is one that the server lets through.
pub proof fn law_new_ids_are_valid(now: u64, pid: u32)
    ensures
        is_run_id(run_id(now, pid)),
{
    reveal_strlit("-");
    lemma_padded(now as nat, 13);
    lemma_padded((pid % 100000) as nat, 5);
    let id = run_id(now, pid);
    let a = padded(now as nat, 13);
    assert forall|k: int| 0 <= k < id.len() implies id_char(#[trigger] id[k]) by {
        if k < a.len() {
            assert(id[k] == a[k]);
        } else if k > a.len() {
            assert(id[k] == padded((pid % 100000) as nat, 5)[k - a.len() - 1]);
        } else {
            assert(id[k] == "-"@[0]);
        }
    }
}

/// An id tells when its run was started and by which process, so that two
/// runs share an id only if they share both.
pub proof fn law_ids_read_back(now: u64, pid: u32)
    ensures
        ({
            let id = run_id(now, pid);
            let dash = index_of_char(id, '-');
            &&& value(id.take(dash)) == now
            &&& value(id.skip(dash + 1)) == pid % 100000
        }),
{
    reveal_strlit("-");
    let a = padded(now as nat, 13);
    let b = padded((pid % 100000) as nat, 5);
    lemma_padded(now as nat, 13);
    lemma_padded((pid % 100000) as nat, 5);
    let id = run_id(now, pid);
    assert(id[a.len() as int] == "-"@[0]);
    assert forall|k: int| 0 <= k < a.len() implies id[k] != '-' by {
        assert(id[k] == a[k]);
    }
    lemma_index_of_char_is(id, '-', a.len() as int);
    assert(id.take(a.len() as int) =~= a);
    assert(id.skip(a.len() as int + 1) =~= b);
}

/// `a` comes before `b`, character by character.
pub open spec fn sorts_before(a: Seq<char>, b: Seq<char>) -> bool {
    exists|k: int|
        0 <= k < a.len() && k < b.len() && a.take(k) == b.take(k) && #[trigger] a[k] < b[k]
}

spec fn fixed(n: nat, width: nat) -> Seq<char>
    decreases width,
{
    if width == 0 {
        seq![]
    } else {
        fixed(n / 10, (width - 1) as nat).push(digit((n % 10) as int))
    }
}

spec fn ten_to(width: nat) -> nat
    decreases width,
{
    if width == 0 {
        1
    } else {
        10 * ten_to((width - 1) as nat)
    }
}

proof fn lemma_fixed_len(n: nat, width: nat)
    ensures
        fixed(n, width).len() == width,
    decreases width,
{
    if width > 0 {
        lemma_fixed_len(n / 10, (width - 1) as nat);
    }
}

proof fn lemma_padded_fixed(n: nat, width: nat)
    requires
        n < ten_to(width),
        width >= 1,
    ensures
        padded(n, width) == fixed(n, width),
    decreases width,
{
    let w = (width - 1) as nat;
    reveal_with_fuel(fixed, 2);
    reveal_with_fuel(ten_to, 2);
    if w == 0 {
        assert(padded(n, 1) =~= fixed(n, 1));
    } else {
        assert(n / 10 < ten_to(w));
        lemma_padded_fixed(n / 10, w);
        if n < 10 {
            assert(padded(0, w) =~= Seq::new(w, |i: int| '0'));
            assert(padded(n, width) =~= padded(0, w).push(digit(n as int)));
        } else {
            assert(decimal(n) == decimal(n / 10).push(digit((n % 10) as int)));
            assert(padded(n, width) =~= padded(n / 10, w).push(digit((n % 10) as int)));
        }
    }
}

proof fn lemma_fixed_sorts(n: nat, m: nat, width: nat)
    requires
        n < m < ten_to(width),
    ensures
        sorts_before(fixed(n, width), fixed(m, width)),
    decreases width,
{
    if width > 0 {
        let w = (width - 1) as nat;
        let a = fixed(n, width);
        let b = fixed(m, width);
        let a0 = fixed(n / 10, w);
        let b0 = fixed(m / 10, w);
        lemma_fixed_len(n / 10, w);
        lemma_fixed_len(m / 10, w);
        if n / 10 < m / 10 {
            lemma_fixed_sorts(n / 10, m / 10, w);
            let k = choose|k: int|
                0 <= k < a0.len() && k < b0.len() && a0.take(k) == b0.take(k) && #[trigger] a0[k]
                    < b0[k];
            assert(a.take(k) =~= a0.take(k));
            assert(b.take(k) =~= b0.take(k));
            assert(a[k] < b[k]);
        } else {
            assert(a.take(w as int) =~= a0);
            assert(b.take(w as int) =~= b0);
            assert(a[w as int] < b[w as int]);
        }
    }
}

/// Ids sort by the time their runs started, as long as a timestamp has
/// thirteen digits.
pub proof fn law_ids_sort_by_time(now: u64, pid: u32, later: u64, other: u32)
    requires
        now < later < 10_000_000_000_000,
    ensures
        sorts_before(run_id(now, pid), run_id(later, other)),
{
    reveal_with_fuel(ten_to, 14);
    lemma_padded_fixed(now as nat, 13);
    lemma_padded_fixed(later as nat, 13);
    lemma_fixed_sorts(now as nat, later as nat, 13);
    let a = padded(now as nat, 13);
    let b = padded(later as nat, 13);
    let k = choose|k: int|
        0 <= k < a.len() && k < b.len() && a.take(k) == b.take(k) && #[trigger] a[k] < b[k];
    let x = run_id(now, pid);
    let y = run_id(later, other);
    assert(x.take(k) =~= a.take(k));
    assert(y.take(k) =~= b.take(k));
    assert(x[k] == a[k] && y[k] == b[k]);
}

// ---------------------------------------------------------------- index --

/// Bytes that end where a line ends.
pub open spec fn whole_lines(bytes: Seq<u8>) -> bool {
    bytes.len() == 0 || bytes.last() == 10u8
}

/// Text that can stand on one line and be read back: no line end in it, and
/// no carriage return at its end. A JSON object is such a text.
pub open spec fn one_line(text: Seq<char>) -> bool {
    &&& forall|k: int| 0 <= k < text.len() ==> text[k] != '\n'
    &&& text.len() > 0 ==> text.last() != '\r'
}

proof fn lemma_narrow_bytes(c: u32)
    by (bit_vector)
    requires
        has_width_1_encoding(c),
    ensures
        leading_byte_width_1(c) == 10u8 ==> c == 10,
        leading_byte_width_1(c) == 13u8 ==> c == 13,
{
}

proof fn lemma_wide_bytes(c: u32)
    by (bit_vector)
    ensures
        leading_byte_width_2(c) >= 128u8,
        leading_byte_width_3(c) >= 128u8,
        leading_byte_width_4(c) >= 128u8,
        last_continuation_byte(c) >= 128u8,
        second_last_continuation_byte(c) >= 128u8,
        third_last_continuation_byte(c) >= 128u8,
{
}

proof fn lemma_one_line_bytes(text: Seq<char>)
    requires
        one_line(text),
    ensures
        forall|k: int| 0 <= k < encode_utf8(text).len() ==> encode_utf8(text)[k] != 10u8,
        encode_utf8(text).len() > 0 ==> encode_utf8(text).last() != 13u8,
    decreases text.len(),
{
    if text.len() > 0 {
        let c = text[0] as u32;
        let rest = text.drop_first();
        let first = encode_scalar(c);
        let bytes = encode_utf8(text);
        assert(one_line(rest)) by {
            assert forall|k: int| 0 <= k < rest.len() implies rest[k] != '\n' by {
                assert(rest[k] == text[k + 1]);
            }
            if rest.len() > 0 {
                assert(rest.last() == text.last());
            }
        }
        lemma_one_line_bytes(rest);
        if has_width_1_encoding(c) {
            lemma_narrow_bytes(c);
        }
        lemma_wide_bytes(c);
        char_u32_cast(text[0], c);
        assert(text[0] != '\n');
        assert(c != 10);
        assert forall|k: int| 0 <= k < bytes.len() implies bytes[k] != 10u8 by {
            if k < first.len() {
                assert(bytes[k] == first[k]);
            } else {
                assert(bytes[k] == encode_utf8(rest)[k - first.len()]);
            }
        }
        if encode_utf8(rest).len() > 0 {
            assert(bytes.last() == encode_utf8(rest).last());
        } else {
            assert(rest.len() == 0) by {
                if rest.len() > 0 {
                    assert(encode_scalar(rest[0] as u32).len() > 0);
                }
            }
            assert(text.last() == text[0]);
            assert(c != 13);
            assert(bytes.last() == first.last());
        }
    }
}

/// A text that is written with a newline behind it.
pub proof fn lemma_line_bytes(json: Seq<char>)
    ensures
        encode_utf8(json.push('\n')) == encode_utf8(json).push(10u8),
{
    let end = seq!['\n'];
    law_index_bytes_append(json, end);
    assert(json + end =~= json.push('\n'));
    is_ascii_chars_encode_utf8(end);
    assert(encode_utf8(end) =~= seq![10u8]);
    assert(encode_utf8(json) + seq![10u8] =~= encode_utf8(json).push(10u8));
}

/// What was written as text is read as that text.
pub proof fn law_text_reads_back(text: Seq<char>)
    ensures
        text_in(encode_utf8(text)) == text,
{
    encode_utf8_valid_utf8(text);
    encode_utf8_decode_utf8(text);
}

/// A line added to whole lines is read back as one more row, whatever bytes
/// stand before it.
pub proof fn law_record_adds_one_line(bytes: Seq<u8>, json: Seq<char>)
    requires
        whole_lines(bytes),
        one_line(json),
    ensures
        index_rows(bytes + encode_utf8(json.push('\n'))) == index_rows(bytes).push(json),
        whole_lines(bytes + encode_utf8(json.push('\n'))),
{
    lemma_line_bytes(json);
    lemma_one_line_bytes(json);
    lemma_line_added(bytes, encode_utf8(json));
    law_text_reads_back(json);
    let all = bytes + encode_utf8(json).push(10u8);
    assert(all.last() == 10u8);
    assert(index_rows(all) =~= index_rows(bytes).push(json));
}

proof fn lemma_line_added(bytes: Seq<u8>, line: Seq<u8>)
    requires
        whole_lines(bytes),
        forall|k: int| 0 <= k < line.len() ==> line[k] != 10u8,
        line.len() > 0 ==> line.last() != 13u8,
    ensures
        byte_lines(bytes + line.push(10u8)) == byte_lines(bytes).push(line),
    decreases bytes.len(),
{
    let all = bytes + line.push(10u8);
    lemma_newline_at(all);
    if bytes.len() == 0 {
        assert(all =~= line.push(10u8));
        let n = newline_at(all);
        assert(all[line.len() as int] == 10u8);
        assert(n == line.len()) by {
            if n < line.len() {
                assert(all[n] == line[n]);
            }
        }
        assert(all.take(n) =~= line);
        assert(all.skip(n + 1) =~= seq![]);
        assert(byte_lines(all.skip(n + 1)) =~= seq![]);
        assert(byte_lines(bytes) =~= seq![]);
        assert(byte_lines(all) =~= byte_lines(bytes).push(line));
    } else {
        lemma_newline_at(bytes);
        let n = newline_at(bytes);
        assert(n < bytes.len()) by {
            if n == bytes.len() {
                assert(bytes[bytes.len() - 1] != 10u8);
            }
        }
        assert(newline_at(all) == n) by {
            let m = newline_at(all);
            assert(all[n] == bytes[n]);
            if m < n {
                assert(all[m] == bytes[m]);
            }
        }
        let rest = bytes.skip(n + 1);
        assert(whole_lines(rest)) by {
            if rest.len() > 0 {
                assert(rest.last() == bytes.last());
            }
        }
        lemma_line_added(rest, line);
        assert(all.take(n) =~= bytes.take(n));
        assert(all.skip(n + 1) =~= rest + line.push(10u8));
        let head = seq![cut_cr(bytes.take(n))];
        assert(head + byte_lines(rest).push(line) =~= (head + byte_lines(rest)).push(line));
    }
}

/// What is written to the index is what is read from it.
pub proof fn law_index_reads_back(entries: Seq<Seq<char>>)
    requires
        forall|k: int| 0 <= k < entries.len() ==> one_line(#[trigger] entries[k]),
    ensures
        index_rows(encode_utf8(index_text(entries))) == entries,
        whole_lines(encode_utf8(index_text(entries))),
    decreases entries.len(),
{
    if entries.len() == 0 {
        assert(encode_utf8(index_text(entries)) =~= seq![]);
        assert(byte_lines(seq![]) =~= seq![]);
        assert(index_rows(seq![]) =~= entries);
    } else {
        let part = index_text(entries.drop_last());
        law_index_reads_back(entries.drop_last());
        law_record_adds_one_line(encode_utf8(part), entries.last());
        law_index_bytes_append(part, entries.last().push('\n'));
        assert(entries.drop_last().push(entries.last()) =~= entries);
    }
}

/// The text of the index with a line appended is the text and the line.
pub proof fn law_index_bytes_append(text: Seq<char>, line: Seq<char>)
    ensures
        encode_utf8(text + line) == encode_utf8(text) + encode_utf8(line),
    decreases text.len(),
{
    if text.len() == 0 {
        assert(text + line =~= line);
        assert(encode_utf8(text) + encode_utf8(line) =~= encode_utf8(line));
    } else {
        law_index_bytes_append(text.drop_first(), line);
        assert((text + line).drop_first() =~= text.drop_first() + line);
        assert(encode_utf8(text + line) =~= encode_utf8(text) + encode_utf8(line));
    }
}

/// A deleted run is not listed again, and every other run stays, in its place
/// among the others.
pub proof fn law_delete_takes_only_the_run(runs: Seq<RunView>, id: Seq<char>)
    ensures
        forall|k: int| 0 <= k < without(runs, id).len() ==> (#[trigger] without(runs, id)[k]).id != id,
        without(runs, id) == runs.filter(|m: RunView| m.id != id),
    decreases runs.len(),
{
    reveal(Seq::filter);
    if runs.len() > 0 {
        law_delete_takes_only_the_run(runs.drop_last(), id);
    }
}

/// A corrupt line takes nothing else off the list: the runs before and after
/// it are listed as if it were not there.
pub proof fn law_bad_lines_are_passed_over(before: Seq<IndexLine>, bad: IndexLine, after: Seq<IndexLine>)
    requires
        bad.meta is None || !bad.has_dir,
    ensures
        listed(before.push(bad) + after) == listed(before + after),
    decreases after.len(),
{
    if after.len() == 0 {
        assert(before.push(bad) + after =~= before.push(bad));
        assert(before + after =~= before);
        assert(before.push(bad).drop_last() =~= before);
    } else {
        law_bad_lines_are_passed_over(before, bad, after.drop_last());
        assert((before.push(bad) + after).drop_last() =~= before.push(bad) + after.drop_last());
        assert((before + after).drop_last() =~= before + after.drop_last());
    }
}

// ----------------------------------------------------------------- logs --

/// What is read of a log is its end, at most `max` bytes of it; a log that
/// fits is read whole, and one that does not is read from a line start
/// wherever the part that fits holds one.
pub proof fn law_reading_keeps_the_tail(log: Seq<u8>, max: u64)
    ensures
        ({
            let got = log_tail(log, max);
            let cut = log.len() - got.len();
            &&& got.len() <= max
            &&& got == log.skip(cut)
            &&& log.len() <= max ==> got == log
            &&& log.len() > max ==> (log[cut - 1] == 10u8 || (cut == log.len() - max && forall|
                k: int,
            |
                cut <= k < log.len() ==> log[k] != 10u8))
            &&& log.len() > max ==> forall|k: int|
                log.len() - max <= k < cut - 1 ==> log[k] != 10u8
        }),
{
    if log.len() > max {
        let tail = log.skip(log.len() - max);
        lemma_newline_at(tail);
        let n = newline_at(tail);
        let got = log_tail(log, max);
        let cut = log.len() - got.len();
        if n < tail.len() {
            assert(got =~= log.skip(cut));
            assert(log[cut - 1] == tail[n]);
            assert forall|k: int| log.len() - max <= k < cut - 1 implies log[k] != 10u8 by {
                assert(log[k] == tail[k - (log.len() - max)]);
            }
        } else {
            assert forall|k: int| cut <= k < log.len() implies log[k] != 10u8 by {
                assert(log[k] == tail[k - cut]);
            }
        }
    } else {
        assert(log.skip(0) =~= log);
    }
}

// ---------------------------------------------------------------- state --

/// A record that is done, or that names no process, is done whether or not
/// anything lives; one in flight is running or has died.
pub proof fn law_states(m: RunView)
    ensures
        m.done ==> m.state(true) == RunState::Done && m.state(false) == RunState::Done,
        m.pid is None ==> m.state(true) == RunState::Done && m.state(false) == RunState::Done,
        !m.done && m.pid is Some ==> m.state(true) == RunState::Running && m.state(false)
            == RunState::Died,
{
}

/// A run went well where it left with zero; and the process to ask about is
/// that of a record that is not done.
pub proof fn law_records(m: RunView)
    ensures
        m.success() <==> (m.exit_code matches Some(c) && c == 0),
        m.done ==> m.probe() is None,
        !m.done ==> m.probe() == m.pid,
{
}

/// A command line is its words with one space between any two.
pub proof fn law_command_lines(m: RunView, words: Seq<Seq<char>>, word: Seq<char>)
    ensures
        m.cmd.len() == 0 ==> m.cmdline().len() == 0,
        m.cmd == seq![word] ==> m.cmdline() == word,
        words.len() > 0 && m.cmd == words.push(word) ==> m.cmdline() == (RunView {
            cmd: words,
            ..m
        }).cmdline() + seq![' '] + word,
{
    reveal_strlit(" ");
    assert(" "@ =~= seq![' ']);
    if words.len() > 0 {
        assert(words.push(word).drop_last() =~= words);
    }
}

// --------------------------------------------------------------- listing --

/// The index lists every line whose record can be read and whose run has its
/// directory, and no other, in their order.
pub proof fn law_lines_are_listed(a: Seq<IndexLine>, b: Seq<IndexLine>, row: IndexLine)
    ensures
        listed(a + b) == listed(a) + listed(b),
        listed(Seq::<IndexLine>::empty()).len() == 0,
        row.meta is None || !row.has_dir ==> listed(seq![row]).len() == 0,
        row.has_dir ==> (row.meta matches Some(m) ==> listed(seq![row]) == seq![m@]),
    decreases b.len(),
{
    assert(seq![row].drop_last() =~= seq![]);
    assert(listed(seq![row].drop_last()) =~= seq![]);
    if row.has_dir {
        if let Some(m) = row.meta {
            assert(listed(seq![row]) =~= seq![m@]);
        }
    }
    if b.len() == 0 {
        assert(a + b =~= a);
        assert(listed(a) + listed(b) =~= listed(a));
    } else {
        assert((a + b).drop_last() =~= a + b.drop_last());
        law_lines_are_listed(a, b.drop_last(), row);
        assert(listed(a + b) =~= listed(a) + listed(b));
    }
}

/// A marker stands for a capture in flight where its record is not done and
/// names a process; every other marker is to be removed. Markers are gone
/// through one by one.
pub proof fn law_markers(root: Seq<u8>, a: Seq<Marker>, b: Seq<Marker>, marker: Marker)
    ensures
        in_flight(a + b) == in_flight(a) + in_flight(b),
        flying(a + b) == flying(a) + flying(b),
        leaked(root, a + b) == leaked(root, a) + leaked(root, b),
        marker.meta matches Some(m) && !m.done && m.pid is Some ==> in_flight(seq![marker])
            == seq![marker.meta.unwrap()@] && flying(seq![marker]) == seq![
            (marker.meta.unwrap()@, marker.alive),
        ] && leaked(root, seq![marker]).len() == 0,
        !(marker.meta matches Some(m) && !m.done && m.pid is Some) ==> in_flight(
            seq![marker],
        ).len() == 0 && flying(seq![marker]).len() == 0 && leaked(root, seq![marker]) == seq![
            Op::Remove(path_join(running_dir(root), marker.name@)),
        ],
    decreases b.len(),
{
    let one = seq![marker];
    assert(one.drop_last() =~= seq![]);
    assert(in_flight(one.drop_last()) =~= seq![]);
    assert(flying(one.drop_last()) =~= seq![]);
    assert(leaked(root, one.drop_last()) =~= seq![]);
    assert(one.last() == marker);
    if marker.in_flight() {
        assert(in_flight(one) =~= seq![marker.meta.unwrap()@]);
        assert(flying(one) =~= seq![(marker.meta.unwrap()@, marker.alive)]);
    } else {
        assert(leaked(root, one) =~= seq![
            Op::Remove(path_join(running_dir(root), marker.name@)),
        ]);
    }
    if b.len() == 0 {
        assert(a + b =~= a);
        assert(in_flight(a) + in_flight(b) =~= in_flight(a));
        assert(flying(a) + flying(b) =~= flying(a));
        assert(leaked(root, a) + leaked(root, b) =~= leaked(root, a));
    } else {
        assert((a + b).drop_last() =~= a + b.drop_last());
        law_markers(root, a, b.drop_last(), marker);
        assert(in_flight(a + b) =~= in_flight(a) + in_flight(b));
        assert(flying(a + b) =~= flying(a) + flying(b));
        assert(leaked(root, a + b) =~= leaked(root, a) + leaked(root, b));
    }
}

/// The index is one line for each entry, in their order.
pub proof fn law_index_lines(entries: Seq<Seq<char>>, entry: Seq<char>)
    ensures
        index_text(Seq::<Seq<char>>::empty()).len() == 0,
        index_text(entries.push(entry)) == index_text(entries) + entry + seq!['\n'],
{
    assert(entries.push(entry).drop_last() =~= entries);
    assert(index_text(entries) + entry.push('\n') =~= index_text(entries) + entry + seq!['\n']);
}

/// A row of the index ends at a newline, which is no part of it, nor is a
/// carriage return before it; each row is read as text for itself, and what
/// follows the last newline is a row where there is anything.
pub proof fn law_index_rows(row: Seq<u8>, rest: Seq<u8>)
    requires
        !row.contains(10),
    ensures
        index_rows(Seq::<u8>::empty()).len() == 0,
        row.len() > 0 ==> index_rows(row) == seq![text_in(row)],
        index_rows(row.push(10) + rest) == seq![
            text_in(
                if row.len() > 0 && row.last() == 13 {
                    row.drop_last()
                } else {
                    row
                },
            ),
        ] + index_rows(rest),
{
    let all = row.push(10) + rest;
    let n = row.len() as int;
    lemma_newline_at(row);
    lemma_newline_at(all);
    assert(newline_at(row) == n) by {
        if newline_at(row) < n {
            assert(row.contains(row[newline_at(row)]));
        }
    }
    assert(all[n] == 10);
    assert(newline_at(all) == n) by {
        let m = newline_at(all);
        if m < n {
            assert(all[m] == row[m]);
            assert(row.contains(row[m]));
        }
    }
    assert(all.take(n) =~= row);
    assert(all.skip(n + 1) =~= rest);
    assert(byte_lines(Seq::<u8>::empty()) =~= Seq::<Seq<u8>>::empty());
    assert(index_rows(all) =~= seq![text_in(cut_cr(row))] + index_rows(rest));
    if n > 0 {
        assert(index_rows(row) =~= seq![text_in(row)]);
    }
}

/// A tail is shown from its second line on: what stands before the first
/// newline may be half a line. A tail without a newline is shown whole.
pub proof fn law_tails_start_at_a_line(head: Seq<u8>, rest: Seq<u8>)
    requires
        !head.contains(10),
    ensures
        from_line_start(head.push(10) + rest) == rest,
        from_line_start(head) == head,
{
    let all = head.push(10) + rest;
    let n = head.len() as int;
    lemma_newline_at(head);
    lemma_newline_at(all);
    assert(newline_at(head) == n) by {
        if newline_at(head) < n {
            assert(head.contains(head[newline_at(head)]));
        }
    }
    assert(all[n] == 10);
    assert(newline_at(all) == n) by {
        let m = newline_at(all);
        if m < n {
            assert(all[m] == head[m]);
            assert(head.contains(head[m]));
        }
    }
    assert(all.skip(n + 1) =~= rest);
}

} // verus!
