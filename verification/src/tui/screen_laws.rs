//! What holds of what the screen says: times, sums and marks.
use crate::capture::bytes_text;
use crate::figures::{half_even, tenths};
use crate::store::RunView;
use crate::text::{decimal, padded, signed_decimal};
use crate::text_laws::law_rounding;
use crate::tui::app::{AppView, Mode};
use crate::tui::clock::{age_text, duration_text, second_parts, second_tenths, seconds_since};
use crate::tui::den::{count, den_view, failed, longest, most_run, times_run, today, total_bytes};
use crate::tui::screen;
use crate::tui::search::HitView;
use crate::tui::ui::{
    ellipsized, filter_text, hints_of, hits_text, library_text, list_row, match_text, result_row,
    scrolled_by, status_of, viewer_detail, viewer_mark, widest, StatusView, Tone,
};
use crate::tui::viewer::ViewerView;
use vstd::arithmetic::div_mod::{lemma_fundamental_div_mod, lemma_fundamental_div_mod_converse};
use vstd::prelude::*;
use vstd::utf8::encode_utf8;

verus! {

// ---------------------------------------------------------------- times --

/// How long ago a run started is said in the largest unit of which one has
/// passed, and in whole ones; a run of the future has just started.
pub proof fn law_ages(now: u64, started: u64) -> (q: nat)
    ensures
        now <= started ==> age_text(now, started) == "0s"@,
        now > started ==> {
            let gone = now - started;
            &&& gone < 60_000 ==> age_text(now, started) == decimal(q) + "s"@ && 1000 * q <= gone
                < 1000 * (q + 1)
            &&& 60_000 <= gone < 3_600_000 ==> age_text(now, started) == decimal(q) + "m"@ && 60_000
                * q <= gone < 60_000 * (q + 1)
            &&& 3_600_000 <= gone < 86_400_000 ==> age_text(now, started) == decimal(q) + "h"@
                && 3_600_000 * q <= gone < 3_600_000 * (q + 1)
            &&& 86_400_000 <= gone ==> age_text(now, started) == decimal(q) + "d"@ && 86_400_000 * q
                <= gone < 86_400_000 * (q + 1)
        },
{
    let s = seconds_since(now, started);
    reveal_strlit("0s");
    reveal_strlit("s");
    if now <= started {
        assert(age_text(now, started) =~= "0s"@);
    }
    if s < 60 {
        s
    } else if s < 3600 {
        s / 60
    } else if s < 86_400 {
        s / 3600
    } else {
        s / 86_400
    }
}

/// A duration below a second is said in milliseconds; one below a minute in
/// tenths of a second, and the nearest one; any other in whole minutes and
/// whole seconds, the seconds with two digits.
pub proof fn law_durations(ms: u64) -> (q: (nat, nat))
    ensures
        ms < 1000 ==> duration_text(ms) == decimal(ms as nat) + "ms"@,
        1000 <= ms < 60_000 ==> {
            &&& duration_text(ms) == tenths(q.0) + "s"@
            &&& ms <= 100 * q.0 + 50
            &&& 100 * q.0 <= ms + 50
        },
        ms >= 60_000 ==> {
            &&& duration_text(ms) == decimal(q.0) + "m"@ + padded(q.1, 2) + "s"@
            &&& q.1 < 60
            &&& 60_000 * q.0 + 1000 * q.1 <= ms < 60_000 * q.0 + 1000 * (q.1 + 1)
        },
{
    if 1000 <= ms < 60_000 {
        let (w, p) = law_tenths_of_a_second(ms);
        (second_tenths(ms), 0)
    } else {
        (ms as nat / 60_000, ms as nat % 60_000 / 1000)
    }
}

/// The tenths of a second are those of the double-precision number `w / p`
/// nearest to the duration: `w` has 53 binary digits, and both roundings
/// break a tie towards the even number.
pub proof fn law_tenths_of_a_second(ms: u64) -> (wp: (nat, nat))
    requires
        1000 <= ms < 60_000,
    ensures
        ({
            let (w, p) = wp;
            let t = second_tenths(ms);
            &&& 0x10_0000_0000_0000 <= w <= 0x20_0000_0000_0000
            &&& 2 * ms * p <= 2000 * w + 1000 && 2000 * w <= 2 * ms * p + 1000
            &&& 2 * ms * p == 2000 * w + 1000 || 2000 * w == 2 * ms * p + 1000 ==> w % 2 == 0
            &&& 20 * w <= 2 * t * p + p && 2 * t * p <= 20 * w + p
            &&& 20 * w == 2 * t * p + p || 2 * t * p == 20 * w + p ==> t % 2 == 0
            &&& p == 0x10_0000_0000_0000 || p == 0x8_0000_0000_0000 || p == 0x4_0000_0000_0000 || p
                == 0x2_0000_0000_0000 || p == 0x1_0000_0000_0000 || p == 0x8000_0000_0000
            &&& ms <= 100 * t + 50
            &&& 100 * t <= ms + 50
        }),
{
    let p = second_parts(ms);
    let w = half_even(ms as nat * p, 1000);
    let t = second_tenths(ms);
    law_rounding(ms as nat * p, 1000);
    law_rounding(w * 10, p);
    assert(t == half_even(w * 10, p));
    assert(2 * t * p + p == (2 * t + 1) * p) by (nonlinear_arith);
    assert(2 * ms * p == 2 * (ms * p)) by (nonlinear_arith);
    if ms < 2000 {
        assert(p == 0x10_0000_0000_0000);
    } else if ms < 4000 {
        assert(p == 0x8_0000_0000_0000);
    } else if ms < 8000 {
        assert(p == 0x4_0000_0000_0000);
    } else if ms < 16_000 {
        assert(p == 0x2_0000_0000_0000);
    } else if ms < 32_000 {
        assert(p == 0x1_0000_0000_0000);
    } else {
        assert(p == 0x8000_0000_0000);
    }
    (w, p)
}

// -------------------------------------------------------------- the den --

proof fn lemma_count(runs: Seq<RunView>, p: spec_fn(RunView) -> bool)
    ensures
        count(runs, p) == runs.filter(p).len(),
    decreases runs.len(),
{
    reveal(Seq::filter);
    if runs.len() > 0 {
        lemma_count(runs.drop_last(), p);
    }
}

/// The den counts the runs that left with zero, those that left with anything
/// else, and those that started within a day; a run that left no code is
/// neither of the first two.
pub proof fn law_den_counts(now: u64, runs: Seq<RunView>, command: Seq<char>)
    ensures
        den_view(now, runs).total == runs.len(),
        den_view(now, runs).ok == runs.filter(|m: RunView| m.exit_code == Some(0i32)).len(),
        den_view(now, runs).failed == runs.filter(
            |m: RunView| m.exit_code is Some && m.exit_code != Some(0i32),
        ).len(),
        den_view(now, runs).today == runs.filter(
            |m: RunView| now - m.started_ms <= 24 * 60 * 60 * 1000,
        ).len(),
        times_run(runs, command) == runs.filter(|m: RunView| m.cmdline() == command).len(),
        den_view(now, runs).bytes == total_bytes(runs),
        den_view(now, runs).most_run == most_run(runs),
        den_view(now, runs).longest == longest(runs),
{
    let ok = |m: RunView| m.success();
    let bad = |m: RunView| failed(m);
    let recent = |m: RunView| today(now, m);
    let same = |m: RunView| m.cmdline() == command;
    lemma_count(runs, ok);
    lemma_count(runs, bad);
    lemma_count(runs, recent);
    lemma_count(runs, same);
    assert(ok =~= |m: RunView| m.exit_code == Some(0i32));
    assert(bad =~= |m: RunView| m.exit_code is Some && m.exit_code != Some(0i32));
    assert(recent =~= |m: RunView| now - m.started_ms <= 24 * 60 * 60 * 1000);
}

/// The bytes of a library are those of its runs, added up.
pub proof fn law_bytes_add_up(a: Seq<RunView>, b: Seq<RunView>, m: RunView)
    ensures
        total_bytes(Seq::<RunView>::empty()) == 0,
        total_bytes(seq![m]) == m.bytes,
        total_bytes(a + b) == total_bytes(a) + total_bytes(b),
    decreases b.len(),
{
    assert(seq![m].drop_last() =~= seq![]);
    assert(total_bytes(seq![m].drop_last()) == 0);
    if b.len() == 0 {
        assert(a + b =~= a);
    } else {
        assert((a + b).drop_last() =~= a + b.drop_last());
        law_bytes_add_up(a, b.drop_last(), m);
    }
}

/// Of several commands that ran equally often the one that came to that number
/// first is the comfort command, and of several runs that took equally long
/// the first is the longest sit: one more run takes the title only where it
/// beats it.
pub proof fn law_titles_are_beaten(runs: Seq<RunView>, m: RunView)
    ensures
        most_run(runs) matches Some((command, times)) ==> {
            let often = runs.push(m).filter(|r: RunView| r.cmdline() == m.cmdline()).len();
            &&& often <= times ==> most_run(runs.push(m)) == most_run(runs)
            &&& often > times ==> most_run(runs.push(m)) == Some((m.cmdline(), often))
        },
        longest(runs) matches Some((command, took)) ==> {
            &&& m.duration_ms <= took ==> longest(runs.push(m)) == longest(runs)
            &&& m.duration_ms > took ==> longest(runs.push(m)) == Some((m.cmdline(), m.duration_ms))
        },
        most_run(seq![m]) == Some((m.cmdline(), 1nat)),
        longest(seq![m]) == Some((m.cmdline(), m.duration_ms)),
{
    assert(runs.push(m).drop_last() =~= runs);
    lemma_count(runs.push(m), |r: RunView| r.cmdline() == m.cmdline());
    let one = seq![m];
    assert(one.drop_last() =~= seq![]);
    assert(most_run(one.drop_last()) is None);
    assert(longest(one.drop_last()) is None);
    let p = |r: RunView| r.cmdline() == m.cmdline();
    assert(count(one.drop_last(), p) == 0);
    assert(count(one, p) == 1);
}

// ---------------------------------------------------------------- texts --

/// The widest row is a row, and none is wider.
pub proof fn law_widest(rows: Seq<Seq<char>>)
    ensures
        rows.len() == 0 ==> widest(rows) == 0,
        rows.len() > 0 ==> exists|i: int|
            0 <= i < rows.len() && encode_utf8(#[trigger] rows[i]).len() == widest(rows),
        forall|i: int| 0 <= i < rows.len() ==> encode_utf8(#[trigger] rows[i]).len() <= widest(rows),
    decreases rows.len(),
{
    if rows.len() > 0 {
        let part = rows.drop_last();
        let at = rows.len() - 1;
        law_widest(part);
        assert(rows[at] == rows.last());
        if part.len() > 0 {
            let i = choose|i: int|
                0 <= i < part.len() && encode_utf8(#[trigger] part[i]).len() == widest(part);
            assert(rows[i] == part[i]);
        }
        assert forall|i: int| 0 <= i < rows.len() implies encode_utf8(#[trigger] rows[i]).len()
            <= widest(rows) by {
            if i < at {
                assert(rows[i] == part[i]);
            }
        }
    }
}

/// The water moves one step to the left in every tick, in a circle.
pub proof fn law_waves(pattern: Seq<char>, tick: u64, k: int)
    requires
        0 <= k < pattern.len(),
    ensures
        scrolled_by(pattern, tick).len() == pattern.len(),
        scrolled_by(pattern, tick)[k] == pattern[(tick + k) % pattern.len() as int],
        scrolled_by(pattern, 0) == pattern,
{
    let n = pattern.len() as int;
    let off = tick as int % n;
    lemma_fundamental_div_mod(tick as int, n);
    let q = tick as int / n;
    if off + k < n {
        assert(tick + k == q * n + (off + k)) by (nonlinear_arith)
            requires
                tick == n * q + off,
        ;
        lemma_fundamental_div_mod_converse(tick + k, n, q, off + k);
    } else {
        assert(tick + k == (q + 1) * n + (off + k - n)) by (nonlinear_arith)
            requires
                tick == n * q + off,
        ;
        lemma_fundamental_div_mod_converse(tick + k, n, q + 1, off + k - n);
    }
    assert(scrolled_by(pattern, 0) =~= pattern);
}

/// A text that fits stays as it is; any other is cut so that it fits with the
/// mark that says so.
pub proof fn law_clipping(s: Seq<char>, max: nat)
    requires
        max > 0,
    ensures
        ellipsized(s, max).len() <= max,
        s.len() <= max ==> ellipsized(s, max) == s,
        s.len() > max ==> {
            let cut = ellipsized(s, max);
            &&& cut.len() == max
            &&& cut.last() == '…'
            &&& forall|i: int| 0 <= i < max - 1 ==> cut[i] == s[i]
        },
{
}

// ---------------------------------------------------------------- marks --

/// A run that goes on has a spinner, which turns every other tick; one whose
/// process is gone an exclamation mark; one that is over a tick or a cross,
/// by its exit code.
pub proof fn law_list_marks(m: RunView, alive: bool, tick: u64, now: u64)
    ensures
        ({
            let row = list_row(m, alive, tick, now);
            &&& !m.done && m.pid is Some && alive ==> {
                &&& row.tone == Tone::Live
                &&& row.mark == seq!['⠋', '⠙', '⠹', '⠸', '⠼', '⠴', '⠦', '⠧', '⠇', '⠏'][tick as int / 2
                    % 10]
                &&& now >= m.started_ms ==> row.took == duration_text((now - m.started_ms) as u64)
                &&& now < m.started_ms ==> row.took == duration_text(0)
            }
            &&& !m.done && m.pid is Some && !alive ==> row.tone == Tone::Bad && row.mark == '!'
                && row.took == "died"@
            &&& m.done || m.pid is None ==> {
                &&& m.exit_code == Some(0i32) ==> row.tone == Tone::Good && row.mark == '✓'
                &&& m.exit_code != Some(0i32) ==> row.tone == Tone::Bad && row.mark == '✗'
                &&& row.took == duration_text(m.duration_ms)
            }
            &&& row.age == age_text(now, m.started_ms)
            &&& row.bytes == bytes_text(m.bytes)
            &&& row.cmdline == m.cmdline()
        }),
{
    reveal_strlit("⠋⠙⠹⠸⠼⠴⠦⠧⠇⠏");
    assert("⠋⠙⠹⠸⠼⠴⠦⠧⠇⠏"@ =~= seq!['⠋', '⠙', '⠹', '⠸', '⠼', '⠴', '⠦', '⠧', '⠇', '⠏']);
}

/// A row of the results names the run, in at most 28 columns, and the line,
/// counted from one, and quotes it.
pub proof fn law_result_rows(h: HitView, now: u64)
    ensures
        result_row(h, now).command.len() <= 28,
        h.meta.cmdline().len() <= 28 ==> result_row(h, now).command == h.meta.cmdline(),
        h.meta.cmdline().len() > 28 ==> result_row(h, now).command == h.meta.cmdline().take(27)
            + seq!['…'],
        result_row(h, now).line == decimal((h.line + 1) as nat) + seq![':'],
        result_row(h, now).age == age_text(now, h.meta.started_ms),
        result_row(h, now).text == h.text,
{
    reveal_strlit(":");
    assert(":"@ =~= seq![':']);
    if h.meta.cmdline().len() > 28 {
        assert(h.meta.cmdline().take(27).push('…') =~= h.meta.cmdline().take(27) + seq!['…']);
    }
}

/// The mark over the viewer: a dot while the run goes on, else by how it went.
pub proof fn law_viewer_marks(v: ViewerView, alive: bool)
    ensures
        v.live ==> viewer_mark(v, alive) == ('●', Tone::Live),
        !v.live && !v.meta.done && v.meta.pid is Some && !alive ==> viewer_mark(v, alive) == (
            '!',
            Tone::Bad,
        ),
        !v.live && (v.meta.done || v.meta.pid is None) && v.meta.exit_code == Some(0i32) ==> viewer_mark(v, alive) == (
            '✓',
            Tone::Good,
        ),
        !v.live && (v.meta.done || v.meta.pid is None) && v.meta.exit_code != Some(0i32) ==> viewer_mark(v, alive) == (
            '✗',
            Tone::Bad,
        ),
{
}

/// The line over the viewer: how long a live run has gone on and how much it
/// has printed, or when a run started, how long it took, how much it printed
/// and how it left.
pub proof fn law_viewer_details(v: ViewerView, now: u64, code: i32)
    requires
        now >= v.meta.started_ms,
    ensures
        v.live && v.follow ==> viewer_detail(v, now) == "  · live "@ + duration_text(
            (now - v.meta.started_ms) as u64,
        ) + " · "@ + bytes_text(v.last_size) + " · following"@,
        v.live && !v.follow ==> viewer_detail(v, now) == "  · live "@ + duration_text(
            (now - v.meta.started_ms) as u64,
        ) + " · "@ + bytes_text(v.last_size) + " · paused — f to follow"@,
        !v.live && v.meta.exit_code == Some(code) ==> viewer_detail(v, now) == "  · "@ + age_text(
            now,
            v.meta.started_ms,
        ) + " ago · "@ + duration_text(v.meta.duration_ms) + " · "@ + bytes_text(v.meta.bytes)
            + " · exit "@ + signed_decimal(code as int),
        !v.live && v.meta.exit_code is None ==> viewer_detail(v, now) == "  · "@ + age_text(
            now,
            v.meta.started_ms,
        ) + " ago · "@ + duration_text(v.meta.duration_ms) + " · "@ + bytes_text(v.meta.bytes)
            + " · exit ?"@,
{
    reveal_strlit(" · ");
    reveal_strlit("following");
    reveal_strlit("paused — f to follow");
    reveal_strlit(" · following");
    reveal_strlit(" · paused — f to follow");
    reveal_strlit(" · exit ");
    reveal_strlit("?");
    reveal_strlit(" · exit ?");
    assert(" · "@ + "following"@ =~= " · following"@);
    assert(" · "@ + "paused — f to follow"@ =~= " · paused — f to follow"@);
    assert(" · exit "@ + "?"@ =~= " · exit ?"@);
    let gone = duration_text((now - v.meta.started_ms) as u64);
    if v.live && v.follow {
        assert(viewer_detail(v, now) =~= "  · live "@ + gone + " · "@ + bytes_text(v.last_size) + (
        " · "@ + "following"@));
    } else if v.live {
        assert(viewer_detail(v, now) =~= "  · live "@ + gone + " · "@ + bytes_text(v.last_size) + (
        " · "@ + "paused — f to follow"@));
    } else if v.meta.exit_code is None {
        assert(viewer_detail(v, now) =~= "  · "@ + age_text(now, v.meta.started_ms) + " ago · "@
            + duration_text(v.meta.duration_ms) + " · "@ + bytes_text(v.meta.bytes) + (" · exit "@
            + "?"@));
    }
}

// --------------------------------------------------- header and status --

/// The header counts the runs, those that are shown and the hits.
pub proof fn law_headers_count(s: AppView)
    ensures
        library_text(s) == "library · "@ + decimal(s.runs.len()) + " runs"@,
        filter_text(s) == " · filter '"@ + s.filter + "' ("@ + decimal(s.filtered.len())
            + " shown)"@,
        hits_text(s) == " · "@ + decimal(s.hits.len()) + " hits for '"@ + s.content_query + "'"@,
{
}

/// The line at the bottom: an open prompt with what was typed, else the
/// question before a deletion, else a message, else what the keys do.
pub proof fn law_status_lines(s: AppView, msg: Seq<char>)
    ensures
        s.mode == Mode::FilterInput ==> status_of(s) == StatusView::Prompt(
            " filter "@,
            seq![' '] + s.input,
        ),
        s.mode == Mode::SearchInput ==> status_of(s) == StatusView::Prompt(
            " search all output "@,
            seq![' '] + s.input,
        ),
        s.mode == Mode::ViewerSearchInput ==> status_of(s) == StatusView::Prompt(
            " search "@,
            seq![' '] + s.input,
        ),
        s.mode == Mode::ConfirmDelete ==> status_of(s) == StatusView::Confirm(
            " delete this run and its output? y / any other key cancels "@,
        ),
        s.mode == Mode::Normal && s.status == Some(msg) ==> status_of(s) == StatusView::Message(
            seq![' '] + msg,
        ),
        s.mode == Mode::Normal && s.status is None ==> status_of(s) == StatusView::Hints(
            hints_of(s),
            match_text(s),
        ),
{
    reveal_strlit(" ");
    assert(" "@ =~= seq![' ']);
}

/// The keys that the bottom line names are those of the view; in the viewer
/// they depend on whether the run goes on.
pub proof fn law_hints(s: AppView, v: ViewerView)
    ensures
        s.view == screen::View::Splash ==> hints_of(s).len() == 0,
        s.view == screen::View::List ==> hints_of(s)
            == "  Enter view · R re-run · / filter · s search output · x delete · q quit"@,
        s.view == screen::View::Results ==> hints_of(s) == "  Enter open at match · Esc back"@,
        s.view == screen::View::Viewer && s.viewer == Some(v) && v.live ==> hints_of(s)
            == "  f follow · j/k scroll · G bottom · / search · Esc back"@,
        s.view == screen::View::Viewer && s.viewer == Some(v) && !v.live ==> hints_of(s)
            == "  j/k scroll · d/u page · g/G ends · / search · n/N matches · Esc back"@,
        s.view == screen::View::Raft ==> hints_of(s)
            == "  Enter board · p phone QR · r refresh · Esc back"@,
        s.view == screen::View::Den ==> hints_of(s) == "  Esc back"@,
{
    reveal_strlit("");
}

/// While the viewer has matches, the bottom line says at which of them it is,
/// counted from one.
pub proof fn law_match_counts(s: AppView, v: ViewerView)
    ensures
        s.view == screen::View::Viewer && s.viewer == Some(v) && v.matches.len() > 0 ==> match_text(
            s,
        ) == "  ["@ + decimal(v.match_idx + 1) + "/"@ + decimal(v.matches.len()) + " matches]"@,
        s.viewer == Some(v) && v.matches.len() == 0 ==> match_text(s).len() == 0,
        s.view != screen::View::Viewer ==> match_text(s).len() == 0,
        s.viewer is None ==> match_text(s).len() == 0,
{
    reveal_strlit("");
}

} // verus!
