//! What holds of a log in the viewer and of the search over all logs: what
//! its lines are, which of them are found, and what the keys show of them.
use crate::outside::{ansi_lines, unstyled_line, without_escapes};
use crate::store::RunView;
use crate::text::{folded, is_space, lines, text_in};
use crate::text_laws::{law_texts_are_found, law_trimming_the_end, occurs};
use crate::tui::keys::Key;
use crate::tui::search::{hits_after, law_mentions_are_hits, law_run_hits, line_hits, run_hits};
use crate::tui::viewer::{
    first_index, law_matches_are_the_mentions, line_byte, matching, normalized, normalized_to,
    opened, overlay_of, plain_lines, search_status, shown_lines, ViewerView,
};
use vstd::prelude::*;

verus! {

// ----------------------------------------------------------- line ends --

/// Two logs one after the other have the lines of both, unless a carriage
/// return at the end of the first meets a newline at the start of the second.
pub proof fn law_line_ends_are_local(a: Seq<u8>, b: Seq<u8>)
    requires
        !(a.len() > 0 && a.last() == 13 && b.len() > 0 && b[0] == 10),
    ensures
        normalized(a + b) == normalized(a) + normalized(b),
{
    let all = a + b;
    lemma_front(a, b, a.len() as int);
    lemma_back(a, b, b.len() as int);
}

proof fn lemma_front(a: Seq<u8>, b: Seq<u8>, n: int)
    requires
        0 <= n <= a.len(),
        !(a.len() > 0 && a.last() == 13 && b.len() > 0 && b[0] == 10),
    ensures
        normalized_to(a + b, n) == normalized_to(a, n),
    decreases n,
{
    if n > 0 {
        lemma_front(a, b, n - 1);
        let all = a + b;
        assert(all[n - 1] == a[n - 1]);
        if n < a.len() {
            assert(all[n] == a[n]);
        } else {
            assert(a.last() == a[n - 1]);
            if b.len() > 0 {
                assert(all[n] == b[0]);
            }
        }
        assert(line_byte(all, n - 1) == line_byte(a, n - 1));
    }
}

proof fn lemma_back(a: Seq<u8>, b: Seq<u8>, n: int)
    requires
        0 <= n <= b.len(),
        !(a.len() > 0 && a.last() == 13 && b.len() > 0 && b[0] == 10),
    ensures
        normalized_to(a + b, a.len() + n) == normalized(a) + normalized_to(b, n),
    decreases n,
{
    let all = a + b;
    if n > 0 {
        lemma_back(a, b, n - 1);
        let i = a.len() + n - 1;
        assert(all[i] == b[n - 1]);
        if n < b.len() {
            assert(all[i + 1] == b[n]);
        }
        assert(line_byte(all, i) == line_byte(b, n - 1));
        assert(normalized(a) + normalized_to(b, n - 1) + line_byte(b, n - 1) =~= normalized(a) + (
        normalized_to(b, n - 1) + line_byte(b, n - 1)));
    } else {
        lemma_front(a, b, a.len() as int);
        assert(normalized(a) + normalized_to(b, 0) =~= normalized(a));
    }
}

/// Every byte but a carriage return is kept; a carriage return before a
/// newline is dropped, and that newline is kept; any other becomes a newline.
/// So a blank line of a pty log stays a blank line.
pub proof fn law_line_ends(a: Seq<u8>, c: u8, b: Seq<u8>)
    ensures
        normalized(Seq::<u8>::empty()) == Seq::<u8>::empty(),
        c != 13 ==> normalized(seq![c]) == seq![c],
        normalized(seq![13u8, 10u8]) == seq![10u8],
        normalized(seq![13u8]) == seq![10u8],
        a.len() == 0 || a.last() != 13 ==> normalized(a + seq![13u8, 10u8] + b) == normalized(a)
            + seq![10u8] + normalized(b),
        c != 13 && (a.len() == 0 || a.last() != 13) ==> normalized(a + seq![c] + b) == normalized(a)
            + seq![c] + normalized(b),
        b.len() == 0 || b[0] != 10 ==> normalized(a + seq![13u8] + b) == normalized(a) + seq![10u8]
            + normalized(b),
{
    let end = seq![13u8, 10u8];
    let lone = seq![13u8];
    let one = seq![c];
    reveal_with_fuel(normalized_to, 3);
    assert(normalized(Seq::<u8>::empty()) =~= Seq::<u8>::empty());
    assert(normalized(end) =~= seq![10u8]);
    assert(normalized(lone) =~= seq![10u8]);
    if c != 13 {
        assert(normalized(one) =~= one);
    }
    if a.len() == 0 || a.last() != 13 {
        law_line_ends_are_local(a, end);
        assert((a + end).last() == 10);
        law_line_ends_are_local(a + end, b);
        if c != 13 {
            law_line_ends_are_local(a, one);
            assert((a + one).last() == c);
            law_line_ends_are_local(a + one, b);
        }
    }
    if b.len() == 0 || b[0] != 10 {
        law_line_ends_are_local(a, lone);
        law_line_ends_are_local(a + lone, b);
    }
}

/// Apart from line ends a log stays as it is, byte for byte.
pub proof fn law_what_was_printed_stays(bytes: Seq<u8>)
    ensures
        normalized(bytes).filter(|x: u8| x != 10) == bytes.filter(|x: u8| x != 10 && x != 13),
    decreases bytes.len(),
{
    let kept = |x: u8| x != 10;
    let printed = |x: u8| x != 10 && x != 13;
    reveal(Seq::filter);
    if bytes.len() == 0 {
        assert(normalized(bytes) =~= bytes);
        assert(normalized(bytes).filter(kept) =~= bytes.filter(printed));
    } else {
        let c = bytes.last();
        let rest = bytes.drop_last();
        law_what_was_printed_stays(rest);
        law_line_ends(rest, c, seq![]);
        if c != 10 || rest.len() == 0 || rest.last() != 13 {
            law_line_ends_are_local(rest, seq![c]);
            assert(rest + seq![c] =~= bytes);
            let tail = normalized(seq![c]);
            assert(tail.len() == 1);
            let all = normalized(rest) + tail;
            assert(all.drop_last() =~= normalized(rest));
            assert(all.last() == tail[0]);
        } else {
            let head = rest.drop_last();
            assert(bytes =~= head + seq![13u8, 10u8]);
            assert(rest =~= head + seq![13u8]);
            if head.len() > 0 && head.last() == 13 {
                law_line_ends_are_local(head, seq![13u8]);
                law_line_ends_are_local(head, seq![13u8, 10u8]);
            } else {
                law_line_ends_are_local(head, seq![13u8]);
                law_line_ends_are_local(head, seq![13u8, 10u8]);
            }
            assert(normalized(bytes) == normalized(rest));
        }
    }
}

/// The lines that are searched are those of the text without its escapes;
/// those that are shown carry its styles, or are the plain lines where the
/// escapes cannot be read.
pub proof fn law_lines_of_a_log(bytes: Seq<u8>, k: int)
    ensures
        plain_lines(bytes) == lines(text_in(without_escapes(bytes))),
        ansi_lines(bytes) is Some ==> Some(shown_lines(bytes)) == ansi_lines(bytes),
        ansi_lines(bytes) is None ==> shown_lines(bytes).len() == lines(text_in(bytes)).len(),
        ansi_lines(bytes) is None && 0 <= k < lines(text_in(bytes)).len() ==> shown_lines(bytes)[k]
            == unstyled_line(lines(text_in(bytes))[k]),
{
}

// -------------------------------------------------------------- matches --

/// The matches in the viewer are exactly the lines in which the query occurs,
/// at any place of the line and whatever its case, from the first to the last.
pub proof fn law_matches_are_exact(rows: Seq<Seq<char>>, needle: Seq<char>)
    requires
        rows.len() <= usize::MAX,
    ensures
        ({
            let found = matching(rows, needle);
            &&& needle.len() == 0 ==> found.len() == 0
            &&& needle.len() > 0 ==> forall|i: int|
                0 <= i < rows.len() ==> (found.contains(i as usize) <==> occurs(
                    needle,
                    folded(#[trigger] rows[i]),
                ))
            &&& forall|k: int| 0 <= k < found.len() ==> #[trigger] found[k] < rows.len()
            &&& forall|k: int, l: int| 0 <= k < l < found.len() ==> found[k] < found[l]
        }),
{
    if needle.len() > 0 {
        law_matches_are_the_mentions(rows, needle);
        assert forall|i: int| 0 <= i < rows.len() implies (matching(rows, needle).contains(
            i as usize,
        ) <==> occurs(needle, folded(#[trigger] rows[i]))) by {
            law_texts_are_found(folded(rows[i]), needle);
        }
    }
}

/// A run gives the first five lines in which the query occurs, at any place of
/// the line and whatever its case: each hit is such a line, no such line is
/// missing unless five before it are hits, and a hit says what its line says
/// but for the white space at its end.
pub proof fn law_hits_are_exact(m: RunView, rows: Seq<Seq<char>>, query: Seq<char>)
    requires
        rows.len() <= usize::MAX,
    ensures
        ({
            let hits = line_hits(m, rows, query);
            &&& hits.len() <= 5
            &&& forall|k: int|
                0 <= k < hits.len() ==> {
                    let h = #[trigger] hits[k];
                    &&& h.meta == m
                    &&& h.line < rows.len()
                    &&& occurs(query, folded(rows[h.line as int]))
                    &&& exists|tail: Seq<char>|
                        {
                            &&& rows[h.line as int] == #[trigger] (h.text + tail)
                            &&& forall|j: int| 0 <= j < tail.len() ==> is_space(#[trigger] tail[j])
                        }
                    &&& h.text.len() > 0 ==> !is_space(h.text.last())
                }
            &&& forall|k: int, l: int| 0 <= k < l < hits.len() ==> hits[k].line < hits[l].line
            &&& forall|i: int|
                #![trigger rows[i]]
                0 <= i < rows.len() && occurs(query, folded(rows[i])) ==> {
                    ||| exists|k: int| 0 <= k < hits.len() && (#[trigger] hits[k]).line == i
                    ||| hits.len() == 5 && hits[4].line < i
                }
        }),
{
    let hits = line_hits(m, rows, query);
    law_run_hits(m, rows, query);
    assert forall|k: int| 0 <= k < hits.len() implies {
        let h = #[trigger] hits[k];
        &&& h.meta == m
        &&& h.line < rows.len()
        &&& occurs(query, folded(rows[h.line as int]))
        &&& exists|tail: Seq<char>|
            {
                &&& rows[h.line as int] == #[trigger] (h.text + tail)
                &&& forall|j: int| 0 <= j < tail.len() ==> is_space(#[trigger] tail[j])
            }
        &&& h.text.len() > 0 ==> !is_space(h.text.last())
    } by {
        let h = hits[k];
        law_texts_are_found(folded(rows[h.line as int]), query);
        law_trimming_the_end(rows[h.line as int]);
    }
    assert forall|i: int|
        #![trigger rows[i]]
        0 <= i < rows.len() && occurs(query, folded(rows[i])) implies {
        ||| exists|k: int| 0 <= k < hits.len() && (#[trigger] hits[k]).line == i
        ||| hits.len() == 5 && hits[4].line < i
    } by {
        law_texts_are_found(folded(rows[i]), query);
        law_mentions_are_hits(m, rows, query, i);
        let early = line_hits(m, rows.take(i), query);
        if early.len() >= 5 {
            law_run_hits(m, rows.take(i), query);
            lemma_hits_stay(m, rows, query, i);
            assert(hits[4] == early[4]);
        } else {
            let k = choose|k: int|
                0 <= k < hits.len() && hits[k] == crate::tui::search::hit_on(m, rows, i);
            assert(hits[k].line == i);
        }
    }
}

/// What the first lines of a log give stays as more lines come.
proof fn lemma_hits_stay(m: RunView, rows: Seq<Seq<char>>, query: Seq<char>, n: int)
    requires
        0 <= n <= rows.len() <= usize::MAX,
    ensures
        line_hits(m, rows.take(n), query).len() <= line_hits(m, rows, query).len(),
        forall|k: int|
            0 <= k < line_hits(m, rows.take(n), query).len() ==> line_hits(m, rows, query)[k]
                == #[trigger] line_hits(m, rows.take(n), query)[k],
    decreases rows.len(),
{
    if n == rows.len() {
        assert(rows.take(n) =~= rows);
    } else {
        let part = rows.drop_last();
        assert(part.take(n) =~= rows.take(n));
        lemma_hits_stay(m, part, query, n);
        let early = line_hits(m, rows.take(n), query);
        assert forall|k: int| 0 <= k < early.len() implies line_hits(m, rows, query)[k]
            == #[trigger] early[k] by {
            assert(line_hits(m, part, query)[k] == early[k]);
        }
    }
}

/// A search goes through the runs in their order and reads another log while
/// it has fewer than 500 hits; a log that cannot be read gives none.
pub proof fn law_searches_read_on(
    runs: Seq<RunView>,
    logs: Seq<Option<Seq<u8>>>,
    query: Seq<char>,
    n: nat,
)
    ensures
        hits_after(runs, logs, query, 0).len() == 0,
        hits_after(runs, logs, query, n).len() >= 500 ==> hits_after(runs, logs, query, n + 1)
            == hits_after(runs, logs, query, n),
        hits_after(runs, logs, query, n).len() < 500 && logs[n as int] is None ==> hits_after(
            runs,
            logs,
            query,
            n + 1,
        ) == hits_after(runs, logs, query, n),
        hits_after(runs, logs, query, n).len() < 500 && logs[n as int] is Some ==> hits_after(
            runs,
            logs,
            query,
            n + 1,
        ) == hits_after(runs, logs, query, n) + line_hits(
            runs[n as int],
            plain_lines(normalized(logs[n as int].unwrap())),
            query,
        ),
{
    if logs[n as int] is None {
        assert(hits_after(runs, logs, query, n) + run_hits(runs[n as int], None, query)
            =~= hits_after(runs, logs, query, n));
    }
}

// ---------------------------------------------------------------- moves --

/// The keys that scroll: a line, half a page, or to an end, and never past
/// the last page. A page is the rows on the screen, at least one.
pub proof fn law_scrolling(v: ViewerView)
    ensures
        ({
            let rows: nat = if v.height == 0 {
                1
            } else {
                v.height
            };
            let last: int = if v.lines.len() > rows {
                v.lines.len() - rows
            } else {
                0
            };
            let down = v.keyed(Key::Char('j'));
            let up = v.keyed(Key::Char('k'));
            let half_down = v.keyed(Key::Char('d'));
            let half_up = v.keyed(Key::Char('u'));
            let bottom = v.keyed(Key::Char('G'));
            &&& v.scroll < last ==> down.scroll == v.scroll + 1
            &&& v.scroll >= last ==> down.scroll == last
            &&& v.scroll > 0 ==> up.scroll == v.scroll - 1
            &&& v.scroll == 0 ==> up.scroll == 0
            &&& v.scroll + rows / 2 <= last ==> half_down.scroll == v.scroll + rows / 2
            &&& v.scroll + rows / 2 > last ==> half_down.scroll == last
            &&& v.scroll >= rows / 2 ==> half_up.scroll == v.scroll - rows / 2
            &&& v.scroll < rows / 2 ==> half_up.scroll == 0
            &&& v.keyed(Key::Char('g')).scroll == 0
            &&& bottom == (ViewerView { scroll: last as nat, follow: v.live, ..v })
            &&& v.keyed(Key::Down) == down && v.keyed(Key::Up) == up
            &&& v.keyed(Key::PageDown) == half_down && v.keyed(Key::PageUp) == half_up
            &&& down == (ViewerView { scroll: down.scroll, follow: false, ..v })
            &&& up == (ViewerView { scroll: up.scroll, follow: false, ..v })
            &&& half_down == (ViewerView { scroll: half_down.scroll, follow: false, ..v })
            &&& half_up == (ViewerView { scroll: half_up.scroll, follow: false, ..v })
            &&& v.keyed(Key::Char('g')) == (ViewerView { scroll: 0, follow: false, ..v })
        }),
{
}

/// `f` follows a live run from the bottom, or stops where it is; it does
/// nothing to a run that is over.
pub proof fn law_follow_key(v: ViewerView)
    ensures
        !v.live ==> v.keyed(Key::Char('f')) == v,
        v.live && v.follow ==> v.keyed(Key::Char('f')) == (ViewerView { follow: false, ..v }),
        v.live && !v.follow && v.height > 0 ==> v.keyed(Key::Char('f')) == (ViewerView {
            follow: true,
            scroll: if v.lines.len() > v.height {
                (v.lines.len() - v.height) as nat
            } else {
                0
            },
            ..v
        }),
{
}

/// `n` goes to the next match and `N` to the one before, round the ends; the
/// match is then shown with three lines above it, as far as there are any.
pub proof fn law_match_keys(v: ViewerView)
    requires
        v.matches.len() > 0,
        v.match_idx < v.matches.len(),
    ensures
        ({
            let next = v.keyed(Key::Char('n'));
            let back = v.keyed(Key::Char('N'));
            let line = v.matches[next.match_idx as int] as int;
            let before = v.matches[back.match_idx as int] as int;
            &&& v.match_idx + 1 < v.matches.len() ==> next.match_idx == v.match_idx + 1
            &&& v.match_idx + 1 == v.matches.len() ==> next.match_idx == 0
            &&& v.match_idx > 0 ==> back.match_idx == v.match_idx - 1
            &&& v.match_idx == 0 ==> back.match_idx == v.matches.len() - 1
            &&& line >= 3 ==> next.scroll == line - 3
            &&& line < 3 ==> next.scroll == 0
            &&& before >= 3 ==> back.scroll == before - 3
            &&& before < 3 ==> back.scroll == 0
            &&& next == (ViewerView { match_idx: next.match_idx, scroll: next.scroll, ..v })
            &&& back == (ViewerView { match_idx: back.match_idx, scroll: back.scroll, ..v })
        }),
{
}

/// Without matches `n` and `N` do nothing, and no other key does anything.
pub proof fn law_other_keys_do_nothing(v: ViewerView, c: char)
    ensures
        v.matches.len() == 0 ==> v.keyed(Key::Char('n')) == v && v.keyed(Key::Char('N')) == v,
        c != 'j' && c != 'k' && c != 'd' && c != 'u' && c != 'g' && c != 'G' && c != 'f' && c != 'n'
            && c != 'N' ==> v.keyed(Key::Char(c)) == v,
        v.keyed(Key::Enter) == v,
        v.keyed(Key::Backspace) == v,
        v.keyed(Key::Other) == v,
{
}

proof fn lemma_first(s: Seq<usize>, p: spec_fn(usize) -> bool)
    ensures
        first_index(s, p) <= s.len(),
        first_index(s, p) < s.len() ==> p(s[first_index(s, p) as int]),
        forall|k: int| 0 <= k < first_index(s, p) ==> !p(#[trigger] s[k]),
    decreases s.len(),
{
    if s.len() > 0 && !p(s[0]) {
        let t = s.drop_first();
        lemma_first(t, p);
        assert forall|k: int| 0 <= k < first_index(s, p) implies !p(#[trigger] s[k]) by {
            if k > 0 {
                assert(t[k - 1] == s[k]);
            }
        }
    }
}

/// A search in the viewer finds the lines in which the query occurs, whatever
/// its case, and goes to the first of them at or below the top of the screen,
/// or to the first of all where none is below. Without a match nothing moves.
pub proof fn law_searching_the_viewer(v: ViewerView, query: Seq<char>)
    requires
        v.stripped.len() <= usize::MAX,
        folded(query).len() > 0,
    ensures
        ({
            let found = v.searched(query);
            &&& found.query == folded(query)
            &&& forall|i: int|
                0 <= i < v.stripped.len() ==> (found.matches.contains(i as usize) <==> occurs(
                    folded(query),
                    folded(#[trigger] v.stripped[i]),
                ))
            &&& found.matches.len() == 0 ==> found.scroll == v.scroll && found.match_idx == 0
            &&& found.matches.len() > 0 ==> {
                let at = found.match_idx as int;
                let line = found.matches[at] as int;
                &&& at < found.matches.len()
                &&& line >= v.scroll ==> forall|k: int|
                    0 <= k < at ==> #[trigger] found.matches[k] < v.scroll
                &&& line < v.scroll ==> at == 0 && forall|k: int|
                    0 <= k < found.matches.len() ==> #[trigger] found.matches[k] < v.scroll
                &&& line >= 3 ==> found.scroll == line - 3
                &&& line < 3 ==> found.scroll == 0
            }
            &&& found.lines == v.lines && found.stripped == v.stripped && found.meta == v.meta
            &&& found.live == v.live && found.follow == v.follow && found.height == v.height
        }),
{
    let p = |m: usize| m >= v.scroll;
    law_matches_are_exact(v.stripped, folded(query));
    let found = v.with_query(query);
    lemma_first(found.matches, p);
    let next = first_index(found.matches, p);
    if next == found.matches.len() && next > 0 {
        assert(!p(found.matches[0]));
    }
}

/// An empty query clears the search.
pub proof fn law_clearing_the_search(v: ViewerView)
    ensures
        v.searched(Seq::<char>::empty()).matches.len() == 0,
        v.searched(Seq::<char>::empty()).query.len() == 0,
        v.searched(Seq::<char>::empty()).scroll == v.scroll,
        search_status(Seq::<char>::empty()) == "search cleared"@,
{
    assert(folded(Seq::<char>::empty()) =~= Seq::<char>::empty());
}

// --------------------------------------------------------------- opening --

/// A run opens with its log decoded: a run that is over at its top, a live one
/// at its last page; and a hit with its line three lines below the top.
pub proof fn law_opening(
    meta: RunView,
    alive: bool,
    jump_to: Option<usize>,
    query: Option<Seq<char>>,
    from_results: bool,
    bytes: Seq<u8>,
    truncated: bool,
    size: u64,
)
    ensures
        ({
            let v = opened(meta, alive, jump_to, query, from_results, bytes, truncated, size);
            let live = !meta.done && meta.pid is Some && alive;
            &&& v.meta == meta
            &&& v.stripped == lines(text_in(without_escapes(normalized(bytes))))
            &&& v.lines == shown_lines(normalized(bytes))
            &&& v.live == live
            &&& v.follow == (live && jump_to is None)
            &&& v.height == 24
            &&& jump_to is None ==> v.match_idx == 0
            &&& v.truncated == truncated && v.from_results == from_results && v.last_size == size
            &&& query is None ==> v.query.len() == 0 && v.matches.len() == 0
            &&& query matches Some(q) ==> v.query == folded(q) && v.matches == matching(
                v.stripped,
                folded(q),
            )
            &&& jump_to matches Some(line) ==> v.scroll == if line >= 3 {
                line - 3
            } else {
                0
            }
            &&& jump_to is None && !live ==> v.scroll == 0
            &&& jump_to is None && live ==> v.scroll == if v.lines.len() >= 24 {
                v.lines.len() - 24
            } else {
                0
            }
        }),
{
}

/// Only a tick that is a multiple of ten looks whether a run is over, and a
/// record that says it is running, or none at all, changes nothing.
pub proof fn law_running_runs_stay_live(
    v: ViewerView,
    tick: u64,
    size: u64,
    log: Option<(Seq<u8>, bool)>,
    meta: RunView,
    alive: bool,
)
    requires
        v.live,
    ensures
        v.polled(tick, size, log, None).live,
        v.polled(tick, size, log, None).meta == v.meta,
        tick % 10 != 0 ==> v.polled(tick, size, log, Some((meta, alive))) == v.polled(
            tick,
            size,
            log,
            None,
        ),
        !meta.done && meta.pid is Some && alive ==> v.polled(tick, size, log, Some((meta, alive)))
            == v.polled(tick, size, log, None),
{
}

/// A log that has grown is decoded anew, the search goes on in it, and a view
/// that follows shows its last page.
pub proof fn law_growth_is_shown(v: ViewerView, tick: u64, size: u64, bytes: Seq<u8>, truncated: bool)
    requires
        v.live,
        size != v.last_size,
        v.height > 0,
    ensures
        ({
            let next = v.polled(tick, size, Some((bytes, truncated)), None);
            &&& next.stripped == lines(text_in(without_escapes(normalized(bytes))))
            &&& next.lines == shown_lines(normalized(bytes))
            &&& next.matches == matching(next.stripped, folded(v.query))
            &&& next.match_idx == 0
            &&& next.truncated == truncated
            &&& next.last_size == size
            &&& v.follow ==> next.scroll == if next.lines.len() > v.height {
                next.lines.len() - v.height
            } else {
                0
            }
            &&& !v.follow ==> next.scroll == v.scroll
        }),
{
}

/// A frame shows as many lines as it has rows, from the line that was scrolled
/// to, or the last ones; and the current match where it is among them.
pub proof fn law_frames(v: ViewerView, rows: nat, start: int, end: int)
    ensures
        v.framed(rows) == (ViewerView {
            height: rows,
            scroll: if v.scroll + rows <= v.lines.len() {
                v.scroll
            } else if v.lines.len() > rows {
                (v.lines.len() - rows) as nat
            } else {
                0
            },
            ..v
        }),
        overlay_of(v, start, end) is Some <==> v.matches.len() > 0 && start
            <= v.matches[v.match_idx as int] < end,
        overlay_of(v, start, end) matches Some((row, text)) ==> row + start
            == v.matches[v.match_idx as int] && text == v.stripped[row + start],
{
}

} // verus!
