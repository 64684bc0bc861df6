//! What holds of the web server: what its pages say of a run, how requests are
//! read and routed, and where it listens.
use crate::serve::{
    answer, asset_of, dot_html, esc_char, escaped, everywhere, head_text, header_line, header_of,
    index_html, is_run_id, law_escaped_text_is_inert, listen_addr, reason, request_line, row_html,
    rows_html, status_html, BodyView, FedView, Reading, ResponseView, RoutedView, INDEX_EMPTY,
    INDEX_HEAD, INDEX_TAIL,
};
use crate::store::{RunState, RunView};
use crate::text::{contains, decimal, is_space, starts_with, trim, words};
use crate::text_laws::{
    law_bytes_are_read_as_text, law_decimal, law_lines, law_parting, law_texts_start,
    law_what_trimming_leaves, law_white_space, law_words, occurs,
};
use vstd::prelude::*;
use vstd::utf8::encode_utf8;

verus! {

// -------------------------------------------------------------- escaping --

/// The four characters that mean something in HTML are written as entities;
/// every other character stands for itself, and a text is escaped character
/// by character.
pub proof fn law_escaping(a: Seq<char>, c: char, b: Seq<char>)
    ensures
        escaped(seq!['&']) == "&amp;"@,
        escaped(seq!['<']) == "&lt;"@,
        escaped(seq!['>']) == "&gt;"@,
        escaped(seq!['"']) == "&quot;"@,
        c != '&' && c != '<' && c != '>' && c != '"' ==> escaped(seq![c]) == seq![c],
        escaped(Seq::<char>::empty()) == Seq::<char>::empty(),
        escaped(a + b) == escaped(a) + escaped(b),
{
    lemma_escaped_one('&');
    lemma_escaped_one('<');
    lemma_escaped_one('>');
    lemma_escaped_one('"');
    lemma_escaped_one(c);
    lemma_escaped_join(a, b);
}

proof fn lemma_escaped_one(c: char)
    ensures
        escaped(seq![c]) == esc_char(c),
{
    assert(seq![c].drop_last() =~= seq![]);
    assert(escaped(seq![c].drop_last()) =~= seq![]);
    assert(escaped(seq![c]) =~= esc_char(c));
}

proof fn lemma_escaped_join(a: Seq<char>, b: Seq<char>)
    ensures
        escaped(a + b) == escaped(a) + escaped(b),
    decreases b.len(),
{
    if b.len() == 0 {
        assert(a + b =~= a);
        assert(escaped(a) + escaped(b) =~= escaped(a));
    } else {
        assert((a + b).drop_last() =~= a + b.drop_last());
        lemma_escaped_join(a, b.drop_last());
        assert(escaped(a + b) =~= escaped(a) + escaped(b));
    }
}

// ------------------------------------------------------------------ rows --

/// `mark` and `s` from `at` on differ `j` characters further, inside `s`.
spec fn differs(s: Seq<char>, mark: Seq<char>, at: int, j: int) -> bool {
    0 <= j < mark.len() && at + j < s.len() && s[at + j] != mark[j]
}

/// `mark` does not stand in `s` at `at`, whatever follows `s`.
spec fn misfits_at(s: Seq<char>, mark: Seq<char>, at: int) -> bool {
    exists|j: int| #[trigger] differs(s, mark, at, j)
}

/// No place of `s` can be the start of `mark`, whatever follows `s`.
spec fn misfits(s: Seq<char>, mark: Seq<char>) -> bool {
    forall|at: int| 0 <= at < s.len() ==> #[trigger] misfits_at(s, mark, at)
}

proof fn lemma_misfits_join(a: Seq<char>, b: Seq<char>, mark: Seq<char>)
    requires
        misfits(a, mark),
        misfits(b, mark),
    ensures
        misfits(a + b, mark),
{
    assert forall|at: int| 0 <= at < (a + b).len() implies #[trigger] misfits_at(a + b, mark, at) by {
        if at < a.len() {
            assert(misfits_at(a, mark, at));
            let j = choose|j: int| #[trigger] differs(a, mark, at, j);
            assert(differs(a + b, mark, at, j));
        } else {
            assert(misfits_at(b, mark, at - a.len()));
            let j = choose|j: int| #[trigger] differs(b, mark, at - a.len(), j);
            assert((a + b)[at + j] == b[at - a.len() + j]);
            assert(differs(a + b, mark, at, j));
        }
    }
}

proof fn lemma_misfits_is_absent(s: Seq<char>, mark: Seq<char>)
    requires
        misfits(s, mark),
        mark.len() > 0,
    ensures
        !occurs(mark, s),
{
    if occurs(mark, s) {
        let (a, b) = choose|a: Seq<char>, b: Seq<char>| s == #[trigger] (a + mark + b);
        let at = a.len() as int;
        assert(misfits_at(s, mark, at));
        let j = choose|j: int| #[trigger] differs(s, mark, at, j);
        assert(s[at + j] == mark[j]);
    }
}

/// Text without `<` misfits every mark that starts with it.
proof fn lemma_plain_misfits(s: Seq<char>, mark: Seq<char>)
    requires
        forall|k: int| 0 <= k < s.len() ==> #[trigger] s[k] != '<',
        mark.len() > 0,
        mark[0] == '<',
    ensures
        misfits(s, mark),
{
    assert forall|at: int| 0 <= at < s.len() implies #[trigger] misfits_at(s, mark, at) by {
        assert(s[at] != '<');
        assert(differs(s, mark, at, 0));
    }
}

/// A mark in a span of some class.
spec fn is_mark(mark: Seq<char>) -> bool {
    mark.len() > 12 && mark[0] == '<' && mark[1] == 's' && mark[12] != 'm'
}

proof fn lemma_literals_misfit(mark: Seq<char>)
    requires
        is_mark(mark),
    ensures
        misfits("<a class=run href=\"/watch/"@, mark),
        misfits("\">"@, mark),
        misfits(""@, mark),
        misfits(" "@, mark),
        misfits("<code>"@, mark),
        misfits("</code><span class=meta>"@, mark),
        misfits(" B</span></a>\n"@, mark),
{
    reveal_strlit("<a class=run href=\"/watch/");
    reveal_strlit("\">");
    reveal_strlit("");
    reveal_strlit(" ");
    reveal_strlit("<code>");
    reveal_strlit("</code><span class=meta>");
    reveal_strlit(" B</span></a>\n");
    let a = "<a class=run href=\"/watch/"@;
    assert forall|at: int| 0 <= at < a.len() implies #[trigger] misfits_at(a, mark, at) by {
        if at == 0 {
            assert(differs(a, mark, at, 1));
        } else {
            assert(a[at] != '<');
            assert(differs(a, mark, at, 0));
        }
    }
    lemma_plain_misfits("\">"@, mark);
    lemma_plain_misfits(" "@, mark);
    lemma_plain_misfits(""@, mark);
    let b = "<code>"@;
    assert forall|at: int| 0 <= at < b.len() implies #[trigger] misfits_at(b, mark, at) by {
        if at == 0 {
            assert(differs(b, mark, at, 1));
        } else {
            assert(differs(b, mark, at, 0));
        }
    }
    let c = "</code><span class=meta>"@;
    assert forall|at: int| 0 <= at < c.len() implies #[trigger] misfits_at(c, mark, at) by {
        if at == 0 {
            assert(differs(c, mark, at, 1));
        } else if at == 7 {
            assert(c[19] == 'm');
            assert(differs(c, mark, at, 12));
        } else {
            assert(differs(c, mark, at, 0));
        }
    }
    let d = " B</span></a>\n"@;
    assert forall|at: int| 0 <= at < d.len() implies #[trigger] misfits_at(d, mark, at) by {
        if at == 2 || at == 9 {
            assert(differs(d, mark, at, 1));
        } else {
            assert(differs(d, mark, at, 0));
        }
    }
}

proof fn lemma_spans_misfit(mark: Seq<char>)
    requires
        is_mark(mark),
    ensures
        mark[12] != 'l' ==> misfits("<span class=live>●</span>"@, mark),
        mark[12] != 'o' ==> misfits("<span class=ok>✓</span>"@, mark),
        mark[12] != 'e' ==> misfits("<span class=err>✗</span>"@, mark),
{
    reveal_strlit("<span class=live>●</span>");
    reveal_strlit("<span class=ok>✓</span>");
    reveal_strlit("<span class=err>✗</span>");
    let a = "<span class=live>●</span>"@;
    if mark[12] != 'l' {
        assert forall|at: int| 0 <= at < a.len() implies #[trigger] misfits_at(a, mark, at) by {
            if at == 0 {
                assert(differs(a, mark, at, 12));
            } else if at == 18 {
                assert(differs(a, mark, at, 1));
            } else {
                assert(differs(a, mark, at, 0));
            }
        }
    }
    let b = "<span class=ok>✓</span>"@;
    if mark[12] != 'o' {
        assert forall|at: int| 0 <= at < b.len() implies #[trigger] misfits_at(b, mark, at) by {
            if at == 0 {
                assert(differs(b, mark, at, 12));
            } else if at == 16 {
                assert(differs(b, mark, at, 1));
            } else {
                assert(differs(b, mark, at, 0));
            }
        }
    }
    let c = "<span class=err>✗</span>"@;
    if mark[12] != 'e' {
        assert forall|at: int| 0 <= at < c.len() implies #[trigger] misfits_at(c, mark, at) by {
            if at == 0 {
                assert(differs(c, mark, at, 12));
            } else if at == 17 {
                assert(differs(c, mark, at, 1));
            } else {
                assert(differs(c, mark, at, 0));
            }
        }
    }
}

proof fn lemma_digits(n: nat)
    ensures
        forall|k: int| 0 <= k < decimal(n).len() ==> '0' <= #[trigger] decimal(n)[k] <= '9',
    decreases n,
{
    if n >= 10 {
        let rest = decimal(n / 10);
        lemma_digits(n / 10);
        assert forall|k: int| 0 <= k < decimal(n).len() implies '0' <= #[trigger] decimal(n)[k]
            <= '9' by {
            if k < rest.len() {
                assert(decimal(n)[k] == rest[k]);
            }
        }
    }
}

/// A row without its two marks has none of them.
proof fn lemma_row_misfits(m: RunView, dot: Seq<char>, status: Seq<char>, mark: Seq<char>)
    requires
        is_mark(mark),
        misfits(dot, mark),
        misfits(status, mark),
    ensures
        !occurs(
            mark,
            "<a class=run href=\"/watch/"@ + escaped(m.id) + "\">"@ + dot + "<code>"@ + escaped(
                m.cmdline(),
            ) + "</code><span class=meta>"@ + status + " "@ + decimal(m.bytes as nat)
                + " B</span></a>\n"@,
        ),
{
    lemma_literals_misfit(mark);
    law_escaped_text_is_inert(m.id);
    law_escaped_text_is_inert(m.cmdline());
    lemma_digits(m.bytes as nat);
    lemma_plain_misfits(escaped(m.id), mark);
    lemma_plain_misfits(escaped(m.cmdline()), mark);
    lemma_plain_misfits(decimal(m.bytes as nat), mark);
    let s1 = "<a class=run href=\"/watch/"@ + escaped(m.id);
    lemma_misfits_join("<a class=run href=\"/watch/"@, escaped(m.id), mark);
    let s2 = s1 + "\">"@;
    lemma_misfits_join(s1, "\">"@, mark);
    let s3 = s2 + dot;
    lemma_misfits_join(s2, dot, mark);
    let s4 = s3 + "<code>"@;
    lemma_misfits_join(s3, "<code>"@, mark);
    let s5 = s4 + escaped(m.cmdline());
    lemma_misfits_join(s4, escaped(m.cmdline()), mark);
    let s6 = s5 + "</code><span class=meta>"@;
    lemma_misfits_join(s5, "</code><span class=meta>"@, mark);
    let s7 = s6 + status;
    lemma_misfits_join(s6, status, mark);
    let s8 = s7 + " "@;
    lemma_misfits_join(s7, " "@, mark);
    let s9 = s8 + decimal(m.bytes as nat);
    lemma_misfits_join(s8, decimal(m.bytes as nat), mark);
    lemma_misfits_join(s9, " B</span></a>\n"@, mark);
    lemma_misfits_is_absent(s9 + " B</span></a>\n"@, mark);
}

/// A row of the index page has the live mark if and only if the run is
/// running: a run that is done, or that died, has none.
pub proof fn law_live_marks(m: RunView, state: RunState)
    ensures
        occurs("<span class=live>"@, row_html(m, state)) <==> state == RunState::Running,
        !occurs("<span class=live>"@, row_html(m, RunState::Done)),
        !occurs("<span class=live>"@, row_html(m, RunState::Died)),
        occurs("<span class=live>●</span>"@, row_html(m, RunState::Running)),
{
    let mark = "<span class=live>"@;
    reveal_strlit("<span class=live>");
    reveal_strlit("<span class=live>●</span>");
    reveal_strlit("●</span>");
    lemma_literals_misfit(mark);
    lemma_spans_misfit(mark);
    let status = status_html(m.exit_code);
    assert(misfits(status, mark));
    lemma_row_misfits(m, ""@, status, mark);
    let front = "<a class=run href=\"/watch/"@ + escaped(m.id) + "\">"@;
    let back = "<code>"@ + escaped(m.cmdline()) + "</code><span class=meta>"@ + status + " "@
        + decimal(m.bytes as nat) + " B</span></a>\n"@;
    let whole = "<span class=live>●</span>"@;
    assert(whole =~= mark + "●</span>"@);
    assert(row_html(m, RunState::Running) =~= front + whole + back);
    assert(row_html(m, RunState::Running) =~= front + mark + ("●</span>"@ + back));
}

/// A row says how its run went: well if and only if it left with zero, badly
/// if and only if it left with another code, and nothing of a run that left
/// no code.
pub proof fn law_outcome_marks(m: RunView, state: RunState)
    ensures
        occurs("<span class=ok>"@, row_html(m, state)) <==> m.exit_code == Some(0i32),
        occurs("<span class=err>"@, row_html(m, state)) <==> (m.exit_code matches Some(c) && c
            != 0),
{
    let ok = "<span class=ok>"@;
    let err = "<span class=err>"@;
    reveal_strlit("<span class=ok>");
    reveal_strlit("<span class=err>");
    reveal_strlit("<span class=ok>✓</span>");
    reveal_strlit("<span class=err>✗</span>");
    reveal_strlit("✓</span>");
    reveal_strlit("✗</span>");
    lemma_literals_misfit(ok);
    lemma_literals_misfit(err);
    lemma_spans_misfit(ok);
    lemma_spans_misfit(err);
    let dot = dot_html(state);
    let status = status_html(m.exit_code);
    assert(misfits(dot, ok) && misfits(dot, err));
    let front = "<a class=run href=\"/watch/"@ + escaped(m.id) + "\">"@ + dot + "<code>"@ + escaped(
        m.cmdline(),
    ) + "</code><span class=meta>"@;
    let back = " "@ + decimal(m.bytes as nat) + " B</span></a>\n"@;
    if m.exit_code == Some(0i32) {
        assert(status =~= ok + "✓</span>"@);
        assert(row_html(m, state) =~= front + ok + ("✓</span>"@ + back));
        lemma_row_misfits(m, dot, status, err);
    } else if m.exit_code is Some {
        assert(status =~= err + "✗</span>"@);
        assert(row_html(m, state) =~= front + err + ("✗</span>"@ + back));
        lemma_row_misfits(m, dot, status, ok);
    } else {
        lemma_row_misfits(m, dot, status, ok);
        lemma_row_misfits(m, dot, status, err);
    }
}

/// A row links to the watch page of its run and says its command and its
/// size: each text escaped, in this order.
pub proof fn law_rows_say(m: RunView, state: RunState)
    ensures
        starts_with(row_html(m, state), "<a class=run href=\"/watch/"@ + escaped(m.id) + "\">"@),
        occurs("<code>"@ + escaped(m.cmdline()) + "</code>"@, row_html(m, state)),
        occurs(" "@ + decimal(m.bytes as nat) + " B</span></a>\n"@, row_html(m, state)),
        row_html(m, state).last() == '\n',
{
    reveal_strlit("</code><span class=meta>");
    reveal_strlit("</code>");
    reveal_strlit("<span class=meta>");
    reveal_strlit(" B</span></a>\n");
    let row = row_html(m, state);
    let link = "<a class=run href=\"/watch/"@ + escaped(m.id) + "\">"@;
    let command = "<code>"@ + escaped(m.cmdline()) + "</code>"@;
    let size = " "@ + decimal(m.bytes as nat) + " B</span></a>\n"@;
    let dot = dot_html(state);
    let status = status_html(m.exit_code);
    assert("</code><span class=meta>"@ =~= "</code>"@ + "<span class=meta>"@);
    assert(row =~= link + (dot + command + "<span class=meta>"@ + status + size));
    law_texts_start(row, link);
    assert(row =~= (link + dot) + command + ("<span class=meta>"@ + status + size));
    assert(row =~= (link + dot + command + "<span class=meta>"@ + status) + size + seq![]);
}

/// The page has a row for each run, one after the other; what a row says of
/// its state is what the record and the process say.
pub proof fn law_rows_follow(
    a: Seq<(RunView, bool)>,
    b: Seq<(RunView, bool)>,
    m: RunView,
    alive: bool,
)
    ensures
        rows_html(a + b) == rows_html(a) + rows_html(b),
        rows_html(Seq::<(RunView, bool)>::empty()).len() == 0,
        rows_html(seq![(m, alive)]) == row_html(m, m.state(alive)),
        occurs("<span class=live>"@, rows_html(seq![(m, alive)])) <==> !m.done && m.pid is Some
            && alive,
    decreases b.len(),
{
    let one = seq![(m, alive)];
    assert(one.drop_last() =~= seq![]);
    assert(rows_html(one.drop_last()) =~= seq![]);
    assert(rows_html(one) =~= row_html(m, m.state(alive)));
    law_live_marks(m, m.state(alive));
    if b.len() == 0 {
        assert(a + b =~= a);
        assert(rows_html(a) + rows_html(b) =~= rows_html(a));
    } else {
        assert((a + b).drop_last() =~= a + b.drop_last());
        law_rows_follow(a, b.drop_last(), m, alive);
        assert(rows_html(a + b) =~= rows_html(a) + rows_html(b));
    }
}

/// An index page is framed by its head and its tail, shows the captures in
/// flight and then the library, and says where it is empty that it is.
pub proof fn law_index_pages(running: Seq<(RunView, bool)>, runs: Seq<(RunView, bool)>)
    ensures
        running.len() == 0 && runs.len() == 0 ==> index_html(running, runs) == INDEX_HEAD@
            + INDEX_EMPTY@ + INDEX_TAIL@,
        running.len() > 0 || runs.len() > 0 ==> index_html(running, runs) == INDEX_HEAD@ + rows_html(
            running,
        ) + rows_html(runs.reverse()) + INDEX_TAIL@,
{
    assert(runs.len() == 0 ==> runs.reverse() =~= seq![]);
    assert(index_html(running, runs) =~= INDEX_HEAD@ + (if running.len() == 0 && runs.len() == 0 {
        INDEX_EMPTY@
    } else {
        seq![]
    }) + (rows_html(running) + rows_html(runs.reverse())) + INDEX_TAIL@);
    assert(running.len() == 0 && runs.len() == 0 ==> index_html(running, runs) =~= INDEX_HEAD@
        + INDEX_EMPTY@ + INDEX_TAIL@);
    assert(running.len() > 0 || runs.len() > 0 ==> index_html(running, runs) =~= INDEX_HEAD@
        + rows_html(running) + rows_html(runs.reverse()) + INDEX_TAIL@);
}

// -------------------------------------------------------------- requests --

/// A header is the first of its name.
pub proof fn law_headers(headers: Seq<(Seq<char>, Seq<char>)>, name: Seq<char>, i: int)
    ensures
        (forall|j: int| 0 <= j < headers.len() ==> (#[trigger] headers[j]).0 != name) ==> header_of(
            headers,
            name,
        ) is None,
        0 <= i < headers.len() && headers[i].0 == name && (forall|j: int|
            0 <= j < i ==> (#[trigger] headers[j]).0 != name) ==> header_of(headers, name) == Some(
            headers[i].1,
        ),
    decreases headers.len(),
{
    if headers.len() > 0 && headers[0].0 != name {
        let rest = headers.drop_first();
        law_headers(rest, name, i - 1);
        if forall|j: int| 0 <= j < headers.len() ==> (#[trigger] headers[j]).0 != name {
            assert forall|j: int| 0 <= j < rest.len() implies (#[trigger] rest[j]).0 != name by {
                assert(headers[j + 1].0 != name);
            }
        }
        if 0 < i < headers.len() && headers[i].0 == name && (forall|j: int|
            0 <= j < i ==> (#[trigger] headers[j]).0 != name) {
            assert(rest[i - 1] == headers[i]);
            assert forall|j: int| 0 <= j < i - 1 implies (#[trigger] rest[j]).0 != name by {
                assert(headers[j + 1].0 != name);
            }
        }
    }
}

/// A word: no white space in it.
pub open spec fn is_word(s: Seq<char>) -> bool {
    s.len() > 0 && forall|k: int| 0 <= k < s.len() ==> !is_space(#[trigger] s[k])
}

/// A request line is a method, a target and a version; only GET is answered,
/// and the target is what is asked for.
pub proof fn law_request_lines(method: Seq<char>, target: Seq<char>, version: Seq<char>)
    requires
        is_word(method),
        is_word(target),
        is_word(version),
    ensures
        ({
            let row = method + seq![' '] + target + seq![' '] + version + seq!['\r', '\n'];
            &&& method == "GET"@ ==> request_line(row) == FedView::More(
                Reading { path: Some(target), headers: seq![], seen: 0 },
            )
            &&& method != "GET"@ ==> request_line(row) == FedView::Bad("method not allowed"@)
        }),
        request_line(method + seq![' '] + target) == FedView::Bad("bad request line"@),
        request_line(method) == FedView::Bad("bad request line"@),
        request_line(Seq::<char>::empty()) == FedView::Closed,
{
    let none = Seq::<char>::empty();
    let row = method + seq![' '] + target + seq![' '] + version + seq!['\r', '\n'];
    law_white_space(' ');
    law_white_space('\r');
    law_white_space('\n');
    let end = seq!['\n'];
    law_words(none, '\n', none);
    assert(none.push('\n') + none =~= end);
    assert(words(end) =~= seq![]);
    let tail = version.push('\r') + end;
    law_words(version, '\r', end);
    assert(words(tail) =~= seq![version]);
    let mid = target.push(' ') + tail;
    law_words(target, ' ', tail);
    assert(words(mid) =~= seq![target, version]);
    law_words(method, ' ', mid);
    assert(row =~= method.push(' ') + mid);
    assert(words(row) =~= seq![method, target, version]);
    law_words(method, ' ', target);
    law_words(target, ' ', none);
    assert(method + seq![' '] + target =~= method.push(' ') + target);
    assert(words(method + seq![' '] + target) =~= seq![method, target]);
}

/// A header line is a name and a value with a colon between them: the name in
/// lower case, and neither with the white space around it.
pub proof fn law_header_lines(name: Seq<char>, value: Seq<char>)
    requires
        !name.contains(':'),
    ensures
        ({
            let header = header_line(name + seq![':'] + value);
            let bare = trim(name);
            &&& header.0.len() == bare.len()
            &&& forall|k: int|
                0 <= k < bare.len() ==> #[trigger] header.0[k] as int == if 65 <= bare[k] as int
                    <= 90 {
                    bare[k] as int + 32
                } else {
                    bare[k] as int
                }
            &&& header.1 == trim(value)
        }),
{
    law_parting(name, ':', value);
    assert(name + seq![':'] + value =~= name.push(':') + value);
}

/// After its first line a request is read up to an empty line, or to the end,
/// or for 64 lines; a line with a colon in it is a header.
pub proof fn law_requests_are_read(r: Reading, row: Seq<char>)
    requires
        r.path is Some,
    ensures
        r.fed("\r\n"@) == FedView::Complete(r.path.unwrap(), r.headers),
        r.fed(Seq::<char>::empty()) == FedView::Complete(r.path.unwrap(), r.headers),
        row.len() > 0 && row != "\r\n"@ ==> {
            let headers = if row.contains(':') {
                r.headers.push(header_line(row))
            } else {
                r.headers
            };
            &&& r.seen == 63 ==> r.fed(row) == FedView::Complete(r.path.unwrap(), headers)
            &&& r.seen < 63 ==> r.fed(row) == FedView::More(
                Reading { path: r.path, headers, seen: r.seen + 1 },
            )
        },
{
}

// ---------------------------------------------------------------- routes --

/// A run id is one or more digits and dashes.
pub proof fn law_run_ids(id: Seq<char>)
    ensures
        is_run_id(id) <==> id.len() > 0 && forall|k: int|
            0 <= k < id.len() ==> '0' <= #[trigger] id[k] <= '9' || id[k] == '-',
{
    if id.len() > 0 && forall|k: int|
        0 <= k < id.len() ==> '0' <= #[trigger] id[k] <= '9' || id[k] == '-' {
        assert forall|k: int| 0 <= k < id.len() implies crate::serve::id_char(#[trigger] id[k]) by {}
    }
    if is_run_id(id) {
        assert forall|k: int| 0 <= k < id.len() implies '0' <= #[trigger] id[k] <= '9' || id[k]
            == '-' by {
            assert(crate::serve::id_char(id[k]));
        }
    }
}

/// What follows a question mark in a target does not matter.
pub proof fn law_queries_do_not_matter(path: Seq<char>, query: Seq<char>)
    requires
        !path.contains('?'),
    ensures
        answer(path + seq!['?'] + query) == answer(path),
{
    law_parting(path, '?', query);
    assert(path + seq!['?'] + query =~= path.push('?') + query);
}

/// Where a target leads: to the index, to the watch page of a run, to an
/// asset, to the stream of a run, or nowhere.
pub proof fn law_routes(name: Seq<char>, path: Seq<char>)
    requires
        !name.contains('?'),
        !path.contains('?'),
    ensures
        answer("/"@) == RoutedView::Answer(
            ResponseView {
                status: 200,
                mime: "text/html; charset=utf-8"@,
                body: BodyView::Index,
            },
        ),
        is_run_id(name) ==> answer("/watch/"@ + name) == RoutedView::Answer(
            ResponseView {
                status: 200,
                mime: "text/html; charset=utf-8"@,
                body: BodyView::Watch,
            },
        ),
        !is_run_id(name) ==> answer("/watch/"@ + name) == RoutedView::Answer(
            ResponseView {
                status: 404,
                mime: "text/plain"@,
                body: BodyView::Text("no such run"@),
            },
        ),
        asset_of(name) matches Some((file, mime)) ==> answer("/assets/"@ + name)
            == RoutedView::Answer(
            ResponseView { status: 200, mime, body: BodyView::Asset(file) },
        ),
        asset_of(name) is None ==> answer("/assets/"@ + name) == RoutedView::Answer(
            ResponseView { status: 404, mime: "text/plain"@, body: BodyView::Text("not found"@) },
        ),
        answer("/stream/"@ + name) == RoutedView::Stream(name),
        path != "/"@ && !starts_with(path, "/watch/"@) && !starts_with(path, "/assets/"@)
            && !starts_with(path, "/stream/"@) ==> answer(path) == RoutedView::Answer(
            ResponseView { status: 404, mime: "text/plain"@, body: BodyView::Text("not found"@) },
        ),
{
    reveal_strlit("/");
    reveal_strlit("/watch/");
    reveal_strlit("/assets/");
    reveal_strlit("/stream/");
    lemma_no_query("/"@, Seq::empty());
    lemma_no_query("/watch/"@, name);
    lemma_no_query("/assets/"@, name);
    lemma_no_query("/stream/"@, name);
    assert("/"@ + Seq::<char>::empty() =~= "/"@);
    law_parting("/"@, '?', name);
    law_parting("/watch/"@ + name, '?', name);
    law_parting("/assets/"@ + name, '?', name);
    law_parting("/stream/"@ + name, '?', name);
    law_parting(path, '?', name);
    law_texts_start("/watch/"@ + name, "/watch/"@);
    law_texts_start("/assets/"@ + name, "/assets/"@);
    law_texts_start("/stream/"@ + name, "/stream/"@);
    assert(("/assets/"@ + name)[1] == 'a');
    assert(("/stream/"@ + name)[1] == 's');
    assert(("/watch/"@ + name).len() > 1);
    assert(starts_with("/assets/"@ + name, "/watch/"@) ==> ("/assets/"@ + name).take(7)[1] == 'a');
    assert(starts_with("/stream/"@ + name, "/watch/"@) ==> ("/stream/"@ + name).take(7)[1] == 's');
    assert(starts_with("/stream/"@ + name, "/assets/"@) ==> ("/stream/"@ + name).take(8)[1] == 's');
}

proof fn lemma_no_query(head: Seq<char>, name: Seq<char>)
    requires
        forall|k: int| 0 <= k < head.len() ==> #[trigger] head[k] != '?',
        !name.contains('?'),
    ensures
        !(head + name).contains('?'),
{
    let all = head + name;
    if all.contains('?') {
        let k = choose|k: int| 0 <= k < all.len() && all[k] == '?';
        if k < head.len() {
            assert(head[k] == '?');
        } else {
            assert(name[k - head.len()] == '?');
        }
    }
}

/// The assets: the terminal's ten scripts and its style, from its own
/// directory, and the den's style; no other name is one.
pub proof fn law_assets(name: Seq<char>)
    ensures
        ({
            let script = {
                ||| name == "core/index.js"@ || name == "core/transport.js"@
                ||| name == "core/wasm-bridge.js"@ || name == "core/wasm-inline.js"@
                ||| name == "core/terminal-core.js"@ || name == "dom/index.js"@
                ||| name == "dom/wterm.js"@ || name == "dom/debug.js"@
                ||| name == "dom/input.js"@ || name == "dom/renderer.js"@
            };
            let style = name == "dom/terminal.css"@;
            let own = name == "den.css"@;
            &&& script ==> asset_of(name) == Some(("wterm/"@ + name, "text/javascript"@))
            &&& style ==> asset_of(name) == Some(("wterm/"@ + name, "text/css"@))
            &&& own ==> asset_of(name) == Some((name, "text/css"@))
            &&& !script && !style && !own ==> asset_of(name) is None
        }),
{
    reveal_strlit("den.css");
    reveal_strlit("dom/terminal.css");
    reveal_strlit("core/index.js");
    reveal_strlit("core/transport.js");
    reveal_strlit("core/wasm-bridge.js");
    reveal_strlit("core/wasm-inline.js");
    reveal_strlit("core/terminal-core.js");
    reveal_strlit("dom/index.js");
    reveal_strlit("dom/wterm.js");
    reveal_strlit("dom/debug.js");
    reveal_strlit("dom/input.js");
    reveal_strlit("dom/renderer.js");
    assert("dom/terminal.css"@[4] == 't' && "dom/terminal.css"@[0] == 'd');
}

/// A response's head says its status, its type and how long its body is, and
/// that the connection ends with it.
pub proof fn law_response_heads(mime: Seq<char>, len: nat)
    ensures
        head_text(200, mime, len) == "HTTP/1.1 200 OK\r\ncontent-type: "@ + mime
            + "\r\ncontent-length: "@ + decimal(len) + "\r\nconnection: close\r\n\r\n"@,
        head_text(400, mime, len) == "HTTP/1.1 400 Bad Request\r\ncontent-type: "@ + mime
            + "\r\ncontent-length: "@ + decimal(len) + "\r\nconnection: close\r\n\r\n"@,
        head_text(404, mime, len) == "HTTP/1.1 404 Not Found\r\ncontent-type: "@ + mime
            + "\r\ncontent-length: "@ + decimal(len) + "\r\nconnection: close\r\n\r\n"@,
{
    reveal_strlit("0123456789");
    law_decimal(20, 0);
    law_decimal(2, 0);
    law_decimal(40, 0);
    law_decimal(4, 0);
    law_decimal(40, 4);
    law_decimal(0, 2);
    law_decimal(0, 4);
    assert(decimal(200) =~= seq!['2', '0', '0']);
    assert(decimal(400) =~= seq!['4', '0', '0']);
    assert(decimal(404) =~= seq!['4', '0', '4']);
    reveal_strlit("HTTP/1.1 ");
    reveal_strlit(" ");
    reveal_strlit("OK");
    reveal_strlit("Bad Request");
    reveal_strlit("Not Found");
    reveal_strlit("\r\ncontent-type: ");
    reveal_strlit("HTTP/1.1 200 OK\r\ncontent-type: ");
    reveal_strlit("HTTP/1.1 400 Bad Request\r\ncontent-type: ");
    reveal_strlit("HTTP/1.1 404 Not Found\r\ncontent-type: ");
    assert("HTTP/1.1 "@ + decimal(200) + " "@ + reason(200) + "\r\ncontent-type: "@
        =~= "HTTP/1.1 200 OK\r\ncontent-type: "@);
    assert("HTTP/1.1 "@ + decimal(400) + " "@ + reason(400) + "\r\ncontent-type: "@
        =~= "HTTP/1.1 400 Bad Request\r\ncontent-type: "@);
    assert("HTTP/1.1 "@ + decimal(404) + " "@ + reason(404) + "\r\ncontent-type: "@
        =~= "HTTP/1.1 404 Not Found\r\ncontent-type: "@);
}

// --------------------------------------------------------------- address --

/// The server listens at the first address that tailscale prints, without the
/// white space around it, and nowhere where it prints none; three addresses
/// stand for every interface.
pub proof fn law_tailnet_addresses(
    lead: Seq<char>,
    addr: Seq<char>,
    tail: Seq<char>,
    rest: Seq<char>,
    asked: Seq<char>,
)
    requires
        is_word(addr),
        forall|i: int| 0 <= i < lead.len() ==> is_space(#[trigger] lead[i]) && lead[i] != '\n',
        forall|i: int| 0 <= i < tail.len() ==> is_space(#[trigger] tail[i]) && tail[i] != '\n',
    ensures
        listen_addr(None, Some(encode_utf8((lead + addr + tail).push('\n') + rest))) == Some(addr),
        listen_addr(None, Some(encode_utf8(lead + addr + tail))) == Some(addr),
        listen_addr(None, Some(encode_utf8(lead.push('\n') + rest))) is None,
        listen_addr(None, Some(Seq::<u8>::empty())) is None,
        listen_addr(None, None) is None,
        listen_addr(Some(asked), Some(encode_utf8(addr))) == Some(asked),
        everywhere(asked) <==> asked == "0.0.0.0"@ || asked == "::"@ || asked == "[::]"@,
{
    let none = Seq::<char>::empty();
    let row = lead + addr + tail;
    law_white_space('\n');
    law_white_space('\r');
    assert(!addr.contains('\n')) by {
        if addr.contains('\n') {
            let k = choose|k: int| 0 <= k < addr.len() && addr[k] == '\n';
            assert(!is_space(addr[k]));
        }
    }
    assert(!row.contains('\n')) by {
        if row.contains('\n') {
            let k = choose|k: int| 0 <= k < row.len() && row[k] == '\n';
            if k < lead.len() {
                assert(row[k] == lead[k]);
            } else if k < lead.len() + addr.len() {
                assert(addr.contains(addr[k - lead.len()]));
            } else {
                assert(row[k] == tail[k - lead.len() - addr.len()]);
            }
        }
    }
    assert(!lead.contains('\n'));
    assert(!is_space(addr[addr.len() - 1]));
    assert(!is_space(addr[0]));
    law_lines(row, rest);
    law_lines(lead, rest);
    law_bytes_are_read_as_text(row.push('\n') + rest);
    law_bytes_are_read_as_text(row);
    law_bytes_are_read_as_text(lead.push('\n') + rest);
    law_bytes_are_read_as_text(none);
    assert(encode_utf8(none) =~= Seq::<u8>::empty());
    law_what_trimming_leaves(lead, addr, tail);
    law_what_trimming_leaves(lead, none, none);
    assert(lead + none + none =~= lead);
    if tail.len() > 0 && tail.last() == '\r' {
        let less = tail.drop_last();
        assert forall|i: int| 0 <= i < less.len() implies is_space(#[trigger] less[i]) by {
            assert(less[i] == tail[i]);
        }
        law_what_trimming_leaves(lead, addr, less);
        assert(row.drop_last() =~= lead + addr + less);
    }
    if lead.len() > 0 && lead.last() == '\r' {
        let less = lead.drop_last();
        assert forall|i: int| 0 <= i < less.len() implies is_space(#[trigger] less[i]) by {
            assert(less[i] == lead[i]);
        }
        law_what_trimming_leaves(less, none, none);
        assert(less + none + none =~= less);
    }
    if tail.len() == 0 {
        assert(row.last() == addr.last());
    } else {
        assert(row.last() == tail.last());
    }
}

} // verus!
