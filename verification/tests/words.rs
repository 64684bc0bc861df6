//! Text, figures, order and JSON, held against what std does.
use otterm::json::{parse, Json};
use otterm::order::{less, sorted};
use otterm::store::RunMeta;
use otterm::text::{
    after_prefix, ascii_lowered, decimal_of, has_text, head_before, lines_of, same, split_of,
    split_once, trimmed, trimmed_end, white_space, words_of,
};

const SAMPLES: [&str; 14] = [
    "",
    " ",
    "a",
    "  a b ",
    "\u{a0}x\u{2003}y\u{3000}",
    "one\ntwo\r\nthree\r\r\n\n",
    "\n",
    "\r",
    "k: v: w",
    ":",
    "a=1,b=2,,",
    "Grüße ŁÓDŹ ΣΑΣ",
    "tab\tand\u{b}vt\u{c}ff\u{85}nel",
    "ASCII only, 0-9 @[`{",
];

#[test]
fn white_space_is_unicode_white_space() {
    for u in 0..=0x10_ffffu32 {
        if let Some(c) = char::from_u32(u) {
            assert_eq!(white_space(c), c.is_whitespace(), "{u:x}");
        }
    }
}

#[test]
fn text_is_cut_as_std_cuts_it() {
    for s in SAMPLES {
        assert_eq!(trimmed(s), s.trim());
        assert_eq!(trimmed_end(s), s.trim_end());
        assert_eq!(words_of(s), s.split_whitespace().collect::<Vec<_>>());
        assert_eq!(lines_of(s), s.lines().collect::<Vec<_>>());
        assert_eq!(ascii_lowered(s), s.to_ascii_lowercase());
        for c in [',', ':', '\n', 'Ł'] {
            assert_eq!(split_of(s, c), s.split(c).collect::<Vec<_>>());
            assert_eq!(
                split_once(s, c),
                s.split_once(c).map(|(a, b)| (a.to_owned(), b.to_owned()))
            );
            assert_eq!(head_before(s, c), s.split(c).next().unwrap());
        }
        for t in SAMPLES {
            assert_eq!(same(s, t), s == t);
            assert_eq!(has_text(s, t), s.contains(t));
            assert_eq!(after_prefix(s, t), s.strip_prefix(t).map(str::to_owned));
            assert_eq!(less(s, t), s < t);
        }
    }
}

#[test]
fn numbers_are_written_in_decimal() {
    for n in [0, 7, 10, 99, 100, 12_345, u64::MAX] {
        assert_eq!(decimal_of(n), n.to_string());
    }
}

#[test]
fn sorting_keeps_the_order_of_equals() {
    let run = |id: &str, started_ms: u64| RunMeta {
        id: id.into(),
        cmd: vec![],
        cwd: String::new(),
        started_ms,
        duration_ms: 0,
        exit_code: None,
        bytes: 0,
        done: true,
        pid: None,
    };
    let runs = vec![run("a", 1), run("b", 3), run("c", 1), run("d", 2), run("e", 3)];
    let mut expect: Vec<(u64, String)> =
        runs.iter().map(|m| (m.started_ms, m.id.clone())).collect();
    expect.sort_by_key(|p| std::cmp::Reverse(p.0));
    let got: Vec<(u64, String)> = sorted(runs).into_iter().map(|m| (m.started_ms, m.id)).collect();
    assert_eq!(got, expect);
    let ids: Vec<&str> = got.iter().map(|p| p.1.as_str()).collect();
    assert_eq!(ids, ["b", "e", "d", "a", "c"]);
}

#[test]
fn documents_are_read() {
    let doc = parse(br#"{"b": true, "a": ["x", 1], "s": "text", "n": null, "e": []}"#).unwrap();
    assert_eq!(doc.text("s"), "text");
    assert_eq!(doc.text("a"), "");
    assert_eq!(doc.text("missing"), "");
    assert_eq!(doc.first_text("a"), "x");
    assert_eq!(doc.first_text("e"), "");
    assert_eq!(doc.first_text("s"), "");
    assert!(doc.flag("b") && !doc.flag("s") && !doc.flag("missing"));
    assert!(matches!(doc.member("n"), Some(Json::Null)));
    assert!(doc.member("zzz").is_none());
    assert!(parse(b"[1]").unwrap().member("a").is_none());
    assert!(parse(b"").is_err());
    assert!(parse(b"{\"a\": 1} x").is_err());
}
