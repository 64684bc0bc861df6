//! Text as sequences of characters: what the rest of the library says about
//! strings, and the loops that compute it.
use crate::outside::{lossy_text, lowercase, lowered, read_lossy};
use vstd::prelude::*;
use vstd::utf8::{decode_utf8, valid_utf8};

verus! {

/// `String::push` appends one character.
pub assume_specification[ String::push ](s: &mut String, c: char)
    ensures
        final(s)@ == old(s)@.push(c),
;

/// `String::push_str` appends a string slice.
pub assume_specification[ String::push_str ](s: &mut String, tail: &str)
    ensures
        final(s)@ == old(s)@ + tail@,
;

/// `String::pop` removes the last character and returns it, or returns
/// `None` where there is none.
pub assume_specification[ String::pop ](s: &mut String) -> (last: Option<char>)
    ensures
        old(s)@.len() == 0 ==> last is None && final(s)@ == old(s)@,
        old(s)@.len() > 0 ==> last == Some(old(s)@.last()) && final(s)@ == old(s)@.drop_last(),
;

/// The characters of `s`, one by one.
pub fn chars_of(s: &str) -> (res: Vec<char>)
    ensures
        res@ == s@,
{
    let mut out: Vec<char> = Vec::new();
    for c in it: s.chars()
        invariant
            out@ == it.seq().take(it.index()),
            it.seq() == s@,
    {
        out.push(c);
    }
    out
}

/// The string made of `chars`.
pub fn text_of(chars: &[char]) -> (res: String)
    ensures
        res@ == chars@,
{
    let mut out = String::new();
    let mut i: usize = 0;
    while i < chars.len()
        invariant
            i <= chars@.len(),
            out@ == chars@.take(i as int),
        decreases chars@.len() - i,
    {
        out.push(chars[i]);
        i = i + 1;
        assert(chars@.take(i as int) == chars@.take(i - 1).push(chars@[i - 1]));
    }
    assert(chars@.take(i as int) == chars@);
    out
}

/// Whether two strings hold the same characters.
pub fn same(a: &str, b: &str) -> (res: bool)
    ensures
        res == (a@ == b@),
{
    let x = chars_of(a);
    let y = chars_of(b);
    same_chars(x.as_slice(), y.as_slice())
}

pub fn same_chars(a: &[char], b: &[char]) -> (res: bool)
    ensures
        res == (a@ == b@),
{
    if a.len() != b.len() {
        return false;
    }
    let mut i: usize = 0;
    while i < a.len()
        invariant
            i <= a@.len(),
            a@.len() == b@.len(),
            forall|k: int| 0 <= k < i ==> a@[k] == b@[k],
        decreases a@.len() - i,
    {
        if a[i] != b[i] {
            return false;
        }
        i = i + 1;
    }
    assert(a@ =~= b@);
    true
}

// ---------------------------------------------------------- white space --

/// Unicode's `White_Space` property.
pub open spec fn is_space(c: char) -> bool {
    let u = c as u32;
    ||| 0x09 <= u <= 0x0d
    ||| u == 0x20
    ||| u == 0x85
    ||| u == 0xa0
    ||| u == 0x1680
    ||| 0x2000 <= u <= 0x200a
    ||| u == 0x2028
    ||| u == 0x2029
    ||| u == 0x202f
    ||| u == 0x205f
    ||| u == 0x3000
}

/// Whether `c` separates words.
pub fn white_space(c: char) -> (res: bool)
    ensures
        res == is_space(c),
{
    let u: u32 = c as u32;
    (0x09 <= u && u <= 0x0d) || u == 0x20 || u == 0x85 || u == 0xa0 || u == 0x1680 || (0x2000 <= u
        && u <= 0x200a) || u == 0x2028 || u == 0x2029 || u == 0x202f || u == 0x205f || u == 0x3000
}

/// `s` without the white space it starts with.
pub open spec fn trim_start(s: Seq<char>) -> Seq<char>
    decreases s.len(),
{
    if s.len() > 0 && is_space(s[0]) {
        trim_start(s.drop_first())
    } else {
        s
    }
}

/// `s` without the white space it ends with.
pub open spec fn trim_end(s: Seq<char>) -> Seq<char>
    decreases s.len(),
{
    if s.len() > 0 && is_space(s.last()) {
        trim_end(s.drop_last())
    } else {
        s
    }
}

/// `s` without white space at either end.
pub open spec fn trim(s: Seq<char>) -> Seq<char> {
    trim_end(trim_start(s))
}

/// The text of `s` between its white space at either end.
pub fn trimmed(s: &str) -> (res: String)
    ensures
        res@ == trim(s@),
{
    let v = chars_of(s);
    let a = skip_space(v.as_slice(), 0);
    let b = back_space(v.as_slice(), a);
    proof {
        assert(v@.skip(0) == v@);
        assert(v@.skip(a as int) == v@.subrange(a as int, v@.len() as int));
    }
    text_of(&v[a..b])
}

/// `s` up to the white space it ends with.
pub fn trimmed_end(s: &str) -> (res: String)
    ensures
        res@ == trim_end(s@),
{
    let v = chars_of(s);
    let b = back_space(v.as_slice(), 0);
    assert(v@.skip(0) == v@);
    text_of(&v[0..b])
}

/// Where the first character from `from` on stands that is no white space.
fn skip_space(v: &[char], from: usize) -> (at: usize)
    requires
        from <= v@.len(),
    ensures
        from <= at <= v@.len(),
        trim_start(v@.skip(from as int)) == v@.skip(at as int),
        at < v@.len() ==> !is_space(v@[at as int]),
{
    let mut i: usize = from;
    while i < v.len() && white_space(v[i])
        invariant
            from <= i <= v@.len(),
            trim_start(v@.skip(from as int)) == trim_start(v@.skip(i as int)),
        decreases v@.len() - i,
    {
        proof {
            assert(v@.skip(i as int)[0] == v@[i as int]);
            assert(v@.skip(i as int).drop_first() == v@.skip(i + 1));
        }
        i = i + 1;
    }
    proof {
        if i < v@.len() {
            assert(v@.skip(i as int)[0] == v@[i as int]);
        }
    }
    i
}

/// The end of `v` from `from` on, white space at the end left out.
fn back_space(v: &[char], from: usize) -> (end: usize)
    requires
        from <= v@.len(),
    ensures
        from <= end <= v@.len(),
        trim_end(v@.skip(from as int)) == v@.subrange(from as int, end as int),
{
    let mut i: usize = v.len();
    assert(v@.skip(from as int) == v@.subrange(from as int, i as int));
    while from < i && white_space(v[i - 1])
        invariant
            from <= i <= v@.len(),
            trim_end(v@.skip(from as int)) == trim_end(v@.subrange(from as int, i as int)),
        decreases i,
    {
        proof {
            assert(v@.subrange(from as int, i as int).last() == v@[i - 1]);
            assert(v@.subrange(from as int, i as int).drop_last() == v@.subrange(
                from as int,
                i - 1,
            ));
        }
        i = i - 1;
    }
    proof {
        if from < i {
            assert(v@.subrange(from as int, i as int).last() == v@[i - 1]);
        }
    }
    i
}

// ---------------------------------------------------------------- words --

/// How many characters `s` has before its first white space.
pub open spec fn word_len(s: Seq<char>) -> int
    decreases s.len(),
{
    if s.len() == 0 || is_space(s[0]) {
        0
    } else {
        1 + word_len(s.drop_first())
    }
}

/// The runs of characters in `s` that white space parts.
pub open spec fn words(s: Seq<char>) -> Seq<Seq<char>>
    decreases s.len(),
    via words_shrink
{
    let t = trim_start(s);
    if t.len() == 0 {
        seq![]
    } else {
        seq![t.take(word_len(t))] + words(t.skip(word_len(t)))
    }
}

#[via_fn]
proof fn words_shrink(s: Seq<char>) {
    lemma_trim_start_len(s);
    let t = trim_start(s);
    if t.len() > 0 {
        lemma_trim_start_stops(s);
        lemma_word_len(t);
        assert(word_len(t) == 1 + word_len(t.drop_first()));
        lemma_word_len(t.drop_first());
    }
}

proof fn lemma_trim_start_len(s: Seq<char>)
    ensures
        trim_start(s).len() <= s.len(),
    decreases s.len(),
{
    if s.len() > 0 && is_space(s[0]) {
        lemma_trim_start_len(s.drop_first());
    }
}

proof fn lemma_trim_start_stops(s: Seq<char>)
    ensures
        trim_start(s).len() > 0 ==> !is_space(trim_start(s)[0]),
    decreases s.len(),
{
    if s.len() > 0 && is_space(s[0]) {
        lemma_trim_start_stops(s.drop_first());
    }
}

proof fn lemma_word_len(s: Seq<char>)
    ensures
        0 <= word_len(s) <= s.len(),
    decreases s.len(),
{
    if s.len() > 0 && !is_space(s[0]) {
        lemma_word_len(s.drop_first());
    }
}

/// The end of the word that starts at `from`.
fn word_end(v: &[char], from: usize) -> (end: usize)
    requires
        from <= v@.len(),
    ensures
        from <= end <= v@.len(),
        end - from == word_len(v@.skip(from as int)),
{
    let mut i: usize = from;
    while i < v.len() && !white_space(v[i])
        invariant
            from <= i <= v@.len(),
            word_len(v@.skip(from as int)) == (i - from) + word_len(v@.skip(i as int)),
        decreases v@.len() - i,
    {
        proof {
            assert(v@.skip(i as int)[0] == v@[i as int]);
            assert(v@.skip(i as int).drop_first() == v@.skip(i + 1));
        }
        i = i + 1;
    }
    proof {
        if i < v@.len() {
            assert(v@.skip(i as int)[0] == v@[i as int]);
        }
    }
    i
}

/// What the strings of `v` hold.
pub open spec fn texts(v: Seq<String>) -> Seq<Seq<char>> {
    v.map_values(|s: String| s@)
}

/// Pushing a string onto a list pushes its text onto the list of texts.
pub proof fn lemma_texts_push(v: Seq<String>, s: String)
    ensures
        texts(v.push(s)) == texts(v).push(s@),
{
    assert(texts(v.push(s)) =~= texts(v).push(s@));
}

/// The words of `s`.
pub fn words_of(s: &str) -> (res: Vec<String>)
    ensures
        texts(res@) == words(s@),
{
    let v = chars_of(s);
    let mut out: Vec<String> = Vec::new();
    let mut i: usize = 0;
    proof {
        assert(v@.skip(0) == v@);
        assert(texts(out@) + words(v@) =~= words(v@));
    }
    while i < v.len()
        invariant
            i <= v@.len(),
            v@ == s@,
            words(s@) == texts(out@) + words(v@.skip(i as int)),
        decreases v@.len() - i,
    {
        let a = skip_space(v.as_slice(), i);
        let ghost rest = v@.skip(i as int);
        proof {
            lemma_trim_start_len(rest);
        }
        if a < v.len() {
            let b = word_end(v.as_slice(), a);
            let w = text_of(&v[a..b]);
            proof {
                let t = v@.skip(a as int);
                assert(t[0] == v@[a as int]);
                lemma_word_len(t);
                lemma_word_len(t.drop_first());
                assert(t.take(b - a) =~= v@.subrange(a as int, b as int));
                assert(t.skip(b - a) =~= v@.skip(b as int));
                lemma_texts_push(out@, w);
                assert(texts(out@) + (seq![w@] + words(v@.skip(b as int))) =~= texts(out@).push(w@)
                    + words(v@.skip(b as int)));
            }
            out.push(w);
            i = b;
        } else {
            proof {
                assert(words(rest) =~= seq![]);
                assert(v@.skip(v@.len() as int) =~= seq![]);
                assert(words(v@.skip(v@.len() as int)) =~= seq![]);
            }
            i = v.len();
        }
    }
    proof {
        assert(v@.skip(i as int) =~= seq![]);
        assert(words(v@.skip(i as int)) =~= seq![]);
        assert(words(s@) =~= texts(out@));
    }
    out
}

// ---------------------------------------------------------------- lines --

/// Where `c` first stands in `s`, or the length of `s`.
pub open spec fn index_of_char(s: Seq<char>, c: char) -> int
    decreases s.len(),
{
    if s.len() == 0 || s[0] == c {
        0
    } else {
        1 + index_of_char(s.drop_first(), c)
    }
}

/// What is known of the place of the first `c`.
pub proof fn lemma_index_of_char(s: Seq<char>, c: char)
    ensures
        0 <= index_of_char(s, c) <= s.len(),
        index_of_char(s, c) < s.len() ==> s[index_of_char(s, c)] == c,
        forall|k: int| 0 <= k < index_of_char(s, c) ==> s[k] != c,
    decreases s.len(),
{
    if s.len() > 0 && s[0] != c {
        let t = s.drop_first();
        lemma_index_of_char(t, c);
        assert forall|k: int| 0 <= k < index_of_char(s, c) implies s[k] != c by {
            if k > 0 {
                assert(t[k - 1] == s[k]);
            }
        }
    }
}

/// A place with that property is the place of the first `c`.
pub proof fn lemma_index_of_char_is(s: Seq<char>, c: char, at: int)
    requires
        0 <= at <= s.len(),
        at < s.len() ==> s[at] == c,
        forall|k: int| 0 <= k < at ==> s[k] != c,
    ensures
        index_of_char(s, c) == at,
{
    lemma_index_of_char(s, c);
    let j = index_of_char(s, c);
    if j < at {
        assert(s[j] == c);
    } else if at < j {
        assert(s[at] == c);
    }
}

/// Where `c` first stands in `v` from `from` on.
pub fn find_char(v: &[char], from: usize, c: char) -> (at: usize)
    requires
        from <= v@.len(),
    ensures
        from <= at <= v@.len(),
        at - from == index_of_char(v@.skip(from as int), c),
{
    let mut i: usize = from;
    while i < v.len() && v[i] != c
        invariant
            from <= i <= v@.len(),
            forall|k: int| from <= k < i ==> v@[k] != c,
        decreases v@.len() - i,
    {
        i = i + 1;
    }
    proof {
        lemma_index_of_char_is(v@.skip(from as int), c, i - from);
    }
    i
}

/// `s` without the carriage return it may end with.
pub open spec fn drop_cr(s: Seq<char>) -> Seq<char> {
    if s.len() > 0 && s.last() == '\r' {
        s.drop_last()
    } else {
        s
    }
}

/// The lines of `s`: a line ends at `\n` or `\r\n`, which is not part of it,
/// and the end of the last line may be missing.
pub open spec fn lines(s: Seq<char>) -> Seq<Seq<char>>
    decreases s.len(),
    via lines_shrink
{
    let n = index_of_char(s, '\n');
    if s.len() == 0 {
        seq![]
    } else if n == s.len() {
        seq![s]
    } else {
        seq![drop_cr(s.take(n))] + lines(s.skip(n + 1))
    }
}

#[via_fn]
proof fn lines_shrink(s: Seq<char>) {
    lemma_index_of_char(s, '\n');
}

/// The lines of `s`.
pub fn lines_of(s: &str) -> (res: Vec<String>)
    ensures
        texts(res@) == lines(s@),
{
    let v = chars_of(s);
    let mut out: Vec<String> = Vec::new();
    let mut i: usize = 0;
    proof {
        assert(v@.skip(0) == v@);
        assert(texts(out@) + lines(v@) =~= lines(v@));
    }
    while i < v.len()
        invariant
            i <= v@.len(),
            v@ == s@,
            lines(s@) == texts(out@) + lines(v@.skip(i as int)),
        decreases v@.len() - i,
    {
        let n = find_char(v.as_slice(), i, '\n');
        let ghost rest = v@.skip(i as int);
        proof {
            lemma_index_of_char(rest, '\n');
        }
        if n < v.len() {
            let end: usize = if i < n && v[n - 1] == '\r' {
                n - 1
            } else {
                n
            };
            let line = text_of(&v[i..end]);
            proof {
                let t = rest.take(n - i);
                assert(t =~= v@.subrange(i as int, n as int));
                if i < n {
                    assert(t.last() == v@[n - 1]);
                    assert(t.drop_last() =~= v@.subrange(i as int, n - 1));
                }
                assert(line@ == drop_cr(t));
                assert(rest.skip(n - i + 1) =~= v@.skip(n + 1));
                lemma_texts_push(out@, line);
                assert(texts(out@) + (seq![line@] + lines(v@.skip(n + 1))) =~= texts(out@).push(
                    line@,
                ) + lines(v@.skip(n + 1)));
            }
            out.push(line);
            i = n + 1;
        } else {
            let line = text_of(&v[i..n]);
            proof {
                assert(rest =~= v@.subrange(i as int, n as int));
                assert(v@.skip(n as int) =~= seq![]);
                assert(lines(v@.skip(n as int)) =~= seq![]);
                lemma_texts_push(out@, line);
                assert(texts(out@) + seq![line@] =~= texts(out@).push(line@) + lines(
                    v@.skip(n as int),
                ));
            }
            out.push(line);
            i = n;
        }
    }
    proof {
        assert(v@.skip(i as int) =~= seq![]);
        assert(lines(v@.skip(i as int)) =~= seq![]);
        assert(lines(s@) =~= texts(out@));
    }
    out
}

// --------------------------------------------------------------- search --

/// Whether `needle` stands in `hay` from `at` on.
pub open spec fn stands_at(hay: Seq<char>, needle: Seq<char>, at: int) -> bool {
    0 <= at && at + needle.len() <= hay.len() && hay.subrange(at, at + needle.len()) == needle
}

/// Whether `needle` stands somewhere in `hay`.
pub open spec fn contains(hay: Seq<char>, needle: Seq<char>) -> bool {
    exists|at: int| stands_at(hay, needle, at)
}

/// Whether `hay` starts with `head`.
pub open spec fn starts_with(hay: Seq<char>, head: Seq<char>) -> bool {
    head.len() <= hay.len() && hay.take(head.len() as int) == head
}

fn matches_at(hay: &[char], needle: &[char], at: usize) -> (res: bool)
    requires
        at + needle@.len() <= hay@.len(),
    ensures
        res == stands_at(hay@, needle@, at as int),
{
    let size: usize = hay.len();
    let mut k: usize = 0;
    while k < needle.len()
        invariant
            k <= needle@.len(),
            size == hay@.len(),
            at + needle@.len() <= size,
            forall|m: int| 0 <= m < k ==> hay@[at + m] == needle@[m],
        decreases needle@.len() - k,
    {
        if hay[at + k] != needle[k] {
            assert(hay@.subrange(at as int, at + needle@.len())[k as int] != needle@[k as int]);
            return false;
        }
        k = k + 1;
    }
    assert(hay@.subrange(at as int, at + needle@.len()) =~= needle@);
    true
}

/// Whether `needle` occurs in `hay`.
pub fn has_text(hay: &str, needle: &str) -> (res: bool)
    ensures
        res == contains(hay@, needle@),
{
    let h = chars_of(hay);
    let n = chars_of(needle);
    if n.len() > h.len() {
        return false;
    }
    let last: usize = h.len() - n.len();
    let mut at: usize = 0;
    loop
        invariant
            at <= last,
            last == h@.len() - n@.len(),
            h@ == hay@,
            n@ == needle@,
            forall|k: int| 0 <= k < at ==> !stands_at(h@, n@, k),
        decreases last - at,
    {
        if matches_at(h.as_slice(), n.as_slice(), at) {
            return true;
        }
        if at == last {
            assert forall|k: int| !stands_at(hay@, needle@, k) by {
                if 0 <= k <= last {
                    assert(!stands_at(h@, n@, k));
                }
            }
            return false;
        }
        at = at + 1;
    }
}

/// What follows `head` in `s`, where `s` starts with it.
pub fn after_prefix(s: &str, head: &str) -> (res: Option<String>)
    ensures
        res is Some <==> starts_with(s@, head@),
        res matches Some(rest) ==> rest@ == s@.skip(head@.len() as int),
{
    let v = chars_of(s);
    let h = chars_of(head);
    if h.len() <= v.len() && matches_at(v.as_slice(), h.as_slice(), 0) {
        proof {
            assert(v@.take(h@.len() as int) =~= v@.subrange(0, h@.len() as int));
            assert(v@.skip(h@.len() as int) =~= v@.subrange(h@.len() as int, v@.len() as int));
        }
        Some(text_of(&v[h.len()..v.len()]))
    } else {
        proof {
            if h@.len() <= v@.len() {
                assert(v@.take(h@.len() as int) =~= v@.subrange(0, h@.len() as int));
            }
        }
        None
    }
}

/// The part of `s` before the first `c`, all of `s` where there is none.
pub open spec fn before_char(s: Seq<char>, c: char) -> Seq<char> {
    s.take(index_of_char(s, c))
}

/// The part of `s` after the first `c`.
pub open spec fn after_char(s: Seq<char>, c: char) -> Seq<char> {
    s.skip(index_of_char(s, c) + 1)
}

/// The part of `s` before the first `c`, or all of it.
pub fn head_before(s: &str, c: char) -> (res: String)
    ensures
        res@ == before_char(s@, c),
{
    let v = chars_of(s);
    let n = find_char(v.as_slice(), 0, c);
    proof {
        assert(v@.skip(0) == v@);
        assert(v@.take(n as int) =~= v@.subrange(0, n as int));
    }
    text_of(&v[0..n])
}

/// The parts of `s` before and after the first `c`, where there is one.
pub fn split_once(s: &str, c: char) -> (res: Option<(String, String)>)
    ensures
        res is Some <==> s@.contains(c),
        res matches Some(parts) ==> parts.0@ == before_char(s@, c) && parts.1@ == after_char(
            s@,
            c,
        ),
{
    let v = chars_of(s);
    let n = find_char(v.as_slice(), 0, c);
    proof {
        assert(v@.skip(0) == v@);
        lemma_index_of_char(v@, c);
    }
    if n < v.len() {
        proof {
            assert(v@[n as int] == c);
            assert(v@.take(n as int) =~= v@.subrange(0, n as int));
            assert(v@.skip(n + 1) =~= v@.subrange(n + 1, v@.len() as int));
        }
        Some((text_of(&v[0..n]), text_of(&v[n + 1..v.len()])))
    } else {
        None
    }
}

/// The parts of `s` that `c` separates; there is always at least one.
pub open spec fn split(s: Seq<char>, c: char) -> Seq<Seq<char>>
    decreases s.len(),
    via split_shrinks
{
    let n = index_of_char(s, c);
    if n == s.len() {
        seq![s]
    } else {
        seq![s.take(n)] + split(s.skip(n + 1), c)
    }
}

#[via_fn]
proof fn split_shrinks(s: Seq<char>, c: char) {
    lemma_index_of_char(s, c);
}

/// The parts of `s` between its `c`s.
pub fn split_of(s: &str, c: char) -> (res: Vec<String>)
    ensures
        texts(res@) == split(s@, c),
{
    let v = chars_of(s);
    let mut out: Vec<String> = Vec::new();
    let mut i: usize = 0;
    proof {
        assert(v@.skip(0) == v@);
        assert(texts(out@) + split(v@, c) =~= split(v@, c));
    }
    loop
        invariant
            i <= v@.len(),
            v@ == s@,
            split(s@, c) == texts(out@) + split(v@.skip(i as int), c),
        decreases v@.len() - i,
    {
        let n = find_char(v.as_slice(), i, c);
        let ghost rest = v@.skip(i as int);
        let part = text_of(&v[i..n]);
        proof {
            lemma_texts_push(out@, part);
            assert(rest.take(n - i) =~= v@.subrange(i as int, n as int));
        }
        if n == v.len() {
            proof {
                assert(rest =~= part@);
                assert(texts(out@) + seq![part@] =~= texts(out@).push(part@));
            }
            out.push(part);
            return out;
        }
        proof {
            assert(rest.skip(n - i + 1) =~= v@.skip(n + 1));
            assert(texts(out@) + (seq![part@] + split(v@.skip(n + 1), c)) =~= texts(out@).push(part@)
                + split(v@.skip(n + 1), c));
        }
        out.push(part);
        i = n + 1;
    }
}

// ----------------------------------------------------------- conversion --

/// `A` to `Z` become `a` to `z`; every other character stays.
pub open spec fn ascii_lower(c: char) -> char {
    if 'A' <= c <= 'Z' {
        ((c as u32) + 32) as char
    } else {
        c
    }
}

fn lower_char(c: char) -> (res: char)
    ensures
        res == ascii_lower(c),
{
    let u: u32 = c as u32;
    if 0x41 <= u && u <= 0x5a {
        let b: u8 = (u + 32) as u8;
        b as char
    } else {
        c
    }
}

/// `s` with its ASCII letters in lower case.
pub fn ascii_lowered(s: &str) -> (res: String)
    ensures
        res@ == s@.map_values(|c: char| ascii_lower(c)),
{
    let v = chars_of(s);
    let mut out = String::new();
    let mut i: usize = 0;
    while i < v.len()
        invariant
            i <= v@.len(),
            out@ == v@.take(i as int).map_values(|c: char| ascii_lower(c)),
        decreases v@.len() - i,
    {
        out.push(lower_char(v[i]));
        i = i + 1;
        assert(v@.take(i as int).map_values(|c: char| ascii_lower(c)) =~= v@.take(
            i - 1,
        ).map_values(|c: char| ascii_lower(c)).push(ascii_lower(v@[i - 1])));
    }
    assert(v@.take(i as int) =~= v@);
    out
}

/// Whether every character of `s` is one of ASCII's.
pub open spec fn all_ascii(s: Seq<char>) -> bool {
    forall|k: int| 0 <= k < s.len() ==> (#[trigger] s[k] as u32) < 128
}

/// `s` in lower case: letter by letter for ASCII, by the rules of Unicode for
/// any other text.
pub open spec fn folded(s: Seq<char>) -> Seq<char> {
    if all_ascii(s) {
        s.map_values(|c: char| ascii_lower(c))
    } else {
        lowercase(s)
    }
}

/// `s` in lower case.
pub fn fold_case(s: &str) -> (res: String)
    ensures
        res@ == folded(s@),
{
    lowered(s)
}

/// `bytes` as text: read as UTF-8, with replacement characters for what is not
/// valid.
pub open spec fn text_in(bytes: Seq<u8>) -> Seq<char> {
    if valid_utf8(bytes) {
        decode_utf8(bytes)
    } else {
        lossy_text(bytes)
    }
}

/// `bytes` as text.
pub fn read_text(bytes: &[u8]) -> (res: String)
    ensures
        res@ == text_in(bytes@),
{
    read_lossy(bytes)
}

/// The digit that stands for `d`.
pub open spec fn digit(d: int) -> char {
    (d + 48) as char
}

/// `n` in decimal, without leading zeros.
pub open spec fn decimal(n: nat) -> Seq<char>
    decreases n,
{
    if n < 10 {
        seq![digit(n as int)]
    } else {
        decimal(n / 10).push(digit((n % 10) as int))
    }
}

/// `n` in decimal, with zeros in front up to `width` digits.
pub open spec fn padded(n: nat, width: nat) -> Seq<char> {
    let d = decimal(n);
    if d.len() >= width {
        d
    } else {
        Seq::new((width - d.len()) as nat, |i: int| '0') + d
    }
}

/// Appends `n` in decimal.
pub fn push_decimal(out: &mut String, n: u64)
    ensures
        final(out)@ == old(out)@ + decimal(n as nat),
    decreases n,
{
    if n >= 10 {
        push_decimal(out, n / 10);
    }
    let d: u8 = (n % 10) as u8;
    out.push((48u8 + d) as char);
    proof {
        assert(old(out)@ + decimal(n as nat) =~= out@);
    }
}

/// `n` in decimal.
pub fn decimal_of(n: u64) -> (res: String)
    ensures
        res@ == decimal(n as nat),
{
    let mut out = String::new();
    push_decimal(&mut out, n);
    assert(out@ =~= decimal(n as nat));
    out
}

/// `n` in decimal, with its sign where it is negative.
pub open spec fn signed_decimal(n: int) -> Seq<char> {
    if n < 0 {
        "-"@ + decimal((-n) as nat)
    } else {
        decimal(n as nat)
    }
}

/// Appends `n` in decimal, with its sign where it is negative.
pub fn push_signed(out: &mut String, n: i32)
    ensures
        final(out)@ == old(out)@ + signed_decimal(n as int),
{
    if n < 0 {
        out.push_str("-");
        push_decimal(out, (-(n as i64)) as u64);
    } else {
        push_decimal(out, n as u64);
    }
    assert(out@ =~= old(out)@ + signed_decimal(n as int));
}

} // verus!
