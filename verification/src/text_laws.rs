//! What holds of texts and figures: where a text occurs in another, how texts
//! are parted and put together, and how numbers are written.
use crate::figures::{as_double, half_even, spare_bits, tenths};
use crate::order::text_less;
use crate::outside::lowercase;
use crate::text::{
    after_char, before_char, contains, decimal, folded, is_space, lemma_index_of_char_is, lines,
    padded, signed_decimal, split, stands_at, starts_with, text_in, trim, trim_end, trim_start,
    word_len, words,
};
use vstd::arithmetic::div_mod::lemma_fundamental_div_mod;
use vstd::arithmetic::power2::{lemma2_to64, lemma_pow2_pos, lemma_pow2_unfold, pow2};
use vstd::prelude::*;
use vstd::utf8::{char_is_scalar, char_u32_cast, encode_utf8};

verus! {

// --------------------------------------------------------------- search --

/// Whether `hay` can be cut into three with `needle` in the middle.
pub open spec fn occurs(needle: Seq<char>, hay: Seq<char>) -> bool {
    exists|a: Seq<char>, b: Seq<char>| hay == #[trigger] (a + needle + b)
}

/// A text occurs in another wherever that can be cut into three with the text
/// in the middle: at its start, at its end, or inside a word.
pub proof fn law_texts_are_found(hay: Seq<char>, needle: Seq<char>)
    ensures
        contains(hay, needle) <==> occurs(needle, hay),
        forall|at: int| #[trigger]
            stands_at(hay, needle, at) <==> 0 <= at <= hay.len() - needle.len() && forall|k: int|
                0 <= k < needle.len() ==> hay[at + k] == #[trigger] needle[k],
{
    assert forall|at: int| #[trigger]
        stands_at(hay, needle, at) <==> 0 <= at <= hay.len() - needle.len() && forall|k: int|
            0 <= k < needle.len() ==> hay[at + k] == #[trigger] needle[k] by {
        if stands_at(hay, needle, at) {
            assert forall|k: int| 0 <= k < needle.len() implies hay[at + k]
                == #[trigger] needle[k] by {
                assert(hay.subrange(at, at + needle.len())[k] == needle[k]);
            }
        }
        if 0 <= at <= hay.len() - needle.len() && forall|k: int|
            0 <= k < needle.len() ==> hay[at + k] == #[trigger] needle[k] {
            assert(hay.subrange(at, at + needle.len()) =~= needle);
        }
    }
    if contains(hay, needle) {
        let at = choose|at: int| stands_at(hay, needle, at);
        let a = hay.take(at);
        let b = hay.skip(at + needle.len());
        assert(hay =~= a + needle + b);
    }
    if occurs(needle, hay) {
        let (a, b) = choose|a: Seq<char>, b: Seq<char>| hay == #[trigger] (a + needle + b);
        assert(hay.subrange(a.len() as int, (a.len() + needle.len()) as int) =~= needle);
        assert(stands_at(hay, needle, a.len() as int));
    }
}

/// A text starts with another where that and something more make it up.
pub proof fn law_texts_start(hay: Seq<char>, head: Seq<char>)
    ensures
        starts_with(hay, head) <==> exists|tail: Seq<char>| hay == #[trigger] (head + tail),
        forall|tail: Seq<char>|
            hay == #[trigger] (head + tail) ==> hay.skip(head.len() as int) == tail,
{
    if starts_with(hay, head) {
        assert(hay =~= head + hay.skip(head.len() as int));
    }
    assert forall|tail: Seq<char>| hay == #[trigger] (head + tail) implies hay.skip(
        head.len() as int,
    ) == tail && starts_with(hay, head) by {
        assert((head + tail).skip(head.len() as int) =~= tail);
        assert((head + tail).take(head.len() as int) =~= head);
    }
}

// ----------------------------------------------------------------- case --

/// Folding a text of ASCII puts its letters, and nothing else, in lower case;
/// any other text is folded by the rules of Unicode.
pub proof fn law_folding(s: Seq<char>)
    ensures
        (forall|k: int| 0 <= k < s.len() ==> (#[trigger] s[k] as u32) < 128) ==> {
            &&& folded(s).len() == s.len()
            &&& forall|k: int|
                0 <= k < s.len() ==> #[trigger] folded(s)[k] as int == if 65 <= s[k] as int <= 90 {
                    s[k] as int + 32
                } else {
                    s[k] as int
                }
        },
        (exists|k: int| 0 <= k < s.len() && (#[trigger] s[k] as u32) >= 128) ==> folded(s)
            == lowercase(s),
{
}

/// Folding a text of ASCII once more changes nothing.
pub proof fn law_folding_settles(s: Seq<char>)
    requires
        forall|k: int| 0 <= k < s.len() ==> (#[trigger] s[k] as u32) < 128,
    ensures
        folded(folded(s)) == folded(s),
{
    law_folding(s);
    let t = folded(s);
    assert forall|k: int| 0 <= k < t.len() implies (#[trigger] t[k] as u32) < 128 by {
        char_is_scalar(s[k]);
        char_is_scalar(t[k]);
        assert((s[k] as u32) < 128);
    }
    law_folding(t);
    assert(folded(t) =~= t);
}

// ---------------------------------------------------------- white space --

/// White space is what Unicode says it is.
pub proof fn law_white_space(c: char)
    ensures
        is_space(c) <==> {
            ||| c == '\t' || c == '\n' || c == '\u{b}' || c == '\u{c}' || c == '\r' || c == ' '
            ||| c == '\u{85}' || c == '\u{a0}' || c == '\u{1680}'
            ||| '\u{2000}' <= c <= '\u{200a}'
            ||| c == '\u{2028}' || c == '\u{2029}' || c == '\u{202f}' || c == '\u{205f}'
            ||| c == '\u{3000}'
        },
{
    char_is_scalar(c);
    char_u32_cast(c, c as u32);
}

proof fn lemma_trim_start(s: Seq<char>) -> (n: int)
    ensures
        0 <= n <= s.len(),
        trim_start(s) == s.skip(n),
        forall|k: int| 0 <= k < n ==> is_space(#[trigger] s[k]),
        n < s.len() ==> !is_space(s[n]),
    decreases s.len(),
{
    if s.len() > 0 && is_space(s[0]) {
        let t = s.drop_first();
        let m = lemma_trim_start(t);
        assert(t.skip(m) =~= s.skip(m + 1));
        assert forall|k: int| 0 <= k < m + 1 implies is_space(#[trigger] s[k]) by {
            if k > 0 {
                assert(t[k - 1] == s[k]);
            }
        }
        m + 1
    } else {
        assert(s.skip(0) =~= s);
        0
    }
}

proof fn lemma_trim_end(s: Seq<char>) -> (n: int)
    ensures
        0 <= n <= s.len(),
        trim_end(s) == s.take(n),
        forall|k: int| n <= k < s.len() ==> is_space(#[trigger] s[k]),
        n > 0 ==> !is_space(s[n - 1]),
    decreases s.len(),
{
    if s.len() > 0 && is_space(s.last()) {
        let t = s.drop_last();
        let m = lemma_trim_end(t);
        assert(t.take(m) =~= s.take(m));
        assert forall|k: int| m <= k < s.len() implies is_space(#[trigger] s[k]) by {
            if k < t.len() {
                assert(t[k] == s[k]);
            }
        }
        m
    } else {
        assert(s.take(s.len() as int) =~= s);
        s.len() as int
    }
}

/// Trimming takes white space from the ends and nothing else: what is left
/// neither starts nor ends with any.
pub proof fn law_trimming(s: Seq<char>)
    ensures
        exists|a: Seq<char>, b: Seq<char>|
            {
                &&& s == #[trigger] (a + trim(s) + b)
                &&& forall|k: int| 0 <= k < a.len() ==> is_space(#[trigger] a[k])
                &&& forall|k: int| 0 <= k < b.len() ==> is_space(#[trigger] b[k])
            },
        trim(s).len() > 0 ==> !is_space(trim(s)[0]) && !is_space(trim(s).last()),
{
    let n = lemma_trim_start(s);
    let t = s.skip(n);
    let m = lemma_trim_end(t);
    let a = s.take(n);
    let b = t.skip(m);
    assert(s =~= a + trim(s) + b);
    assert forall|k: int| 0 <= k < a.len() implies is_space(#[trigger] a[k]) by {
        assert(a[k] == s[k]);
    }
    assert forall|k: int| 0 <= k < b.len() implies is_space(#[trigger] b[k]) by {
        assert(b[k] == t[m + k]);
    }
}

/// A text between white space is what trimming leaves, where it neither
/// starts nor ends with any.
pub proof fn law_what_trimming_leaves(lead: Seq<char>, mid: Seq<char>, tail: Seq<char>)
    requires
        forall|i: int| 0 <= i < lead.len() ==> is_space(#[trigger] lead[i]),
        forall|i: int| 0 <= i < tail.len() ==> is_space(#[trigger] tail[i]),
        mid.len() > 0 ==> !is_space(mid[0]) && !is_space(mid.last()),
    ensures
        trim(lead + mid + tail) == mid,
{
    let s = lead + mid + tail;
    let t = trim(s);
    law_trimming(s);
    let (a, b) = choose|a: Seq<char>, b: Seq<char>|
        {
            &&& s == #[trigger] (a + t + b)
            &&& forall|k: int| 0 <= k < a.len() ==> is_space(#[trigger] a[k])
            &&& forall|k: int| 0 <= k < b.len() ==> is_space(#[trigger] b[k])
        };
    let n = s.len() as int;
    let m = lead.len() as int;
    let e = n - tail.len();
    if t.len() > 0 {
        let (x, y) = (a.len() as int, n - b.len() - 1);
        assert(s[x] == t[0] && s[y] == t.last());
        assert(m <= x < e && m <= y < e) by {
            assert(x < m ==> s[x] == lead[x]);
            assert(x >= e ==> s[x] == tail[x - e]);
            assert(y < m ==> s[y] == lead[y]);
            assert(y >= e ==> s[y] == tail[y - e]);
        }
        assert(mid.len() > 0);
    }
    if mid.len() > 0 {
        assert(s[m] == mid[0] && s[e - 1] == mid.last());
        assert(a.len() <= m && e <= n - b.len()) by {
            assert(m < a.len() ==> s[m] == a[m]);
            assert(e > n - b.len() ==> s[e - 1] == b[e - 1 - (n - b.len())]);
        }
        assert(t.len() > 0);
        assert(t =~= s.subrange(m, e));
        assert(mid =~= s.subrange(m, e));
    } else {
        assert(t =~= mid);
    }
}

/// Trimming the end alone takes white space from there, and all of it.
pub proof fn law_trimming_the_end(s: Seq<char>)
    ensures
        exists|b: Seq<char>|
            {
                &&& s == #[trigger] (trim_end(s) + b)
                &&& forall|k: int| 0 <= k < b.len() ==> is_space(#[trigger] b[k])
            },
        trim_end(s).len() > 0 ==> !is_space(trim_end(s).last()),
{
    let m = lemma_trim_end(s);
    let b = s.skip(m);
    assert(s =~= trim_end(s) + b);
    assert forall|k: int| 0 <= k < b.len() implies is_space(#[trigger] b[k]) by {
        assert(b[k] == s[m + k]);
    }
}

/// What has no white space at its ends is left alone by trimming.
pub proof fn law_trimmed_texts_stay(s: Seq<char>)
    requires
        s.len() > 0,
        !is_space(s[0]),
        !is_space(s.last()),
    ensures
        trim(s) == s,
{
}

// ---------------------------------------------------------------- words --

proof fn lemma_word_len_is(s: Seq<char>, n: int)
    requires
        0 <= n <= s.len(),
        n < s.len() ==> is_space(s[n]),
        forall|k: int| 0 <= k < n ==> !is_space(#[trigger] s[k]),
    ensures
        word_len(s) == n,
    decreases s.len(),
{
    if n > 0 {
        let t = s.drop_first();
        assert(!is_space(s[0]));
        assert forall|k: int| 0 <= k < n - 1 implies !is_space(#[trigger] t[k]) by {
            assert(t[k] == s[k + 1]);
        }
        lemma_word_len_is(t, n - 1);
    }
}

proof fn lemma_word_len(s: Seq<char>)
    ensures
        0 <= word_len(s) <= s.len(),
        word_len(s) < s.len() ==> is_space(s[word_len(s)]),
        forall|k: int| 0 <= k < word_len(s) ==> !is_space(#[trigger] s[k]),
    decreases s.len(),
{
    if s.len() > 0 && !is_space(s[0]) {
        let t = s.drop_first();
        lemma_word_len(t);
        assert forall|k: int| 0 <= k < word_len(s) implies !is_space(#[trigger] s[k]) by {
            if k > 0 {
                assert(t[k - 1] == s[k]);
            }
        }
    }
}

/// A text without white space is one word, and white space parts words:
/// those before it and those after it are the words of the whole.
pub proof fn law_words(a: Seq<char>, gap: char, b: Seq<char>)
    requires
        is_space(gap),
    ensures
        words(Seq::<char>::empty()) == Seq::<Seq<char>>::empty(),
        a.len() > 0 && (forall|k: int| 0 <= k < a.len() ==> !is_space(#[trigger] a[k])) ==> words(a)
            == seq![a],
        words(a.push(gap) + b) == words(a) + words(b),
    decreases a.len(),
{
    let all = a.push(gap) + b;
    let none = Seq::<char>::empty();
    assert(words(none) =~= Seq::<Seq<char>>::empty());
    if a.len() == 0 {
        assert(all[0] == gap);
        assert(all.drop_first() =~= b);
        assert(a =~= none);
        assert(words(all) =~= words(b));
        assert(words(a) + words(b) =~= words(b));
    } else if is_space(a[0]) {
        let rest = a.drop_first();
        law_words(rest, gap, b);
        assert(all[0] == a[0]);
        assert(all.drop_first() =~= rest.push(gap) + b);
        assert(words(all) == words(all.drop_first()));
        assert(words(a) == words(rest));
    } else {
        lemma_word_len(a);
        let n = word_len(a);
        assert(n > 0) by {
            lemma_word_len(a.drop_first());
        }
        assert forall|k: int| 0 <= k < n implies !is_space(#[trigger] all[k]) by {
            assert(all[k] == a[k]);
        }
        assert(all[n] == if n < a.len() {
            a[n]
        } else {
            gap
        });
        lemma_word_len_is(all, n);
        assert(all[0] == a[0]);
        assert(trim_start(all) == all);
        assert(all.take(n) =~= a.take(n));
        if n < a.len() {
            law_words(a.skip(n), gap, b);
            assert(all.skip(n) =~= a.skip(n).push(gap) + b);
            assert(words(all) == seq![a.take(n)] + (words(a.skip(n)) + words(b)));
            assert(words(all) =~= words(a) + words(b));
        } else {
            assert(a.take(n) =~= a);
            assert(a.skip(n) =~= none);
            assert(words(a) =~= seq![a]);
            let rest = all.skip(n);
            assert(rest[0] == gap);
            assert(rest.drop_first() =~= b);
            assert(words(rest) =~= words(b));
            assert(words(all) =~= words(a) + words(b));
        }
    }
}

// ---------------------------------------------------------------- parts --

/// A line ends at a newline, which is no part of it, nor is a carriage return
/// before it; an empty line is a line; and what follows the last newline is
/// one, where there is anything.
pub proof fn law_lines(row: Seq<char>, rest: Seq<char>)
    requires
        !row.contains('\n'),
    ensures
        lines(Seq::<char>::empty()) == Seq::<Seq<char>>::empty(),
        row.len() > 0 ==> lines(row) == seq![row],
        lines(row.push('\n') + rest) == seq![
            if row.len() > 0 && row.last() == '\r' {
                row.drop_last()
            } else {
                row
            },
        ] + lines(rest),
{
    let all = row.push('\n') + rest;
    let n = row.len() as int;
    assert forall|k: int| 0 <= k < n implies row[k] != '\n' by {
        assert(row.contains(row[k]));
    }
    lemma_index_of_char_is(row, '\n', n);
    assert(all[n] == '\n');
    assert forall|k: int| 0 <= k < n implies all[k] != '\n' by {
        assert(all[k] == row[k]);
    }
    lemma_index_of_char_is(all, '\n', n);
    assert(all.take(n) =~= row);
    assert(all.skip(n + 1) =~= rest);
    assert(lines(Seq::<char>::empty()) =~= Seq::<Seq<char>>::empty());
}

/// A separator parts a text at its first place, and a text without it is one
/// part.
pub proof fn law_parting(head: Seq<char>, c: char, tail: Seq<char>)
    requires
        !head.contains(c),
    ensures
        before_char(head, c) == head,
        before_char(head.push(c) + tail, c) == head,
        after_char(head.push(c) + tail, c) == tail,
        split(head, c) == seq![head],
        split(head.push(c) + tail, c) == seq![head] + split(tail, c),
{
    let all = head.push(c) + tail;
    let n = head.len() as int;
    assert forall|k: int| 0 <= k < n implies head[k] != c by {
        assert(head.contains(head[k]));
    }
    lemma_index_of_char_is(head, c, n);
    assert(all[n] == c);
    assert forall|k: int| 0 <= k < n implies all[k] != c by {
        assert(all[k] == head[k]);
    }
    lemma_index_of_char_is(all, c, n);
    assert(head.take(n) =~= head);
    assert(all.take(n) =~= head);
    assert(all.skip(n + 1) =~= tail);
}

/// What was written as UTF-8 is read as what was written.
pub proof fn law_bytes_are_read_as_text(s: Seq<char>)
    ensures
        text_in(encode_utf8(s)) == s,
{
    crate::store_laws::law_text_reads_back(s);
}

// -------------------------------------------------------------- numbers --

/// Numbers are written in decimal: one digit for those below ten, and one
/// more digit at the end for each factor of ten.
pub proof fn law_decimal(n: nat, d: nat)
    requires
        d < 10,
    ensures
        decimal(d) == seq!["0123456789"@[d as int]],
        n > 0 ==> decimal(10 * n + d) == decimal(n).push("0123456789"@[d as int]),
{
    reveal_strlit("0123456789");
    if n > 0 {
        assert((10 * n + d) / 10 == n);
        assert((10 * n + d) % 10 == d);
    }
}

/// Zeros fill a number up to its width in front, and only up to it.
pub proof fn law_padding(n: nat, width: nat)
    ensures
        ({
            let zeros = padded(n, width).len() - decimal(n).len();
            &&& zeros == if decimal(n).len() < width {
                width - decimal(n).len()
            } else {
                0
            }
            &&& padded(n, width).skip(zeros) == decimal(n)
            &&& forall|k: int| 0 <= k < zeros ==> #[trigger] padded(n, width)[k] == '0'
        }),
{
    let d = decimal(n);
    let zeros = padded(n, width).len() - d.len();
    assert(padded(n, width).skip(zeros) =~= d);
}

/// A negative number has a minus before its digits; any other has none.
pub proof fn law_signs(n: nat)
    ensures
        signed_decimal(n as int) == decimal(n),
        n > 0 ==> signed_decimal(-(n as int)) == seq!['-'] + decimal(n),
{
    reveal_strlit("-");
    assert("-"@ =~= seq!['-']);
}

/// A number of tenths is its whole part, a point and one digit.
pub proof fn law_tenths(whole: nat, d: nat)
    requires
        d < 10,
    ensures
        tenths(10 * whole + d) == decimal(whole) + seq!['.'] + decimal(d),
{
    assert((10 * whole + d) / 10 == whole);
    assert((10 * whole + d) % 10 == d);
    assert(tenths(10 * whole + d) =~= decimal(whole) + seq!['.'] + decimal(d));
}

/// Rounding goes to the nearest integer: no quotient is off by more than a
/// half, and one that is off by a half is even.
pub proof fn law_rounding(n: nat, d: nat)
    requires
        d > 0,
    ensures
        2 * n <= (2 * half_even(n, d) + 1) * d,
        2 * half_even(n, d) * d <= 2 * n + d,
        2 * n == (2 * half_even(n, d) + 1) * d || 2 * half_even(n, d) * d == 2 * n + d ==> half_even(
            n,
            d,
        ) % 2 == 0,
{
    let q = n / d;
    let r = n % d;
    lemma_fundamental_div_mod(n as int, d as int);
    assert(n == d * q + r && r < d);
    assert((2 * q + 1) * d == 2 * (d * q) + d && 2 * (q + 1) * d == 2 * (d * q) + 2 * d && (2 * (q
        + 1) + 1) * d == 2 * (d * q) + 3 * d && 2 * q * d == 2 * (d * q)) by (nonlinear_arith);
}

/// A number below two to the 53rd is a double-precision number; any other is
/// rounded to a multiple of the power of two that leaves 53 binary digits.
pub proof fn law_doubles(n: nat) -> (e: nat)
    ensures
        n < 0x20_0000_0000_0000 ==> as_double(n) == n,
        n >= 0x20_0000_0000_0000 ==> {
            &&& 0x10_0000_0000_0000 * pow2(e) <= n < 0x20_0000_0000_0000 * pow2(e)
            &&& as_double(n) % pow2(e) == 0
            &&& 2 * as_double(n) <= 2 * n + pow2(e)
            &&& 2 * n <= 2 * as_double(n) + pow2(e)
        },
{
    let e = spare_bits(n);
    let u = pow2(e);
    lemma_pow2_pos(e);
    lemma_spare(n);
    lemma2_to64();
    law_rounding(n, u);
    let k = half_even(n, u);
    assert(as_double(n) == k * u);
    assert((k * u) % u == 0 && 2 * k * u == 2 * (k * u) && (2 * k + 1) * u == 2 * (k * u) + u)
        by (nonlinear_arith)
        requires
            u > 0,
    ;
    e
}

proof fn lemma_spare(n: nat)
    ensures
        n < 0x20_0000_0000_0000 ==> spare_bits(n) == 0,
        n >= 0x20_0000_0000_0000 ==> 0x10_0000_0000_0000 * pow2(spare_bits(n)) <= n
            < 0x20_0000_0000_0000 * pow2(spare_bits(n)),
    decreases n,
{
    lemma2_to64();
    if n >= 0x20_0000_0000_0000 {
        let m = n / 2;
        let e = spare_bits(m);
        lemma_spare(m);
        lemma_pow2_unfold(e + 1);
        assert(pow2(e + 1) == 2 * pow2(e));
    }
}

/// Texts are ordered as in a dictionary: by the first character in which they
/// differ, or the shorter first where one starts the other.
pub proof fn law_dictionary_order(a: Seq<char>, b: Seq<char>)
    ensures
        text_less(a, b) <==> exists|n: int|
            {
                &&& 0 <= n <= a.len()
                &&& n < b.len()
                &&& #[trigger] a.take(n) == b.take(n)
                &&& n == a.len() || a[n] < b[n]
            },
    decreases b.len(),
{
    if b.len() == 0 {
    } else if a.len() == 0 {
        assert(a.take(0) =~= b.take(0));
    } else if a[0] != b[0] {
        if a[0] < b[0] {
            assert(a.take(0) =~= b.take(0));
        }
        assert forall|n: int|
            0 <= n <= a.len() && n < b.len() && #[trigger] a.take(n) == b.take(n) implies n == 0 by {
            if n > 0 {
                assert(a.take(n)[0] == b.take(n)[0]);
            }
        }
    } else {
        let x = a.drop_first();
        let y = b.drop_first();
        law_dictionary_order(x, y);
        if text_less(x, y) {
            let n = choose|n: int|
                {
                    &&& 0 <= n <= x.len()
                    &&& n < y.len()
                    &&& #[trigger] x.take(n) == y.take(n)
                    &&& n == x.len() || x[n] < y[n]
                };
            assert(a.take(n + 1) =~= seq![a[0]] + x.take(n));
            assert(b.take(n + 1) =~= seq![b[0]] + y.take(n));
            assert(a.take(n + 1) == b.take(n + 1));
        }
        if exists|n: int|
            {
                &&& 0 <= n <= a.len()
                &&& n < b.len()
                &&& #[trigger] a.take(n) == b.take(n)
                &&& n == a.len() || a[n] < b[n]
            } {
            let n = choose|n: int|
                {
                    &&& 0 <= n <= a.len()
                    &&& n < b.len()
                    &&& #[trigger] a.take(n) == b.take(n)
                    &&& n == a.len() || a[n] < b[n]
                };
            assert(n > 0);
            assert(x.take(n - 1) =~= a.take(n).drop_first());
            assert(y.take(n - 1) =~= b.take(n).drop_first());
            assert(x.take(n - 1) == y.take(n - 1));
        }
    }
}

} // verus!
