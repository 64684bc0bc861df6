//! How `qrcode` weighs the masks of a QR code, of which it draws the lightest.
//! It keeps its sums in 16 bits, so a code is drawn only where they fit.
use vstd::arithmetic::div_mod::lemma_fundamental_div_mod;
use vstd::prelude::*;

verus! {

/// A line of a square code, which comes row by row: a row, or a column.
/// `true` is a dark module.
pub open spec fn line(code: Seq<bool>, width: nat, across: bool, i: int) -> Seq<bool> {
    Seq::new(
        width,
        |j: int|
            if across {
                code[i * width + j]
            } else {
                code[j * width + i]
            },
    )
}

/// What the last module of a line adds to its score: three where it is the
/// fifth of one colour in a row, one for each further one.
pub open spec fn run_end(line: Seq<bool>) -> nat {
    let n = line.len();
    if n >= 5 && line[n - 5] == line[n - 1] && line[n - 4] == line[n - 1] && line[n - 3] == line[n
        - 1] && line[n - 2] == line[n - 1] {
        if n >= 6 && line[n - 6] == line[n - 1] {
            1
        } else {
            3
        }
    } else {
        0
    }
}

/// The score of a line for its runs of one colour.
pub open spec fn runs(line: Seq<bool>) -> nat
    decreases line.len(),
{
    if line.len() == 0 {
        0
    } else {
        runs(line.drop_last()) + run_end(line)
    }
}

/// Whether no module from `from` up to `to` is dark; outside the line none is.
pub open spec fn light(line: Seq<bool>, from: int, to: int) -> bool {
    forall|k: int| from <= k < to && 0 <= k < line.len() ==> !line[k]
}

/// Whether what starts at `j` looks like a finder, with light beside it.
pub open spec fn finder_at(line: Seq<bool>, j: int) -> bool {
    &&& 0 <= j
    &&& j + 7 <= line.len()
    &&& line[j] && !line[j + 1] && line[j + 2] && line[j + 3] && line[j + 4] && !line[j + 5]
        && line[j + 6]
    &&& light(line, j - 4, j) || light(line, j + 7, j + 11)
}

/// How many of the first `n` places of a line a finder seems to start at.
pub open spec fn finders(line: Seq<bool>, n: nat) -> nat
    decreases n,
{
    if n == 0 {
        0
    } else {
        finders(line, (n - 1) as nat) + if finder_at(line, n - 1) {
            1nat
        } else {
            0
        }
    }
}

/// How many of the first `n` squares of two by two between two lines are of
/// one colour.
pub open spec fn squares(a: Seq<bool>, b: Seq<bool>, n: nat) -> nat
    decreases n,
{
    if n == 0 {
        0
    } else {
        squares(a, b, (n - 1) as nat) + if a[n - 1] == a[n as int] && a[n - 1] == b[n - 1] && a[n
            - 1] == b[n as int] {
            1nat
        } else {
            0
        }
    }
}

/// The score of the first `n` lines for their runs.
pub open spec fn all_runs(code: Seq<bool>, width: nat, across: bool, n: nat) -> nat
    decreases n,
{
    if n == 0 {
        0
    } else {
        all_runs(code, width, across, (n - 1) as nat) + runs(line(code, width, across, n - 1))
    }
}

/// How many finders the first `n` lines seem to hold.
pub open spec fn all_finders(code: Seq<bool>, width: nat, across: bool, n: nat) -> nat
    decreases n,
{
    if n == 0 {
        0
    } else {
        all_finders(code, width, across, (n - 1) as nat) + finders(
            line(code, width, across, n - 1),
            width,
        )
    }
}

/// How many squares of one colour lie between the first `n` rows and the one
/// below each.
pub open spec fn all_squares(code: Seq<bool>, width: nat, n: nat) -> nat
    decreases n,
{
    if n == 0 {
        0
    } else {
        all_squares(code, width, (n - 1) as nat) + squares(
            line(code, width, true, n - 1),
            line(code, width, true, n as int),
            (width - 1) as nat,
        )
    }
}

/// How many modules are dark.
pub open spec fn darks(code: Seq<bool>) -> nat
    decreases code.len(),
{
    if code.len() == 0 {
        0
    } else {
        darks(code.drop_last()) + if code.last() {
            1nat
        } else {
            0
        }
    }
}

/// How far the share of dark modules is from a half, in half percents.
pub open spec fn imbalance(code: Seq<bool>) -> int {
    let ratio = darks(code) as int * 200 / code.len() as int;
    if ratio >= 100 {
        ratio - 100
    } else {
        100 - ratio
    }
}

/// The penalty of a masked code: its runs, squares and finders, without the
/// nine rows and nine columns in which the three real finders are seen, and
/// its imbalance.
pub open spec fn penalty(code: Seq<bool>, width: nat) -> int {
    all_runs(code, width, true, width) + all_runs(code, width, false, width) + 3 * all_squares(
        code,
        width,
        (width - 1) as nat,
    ) + (40 * all_finders(code, width, true, width) - 360) + (40 * all_finders(
        code,
        width,
        false,
        width,
    ) - 360) + imbalance(code)
}

/// Whether the penalty of a masked code can be added up in 16 bits: the sum
/// itself, and on the way to it the finders in each direction.
pub open spec fn weighable(code: Seq<bool>, width: nat) -> bool {
    &&& 360 <= 40 * all_finders(code, width, true, width) <= 0xffff
    &&& 360 <= 40 * all_finders(code, width, false, width) <= 0xffff
    &&& penalty(code, width) <= 0xffff
}

/// Codes of up to 177 modules to a side, the largest there are.
pub open spec fn square(code: Seq<bool>, width: nat) -> bool {
    21 <= width <= 177 && code.len() == width * width
}

/// Whether each of the masked codes can be weighed.
pub open spec fn all_weighable(codes: Seq<Seq<bool>>, width: nat) -> bool {
    forall|k: int| 0 <= k < codes.len() ==> weighable(#[trigger] codes[k], width)
}

proof fn lemma_inside(i: int, j: int, width: int)
    by (nonlinear_arith)
    requires
        0 <= i < width,
        0 <= j < width,
    ensures
        0 <= i * width,
        i * width + j < width * width,
{
}

proof fn lemma_area(width: int)
    by (nonlinear_arith)
    requires
        21 <= width <= 177,
    ensures
        441 <= width * width <= 31329,
{
}

fn line_of(code: &Vec<bool>, width: usize, across: bool, i: usize) -> (res: Vec<bool>)
    requires
        square(code@, width as nat),
        i < width,
    ensures
        res@ == line(code@, width as nat, across, i as int),
{
    let mut out: Vec<bool> = Vec::new();
    let mut j: usize = 0;
    proof {
        lemma_area(width as int);
    }
    while j < width
        invariant
            square(code@, width as nat),
            width * width <= 31329,
            i < width,
            j <= width,
            out@ == line(code@, width as nat, across, i as int).take(j as int),
        decreases width - j,
    {
        proof {
            lemma_inside(i as int, j as int, width as int);
            lemma_inside(j as int, i as int, width as int);
        }
        let at: usize = if across {
            i * width + j
        } else {
            j * width + i
        };
        out.push(code[at]);
        j = j + 1;
        proof {
            let all = line(code@, width as nat, across, i as int);
            assert(all.take(j as int) =~= all.take(j - 1).push(all[j - 1]));
        }
    }
    assert(out@ =~= line(code@, width as nat, across, i as int));
    out
}

fn runs_of(line: &Vec<bool>) -> (res: u64)
    requires
        line@.len() <= 177,
    ensures
        res == runs(line@),
        res <= 531,
{
    let mut sum: u64 = 0;
    let mut i: usize = 0;
    while i < line.len()
        invariant
            i <= line@.len() <= 177,
            sum == runs(line@.take(i as int)),
            sum <= 3 * i,
        decreases line@.len() - i,
    {
        let ghost part = line@.take(i + 1);
        assert(part.drop_last() =~= line@.take(i as int));
        let five = i >= 4 && line[i - 1] == line[i] && line[i - 2] == line[i] && line[i - 3]
            == line[i] && line[i - 4] == line[i];
        if five {
            if i >= 5 && line[i - 5] == line[i] {
                sum = sum + 1;
            } else {
                sum = sum + 3;
            }
        }
        i = i + 1;
    }
    assert(line@.take(i as int) =~= line@);
    sum
}

fn is_light(line: &Vec<bool>, from: usize, to: usize) -> (res: bool)
    ensures
        res == light(line@, from as int, to as int),
{
    let mut k: usize = from;
    while k < to && k < line.len()
        invariant
            from <= k,
            k <= to || k == from,
            forall|i: int| from <= i < k && i < line@.len() ==> !line@[i],
        decreases to - k,
    {
        if line[k] {
            return false;
        }
        k = k + 1;
    }
    true
}

fn finders_of(line: &Vec<bool>) -> (res: u64)
    requires
        line@.len() <= 177,
    ensures
        res == finders(line@, line@.len()),
        res <= 177,
{
    let mut sum: u64 = 0;
    let mut j: usize = 0;
    while j < line.len()
        invariant
            j <= line@.len() <= 177,
            sum == finders(line@, j as nat),
            sum <= j,
        decreases line@.len() - j,
    {
        let mut seen = false;
        if j + 7 <= line.len() && line[j] && !line[j + 1] && line[j + 2] && line[j + 3] && line[j
            + 4] && !line[j + 5] && line[j + 6] {
            let from: usize = if j >= 4 {
                j - 4
            } else {
                0
            };
            seen = is_light(line, from, j) || is_light(line, j + 7, j + 11);
            assert(light(line@, from as int, j as int) == light(line@, j - 4, j as int));
        }
        assert(seen == finder_at(line@, j as int));
        if seen {
            sum = sum + 1;
        }
        j = j + 1;
    }
    sum
}

fn squares_of(a: &Vec<bool>, b: &Vec<bool>) -> (res: u64)
    requires
        1 <= a@.len() <= 177,
        a@.len() == b@.len(),
    ensures
        res == squares(a@, b@, (a@.len() - 1) as nat),
        res <= 177,
{
    let mut sum: u64 = 0;
    let mut j: usize = 0;
    while j + 1 < a.len()
        invariant
            j < a@.len() <= 177,
            a@.len() == b@.len(),
            sum == squares(a@, b@, j as nat),
            sum <= j,
        decreases a@.len() - j,
    {
        j = j + 1;
        if a[j - 1] == a[j] && a[j - 1] == b[j - 1] && a[j - 1] == b[j] {
            sum = sum + 1;
        }
    }
    sum
}

/// The runs and the finders of all lines in one direction.
fn lines_of(code: &Vec<bool>, width: usize, across: bool) -> (res: (u64, u64))
    requires
        square(code@, width as nat),
    ensures
        res.0 == all_runs(code@, width as nat, across, width as nat),
        res.1 == all_finders(code@, width as nat, across, width as nat),
        res.0 <= 93987,
        res.1 <= 31329,
{
    let mut runs: u64 = 0;
    let mut finders: u64 = 0;
    let mut i: usize = 0;
    while i < width
        invariant
            square(code@, width as nat),
            i <= width,
            runs == all_runs(code@, width as nat, across, i as nat),
            finders == all_finders(code@, width as nat, across, i as nat),
            runs <= 531 * i,
            finders <= 177 * i,
        decreases width - i,
    {
        let one = line_of(code, width, across, i);
        runs = runs + runs_of(&one);
        finders = finders + finders_of(&one);
        i = i + 1;
    }
    (runs, finders)
}

fn blocks_of(code: &Vec<bool>, width: usize) -> (res: u64)
    requires
        square(code@, width as nat),
    ensures
        res == all_squares(code@, width as nat, (width - 1) as nat),
        res <= 31329,
{
    let mut sum: u64 = 0;
    let mut i: usize = 0;
    let mut above = line_of(code, width, true, 0);
    while i + 1 < width
        invariant
            square(code@, width as nat),
            i < width,
            above@ == line(code@, width as nat, true, i as int),
            sum == all_squares(code@, width as nat, i as nat),
            sum <= 177 * i,
        decreases width - i,
    {
        i = i + 1;
        let under = line_of(code, width, true, i);
        sum = sum + squares_of(&above, &under);
        above = under;
    }
    sum
}

fn imbalance_of(code: &Vec<bool>) -> (res: u64)
    requires
        441 <= code@.len() <= 31329,
    ensures
        res == imbalance(code@),
        res <= 100,
{
    let mut dark: u64 = 0;
    let mut i: usize = 0;
    while i < code.len()
        invariant
            i <= code@.len() <= 31329,
            dark == darks(code@.take(i as int)),
            dark <= i,
        decreases code@.len() - i,
    {
        assert(code@.take(i + 1).drop_last() =~= code@.take(i as int));
        if code[i] {
            dark = dark + 1;
        }
        i = i + 1;
    }
    assert(code@.take(i as int) =~= code@);
    let ratio: u64 = dark * 200 / (code.len() as u64);
    assert(ratio <= 200) by (nonlinear_arith)
        requires
            ratio == dark * 200 / (code@.len() as int),
            dark <= code@.len(),
            code@.len() > 0,
    ;
    if ratio >= 100 {
        ratio - 100
    } else {
        100 - ratio
    }
}

/// The penalty of a masked code, given row by row; none where it cannot be
/// added up.
pub fn weigh(code: &Vec<bool>, width: usize) -> (res: Option<u64>)
    requires
        square(code@, width as nat),
    ensures
        match res {
            Some(sum) => weighable(code@, width as nat) && sum == penalty(code@, width as nat),
            None => !weighable(code@, width as nat),
        },
{
    proof {
        lemma_area(width as int);
    }
    let rows = lines_of(code, width, true);
    let columns = lines_of(code, width, false);
    let blocks: u64 = blocks_of(code, width);
    let balance: u64 = imbalance_of(code);
    let across: u64 = 40 * rows.1;
    let down: u64 = 40 * columns.1;
    if across < 360 || across > 0xffff || down < 360 || down > 0xffff {
        return None;
    }
    let sum: u64 = rows.0 + columns.0 + 3 * blocks + (across - 360) + (down - 360) + balance;
    if sum <= 0xffff {
        Some(sum)
    } else {
        None
    }
}

/// The masked codes as contracts speak of them.
pub open spec fn code_views(codes: Seq<Vec<bool>>) -> Seq<Seq<bool>> {
    codes.map_values(|code: Vec<bool>| code@)
}

/// Whether each of the masked codes can be weighed.
pub fn can_weigh_all(codes: &Vec<Vec<bool>>, width: usize) -> (res: bool)
    requires
        forall|k: int| 0 <= k < codes@.len() ==> square(#[trigger] codes@[k]@, width as nat),
    ensures
        res == all_weighable(code_views(codes@), width as nat),
{
    let mut i: usize = 0;
    while i < codes.len()
        invariant
            i <= codes@.len(),
            forall|k: int| 0 <= k < codes@.len() ==> square(#[trigger] codes@[k]@, width as nat),
            forall|k: int| 0 <= k < i ==> weighable(#[trigger] codes@[k]@, width as nat),
        decreases codes@.len() - i,
    {
        if weigh(&codes[i], width).is_none() {
            assert(!weighable(code_views(codes@)[i as int], width as nat));
            return false;
        }
        i = i + 1;
    }
    assert forall|k: int| 0 <= k < code_views(codes@).len() implies weighable(
        #[trigger] code_views(codes@)[k],
        width as nat,
    ) by {
        assert(weighable(codes@[k]@, width as nat));
    }
    true
}

// ----------------------------------------------------------------- laws --

/// A row of a code is its modules from left to right, a column those from top
/// to bottom.
pub proof fn law_lines_of_a_code(code: Seq<bool>, width: nat, i: int, j: int)
    requires
        0 <= j < width,
    ensures
        line(code, width, true, i).len() == width,
        line(code, width, false, i).len() == width,
        line(code, width, true, i)[j] == code[i * width + j],
        line(code, width, false, i)[j] == code[j * width + i],
{
}

/// A run of `n` modules of one colour scores `n - 2` where it has at least
/// five, and nothing where it has fewer.
pub proof fn law_runs_score(head: Seq<bool>, c: bool, n: nat)
    requires
        head.len() > 0 ==> head.last() != c,
    ensures
        runs(Seq::<bool>::empty()) == 0,
        n < 5 ==> runs(head + Seq::new(n, |i: int| c)) == runs(head),
        n >= 5 ==> runs(head + Seq::new(n, |i: int| c)) == runs(head) + n - 2,
    decreases n,
{
    let all = head + Seq::new(n, |i: int| c);
    if n == 0 {
        assert(all =~= head);
    } else {
        let less = Seq::new((n - 1) as nat, |i: int| c);
        law_runs_score(head, c, (n - 1) as nat);
        assert(all.drop_last() =~= head + less);
        let m = all.len();
        let h = head.len();
        assert(all[m - 1] == c);
        assert forall|k: int| h <= k < m implies all[k] == c by {}
        if h > 0 {
            assert(all[h - 1] == head.last());
        }
    }
}

/// What looks like a finder is one dark module, a light one, three dark ones,
/// a light one and a dark one, with the four modules before it or the four
/// after it light as far as the line goes.
pub proof fn law_finders_look_so(a: Seq<bool>, b: Seq<bool>)
    ensures
        ({
            let all = a + seq![true, false, true, true, true, false, true] + b;
            finder_at(all, a.len() as int) <==> {
                ||| forall|k: int| a.len() - 4 <= k < a.len() && 0 <= k ==> !#[trigger] a[k]
                ||| forall|k: int| 0 <= k < 4 && k < b.len() ==> !#[trigger] b[k]
            }
        }),
        forall|line: Seq<bool>, j: int| #[trigger]
            finder_at(line, j) ==> 0 <= j && j + 7 <= line.len() && line.subrange(j, j + 7) == seq![
                true,
                false,
                true,
                true,
                true,
                false,
                true,
            ],
{
    let all = a + seq![true, false, true, true, true, false, true] + b;
    let j = a.len() as int;
    assert(all[j] && !all[j + 1] && all[j + 2] && all[j + 3] && all[j + 4] && !all[j + 5] && all[j
        + 6]);
    assert(light(all, j - 4, j) <==> forall|k: int|
        a.len() - 4 <= k < a.len() && 0 <= k ==> !#[trigger] a[k]) by {
        assert forall|k: int| 0 <= k < j implies all[k] == #[trigger] a[k] by {}
        assert forall|k: int| 0 <= k < j implies #[trigger] all[k] == a[k] by {}
    }
    assert(light(all, j + 7, j + 11) <==> forall|k: int|
        0 <= k < 4 && k < b.len() ==> !#[trigger] b[k]) by {
        assert forall|k: int| 0 <= k < b.len() implies all[k + j + 7] == #[trigger] b[k] by {}
        assert forall|k: int| j + 7 <= k < all.len() implies #[trigger] all[k] == b[k - j - 7] by {}
        if light(all, j + 7, j + 11) {
            assert forall|k: int| 0 <= k < 4 && k < b.len() implies !#[trigger] b[k] by {
                assert(!all[k + j + 7]);
            }
        }
        if forall|k: int| 0 <= k < 4 && k < b.len() ==> !#[trigger] b[k] {
            assert forall|k: int| j + 7 <= k < j + 11 && 0 <= k < all.len() implies !all[k] by {
                assert(!b[k - j - 7]);
            }
        }
    }
    assert forall|line: Seq<bool>, j: int| #[trigger] finder_at(line, j) implies 0 <= j && j + 7
        <= line.len() && line.subrange(j, j + 7) == seq![
        true,
        false,
        true,
        true,
        true,
        false,
        true,
    ] by {
        assert(line.subrange(j, j + 7) =~= seq![true, false, true, true, true, false, true]);
    }
}

/// Finders are counted place by place, squares of one colour pair by pair,
/// and dark modules one by one.
pub proof fn law_marks_are_counted(code: Seq<bool>, a: Seq<bool>, b: Seq<bool>, n: nat)
    ensures
        darks(code) == code.filter(|m: bool| m).len(),
        finders(a, n) == Seq::new(n, |j: int| finder_at(a, j)).filter(|m: bool| m).len(),
        squares(a, b, n) == Seq::new(
            n,
            |j: int|
                (a[j] && a[j + 1] && b[j] && b[j + 1]) || (!a[j] && !a[j + 1] && !b[j] && !b[j + 1]),
        ).filter(|m: bool| m).len(),
    decreases code.len() + n,
{
    reveal(Seq::filter);
    let same = |j: int|
        (a[j] && a[j + 1] && b[j] && b[j + 1]) || (!a[j] && !a[j + 1] && !b[j] && !b[j + 1]);
    if code.len() > 0 {
        law_marks_are_counted(code.drop_last(), a, b, n);
    }
    if n > 0 {
        law_marks_are_counted(code, a, b, (n - 1) as nat);
        assert(Seq::new(n, |j: int| finder_at(a, j)).drop_last() =~= Seq::new(
            (n - 1) as nat,
            |j: int| finder_at(a, j),
        ));
        assert(Seq::new(n, same).drop_last() =~= Seq::new((n - 1) as nat, same));
        assert(Seq::new(n, same).last() == same(n - 1));
    }
}

/// A code is out of balance by the percents that its dark modules are away
/// from a half, in steps of half a percent.
pub proof fn law_imbalance(code: Seq<bool>)
    requires
        code.len() > 0,
    ensures
        ({
            let dark = darks(code) as int;
            let size = code.len() as int;
            let k = imbalance(code);
            &&& k >= 0
            &&& 2 * dark >= size ==> (100 + k) * size <= 200 * dark < (101 + k) * size
            &&& 2 * dark < size ==> (100 - k) * size <= 200 * dark < (101 - k) * size
        }),
{
    let dark = darks(code) as int;
    let size = code.len() as int;
    let ratio = dark * 200 / size;
    lemma_fundamental_div_mod(dark * 200, size);
    let rest = dark * 200 % size;
    assert(0 <= rest < size);
    assert(ratio * size <= 200 * dark < (ratio + 1) * size) by (nonlinear_arith)
        requires
            dark * 200 == size * ratio + rest,
            0 <= rest < size,
    ;
    assert(2 * dark >= size <==> ratio >= 100) by (nonlinear_arith)
        requires
            ratio * size <= 200 * dark < (ratio + 1) * size,
            size > 0,
    ;
}

/// The penalty of a code is what its rows and its columns score for their
/// runs, three for each square of one colour, forty for each finder but the
/// eighteen that belong there, and its imbalance. It can be weighed where that
/// fits in 16 bits, and where the finders of each direction do.
pub proof fn law_penalties(code: Seq<bool>, width: nat, across: bool, n: nat)
    requires
        width > 0,
    ensures
        ({
            let rows = all_finders(code, width, true, width);
            let columns = all_finders(code, width, false, width);
            let sum = penalty(code, width);
            &&& sum == all_runs(code, width, true, width) + all_runs(code, width, false, width) + 3
                * all_squares(code, width, (width - 1) as nat) + 40 * (rows + columns - 18)
                + imbalance(code)
            &&& weighable(code, width) <==> 9 <= rows <= 1638 && 9 <= columns <= 1638 && sum < 65536
        }),
        all_runs(code, width, true, 0) == 0,
        all_finders(code, width, true, 0) == 0,
        all_squares(code, width, 0) == 0,
        all_runs(code, width, false, 0) == 0,
        all_finders(code, width, false, 0) == 0,
        all_runs(code, width, across, n + 1) == all_runs(code, width, across, n) + runs(
            line(code, width, across, n as int),
        ),
        all_finders(code, width, across, n + 1) == all_finders(code, width, across, n) + finders(
            line(code, width, across, n as int),
            width,
        ),
        all_squares(code, width, n + 1) == all_squares(code, width, n) + squares(
            line(code, width, true, n as int),
            line(code, width, true, (n + 1) as int),
            (width - 1) as nat,
        ),
{
}

} // verus!
