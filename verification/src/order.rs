//! Sorting that keeps the order of equals.
use vstd::prelude::*;
use vstd::set_lib::{lemma_int_range, lemma_subset_equality, set_int_range};

verus! {

/// Values with a rank: `before` is a strict order in which some values may
/// share a place.
pub trait Ranked: Sized {
    spec fn before(self, other: Self) -> bool;

    fn goes_before(&self, other: &Self) -> (res: bool)
        ensures
            res == self.before(*other),
    ;

    proof fn weak_order(a: Self, b: Self, c: Self)
        ensures
            !(a.before(b) && b.before(a)),
            a.before(c) ==> a.before(b) || b.before(c),
    ;
}

/// `out` holds the items of `inp`, each once: the one at `i` is the one that
/// stood at `order[i]`.
pub open spec fn arranged<T>(out: Seq<T>, inp: Seq<T>, order: Seq<int>) -> bool {
    &&& out.len() == inp.len()
    &&& order.len() == inp.len()
    &&& forall|i: int| 0 <= i < order.len() ==> 0 <= #[trigger] order[i] < inp.len()
    &&& forall|i: int, j: int| 0 <= i < j < order.len() ==> order[i] != order[j]
    &&& forall|i: int| 0 <= i < out.len() ==> #[trigger] out[i] == inp[order[i]]
}

/// Of two items in `out`, the first goes before the second, or neither does
/// and they stand as they stood.
pub open spec fn in_rank<T>(out: Seq<T>, order: Seq<int>, before: spec_fn(T, T) -> bool) -> bool {
    forall|i: int, j: int|
        #![trigger out[i], out[j]]
        0 <= i < j < out.len() ==> before(out[i], out[j]) || (!before(out[j], out[i]) && order[i]
            < order[j])
}

/// `out` is `inp` sorted by `before`, equals kept in their order.
pub open spec fn sorted_by<T>(out: Seq<T>, inp: Seq<T>, before: spec_fn(T, T) -> bool) -> bool {
    exists|order: Seq<int>| #[trigger] arranged(out, inp, order) && in_rank(out, order, before)
}

/// Sorting that keeps the order of equals has one result.
pub proof fn law_sorting_is_determined<T>(
    a: Seq<T>,
    b: Seq<T>,
    inp: Seq<T>,
    before: spec_fn(T, T) -> bool,
)
    requires
        sorted_by(a, inp, before),
        sorted_by(b, inp, before),
        forall|x: T, y: T| #[trigger] before(x, y) ==> !before(y, x),
    ensures
        a == b,
{
    let oa = choose|order: Seq<int>| #[trigger]
        arranged(a, inp, order) && in_rank(a, order, before);
    let ob = choose|order: Seq<int>| #[trigger]
        arranged(b, inp, order) && in_rank(b, order, before);
    assert forall|p: int| 0 <= p <= inp.len() implies #[trigger] oa.take(p) == ob.take(p) by {
        lemma_same_places(a, oa, b, ob, inp, before, p);
    }
    assert(oa.take(inp.len() as int) =~= oa && ob.take(inp.len() as int) =~= ob);
    assert(a =~= b);
}

proof fn lemma_same_places<T>(
    a: Seq<T>,
    oa: Seq<int>,
    b: Seq<T>,
    ob: Seq<int>,
    inp: Seq<T>,
    before: spec_fn(T, T) -> bool,
    p: int,
)
    requires
        arranged(a, inp, oa),
        arranged(b, inp, ob),
        in_rank(a, oa, before),
        in_rank(b, ob, before),
        forall|x: T, y: T| #[trigger] before(x, y) ==> !before(y, x),
        0 <= p <= inp.len(),
    ensures
        oa.take(p) == ob.take(p),
    decreases p,
{
    if p > 0 {
        let k = p - 1;
        lemma_same_places(a, oa, b, ob, inp, before, k);
        assert forall|i: int| 0 <= i < k implies oa[i] == ob[i] by {
            assert(oa.take(k)[i] == ob.take(k)[i]);
        }
        if oa[k] != ob[k] {
            let q = lemma_place_of(b, inp, ob, oa[k]);
            let r = lemma_place_of(a, inp, oa, ob[k]);
            if q < k {
                assert(oa[q] == oa[k]);
            }
            if r < k {
                assert(ob[r] == ob[k]);
            }
            assert(b[q] == inp[ob[q]] && a[k] == inp[oa[k]]);
            assert(a[r] == inp[oa[r]] && b[k] == inp[ob[k]]);
            assert(b[k] == a[r] && b[q] == a[k]);
        }
        assert(oa.take(p) =~= ob.take(p));
    }
}

/// Every place of `inp` is somewhere in `order`.
proof fn lemma_place_of<T>(out: Seq<T>, inp: Seq<T>, order: Seq<int>, at: int) -> (q: int)
    requires
        arranged(out, inp, order),
        0 <= at < inp.len(),
    ensures
        0 <= q < order.len(),
        order[q] == at,
{
    let n = inp.len() as int;
    let all = set_int_range(0, n);
    lemma_int_range(0, n);
    assert(order.no_duplicates());
    order.unique_seq_to_set();
    assert(order.to_set().subset_of(all)) by {
        assert forall|x: int| order.to_set().contains(x) implies all.contains(x) by {
            let i = choose|i: int| 0 <= i < order.len() && order[i] == x;
            assert(0 <= order[i] < inp.len());
        }
    }
    lemma_subset_equality(order.to_set(), all);
    assert(order.to_set().contains(at));
    choose|q: int| 0 <= q < order.len() && order[q] == at
}

/// A list in which no item goes before an earlier one is sorted already, and
/// sorting leaves it as it is.
pub proof fn law_sorted_lists_stay<T>(out: Seq<T>, inp: Seq<T>, before: spec_fn(T, T) -> bool)
    requires
        sorted_by(out, inp, before),
        forall|x: T, y: T| #[trigger] before(x, y) ==> !before(y, x),
        forall|i: int, j: int| 0 <= i < j < inp.len() ==> !before(inp[j], inp[i]),
    ensures
        out == inp,
{
    let order = Seq::new(inp.len(), |i: int| i);
    assert(arranged(inp, inp, order));
    assert(in_rank(inp, order, before));
    law_sorting_is_determined(out, inp, inp, before);
}

/// An item stays before a later one unless that goes before it.
pub proof fn law_sorting_is_stable<T>(
    out: Seq<T>,
    inp: Seq<T>,
    before: spec_fn(T, T) -> bool,
    a: int,
    b: int,
)
    requires
        sorted_by(out, inp, before),
        0 <= a < b < inp.len(),
        !before(inp[b], inp[a]),
    ensures
        exists|p: int, q: int|
            0 <= p < q < out.len() && #[trigger] out[p] == inp[a] && #[trigger] out[q] == inp[b],
{
    let order = choose|order: Seq<int>| #[trigger]
        arranged(out, inp, order) && in_rank(out, order, before);
    let p = lemma_place_of(out, inp, order, a);
    let q = lemma_place_of(out, inp, order, b);
    assert(out[p] == inp[a] && out[q] == inp[b]);
}

/// Arranging neither loses an item nor adds one.
pub proof fn law_arranging_keeps_items<T>(out: Seq<T>, inp: Seq<T>, order: Seq<int>)
    requires
        arranged(out, inp, order),
    ensures
        out.to_multiset() == inp.to_multiset(),
    decreases inp.len(),
{
    if inp.len() == 0 {
        assert(out =~= inp);
    } else {
        let n = inp.len() - 1;
        let q = lemma_place_of(out, inp, order, n);
        let rest = out.remove(q);
        let places = order.remove(q);
        assert forall|i: int| 0 <= i < places.len() implies 0 <= #[trigger] places[i] < n by {
            let k = if i < q { i } else { i + 1 };
            assert(places[i] == order[k]);
            assert(0 <= order[k] < inp.len());
            if order[k] == n {
                assert(order[k] == order[q]);
            }
        }
        assert forall|i: int| 0 <= i < rest.len() implies #[trigger] rest[i]
            == inp.drop_last()[places[i]] by {
            let k = if i < q { i } else { i + 1 };
            assert(rest[i] == out[k] && places[i] == order[k]);
            assert(0 <= places[i] < n);
        }
        assert forall|i: int, j: int| 0 <= i < j < places.len() implies places[i]
            != places[j] by {
            let k = if i < q { i } else { i + 1 };
            let l = if j < q { j } else { j + 1 };
            assert(places[i] == order[k] && places[j] == order[l]);
        }
        law_arranging_keeps_items(rest, inp.drop_last(), places);
        assert(out[q] == inp[n]);
        assert(inp =~= inp.drop_last().push(inp[n]));
        inp.drop_last().to_multiset_ensures();
        out.to_multiset_ensures();
        assert(out.to_multiset().remove(out[q]) =~= rest.to_multiset());
        assert(out.to_multiset() =~= rest.to_multiset().insert(out[q])) by {
            assert(out.to_multiset().count(out[q]) > 0) by {
                assert(out.contains(out[q]));
            }
        }
    }
}

/// Sorts by rank; items of equal rank keep their order.
pub fn sorted<T: Ranked>(items: Vec<T>) -> (res: Vec<T>)
    ensures
        sorted_by(res@, items@, |a: T, b: T| a.before(b)),
{
    let ghost inp = items@;
    let ghost rank = |a: T, b: T| a.before(b);
    let mut rest: Vec<T> = items;
    let mut out: Vec<T> = Vec::new();
    let ghost mut order: Seq<int> = seq![];
    while rest.len() > 0
        invariant
            rest@.len() + out@.len() == inp.len(),
            rest@ == inp.take(rest@.len() as int),
            order.len() == out@.len(),
            forall|i: int| 0 <= i < order.len() ==> rest@.len() <= #[trigger] order[i] < inp.len(),
            forall|i: int, j: int| 0 <= i < j < order.len() ==> order[i] != order[j],
            forall|i: int| 0 <= i < out@.len() ==> #[trigger] out@[i] == inp[order[i]],
            rank == (|a: T, b: T| a.before(b)),
            in_rank(out@, order, rank),
        decreases rest@.len(),
    {
        let ghost at = rest@.len() - 1;
        let x = rest.pop().unwrap();
        assert(x == inp[at]);
        let mut p: usize = out.len();
        while p > 0 && !out[p - 1].goes_before(&x)
            invariant
                p <= out@.len(),
                forall|i: int| p <= i < out@.len() ==> !(#[trigger] out@[i]).before(x),
            decreases p,
        {
            p = p - 1;
        }
        let ghost old_out = out@;
        let ghost old_order = order;
        proof {
            assert forall|i: int| 0 <= i < p implies (#[trigger] old_out[i]).before(x) by {
                if i < p - 1 {
                    let last = old_out[p - 1];
                    T::weak_order(last, old_out[i], x);
                    T::weak_order(old_out[i], last, x);
                }
            }
            order = order.insert(p as int, at);
        }
        out.insert(p, x);
        proof {
            assert(out@ =~= old_out.insert(p as int, x));
            assert forall|i: int| 0 <= i < order.len() implies at <= #[trigger] order[i] < inp.len() by {
                if i < p {
                    assert(order[i] == old_order[i]);
                } else if i > p {
                    assert(order[i] == old_order[i - 1]);
                }
            }
            assert forall|i: int, j: int| 0 <= i < j < order.len() implies order[i] != order[j] by {
                let a = if i < p { i } else { i - 1 };
                let b = if j < p { j } else { j - 1 };
                if i != p && j != p {
                    assert(order[i] == old_order[a] && order[j] == old_order[b]);
                } else if i == p {
                    assert(order[j] == old_order[b]);
                } else {
                    assert(order[i] == old_order[a]);
                }
            }
            assert forall|i: int| 0 <= i < out@.len() implies #[trigger] out@[i] == inp[order[i]] by {
                if i < p {
                    assert(out@[i] == old_out[i]);
                } else if i > p {
                    assert(out@[i] == old_out[i - 1]);
                    assert(order[i] == old_order[i - 1]);
                }
            }
            assert forall|i: int, j: int|
                #![trigger out@[i], out@[j]]
                0 <= i < j < out@.len() implies out@[i].before(out@[j]) || (!out@[j].before(out@[i])
                && order[i] < order[j]) by {
                let a = if i < p { i } else { i - 1 };
                let b = if j < p { j } else { j - 1 };
                if i != p && j != p {
                    assert(out@[i] == old_out[a] && out@[j] == old_out[b]);
                    assert(order[i] == old_order[a] && order[j] == old_order[b]);
                } else if i == p {
                    assert(out@[j] == old_out[b]);
                    assert(order[j] == old_order[b]);
                } else {
                    assert(out@[i] == old_out[a]);
                }
            }
        }
    }
    proof {
        assert(arranged(out@, inp, order));
    }
    out
}

/// `a` comes before `b` in a dictionary that orders characters by their
/// number.
pub open spec fn text_less(a: Seq<char>, b: Seq<char>) -> bool
    decreases b.len(),
{
    if b.len() == 0 {
        false
    } else if a.len() == 0 {
        true
    } else if a[0] != b[0] {
        a[0] < b[0]
    } else {
        text_less(a.drop_first(), b.drop_first())
    }
}

/// The order of texts is a strict order, and no two texts share a place.
pub proof fn lemma_text_less(a: Seq<char>, b: Seq<char>, c: Seq<char>)
    ensures
        !(text_less(a, b) && text_less(b, a)),
        text_less(a, c) ==> text_less(a, b) || text_less(b, c),
        !text_less(a, b) && !text_less(b, a) ==> a == b,
    decreases a.len() + b.len() + c.len(),
{
    if a.len() > 0 && b.len() > 0 && c.len() > 0 {
        lemma_text_less(a.drop_first(), b.drop_first(), c.drop_first());
        if a[0] == b[0] && a.drop_first() == b.drop_first() {
            assert(a =~= seq![a[0]] + a.drop_first());
            assert(b =~= seq![b[0]] + b.drop_first());
        }
    } else if a.len() > 0 && b.len() > 0 {
        lemma_text_less(a.drop_first(), b.drop_first(), c);
        if a[0] == b[0] && a.drop_first() == b.drop_first() {
            assert(a =~= seq![a[0]] + a.drop_first());
            assert(b =~= seq![b[0]] + b.drop_first());
        }
    } else if a.len() == 0 && b.len() == 0 {
        assert(a =~= b);
    }
}

/// Whether `a` comes before `b` in a dictionary.
pub fn less(a: &str, b: &str) -> (res: bool)
    ensures
        res == text_less(a@, b@),
{
    let x = crate::text::chars_of(a);
    let y = crate::text::chars_of(b);
    let mut i: usize = 0;
    assert(x@.skip(0) =~= x@);
    assert(y@.skip(0) =~= y@);
    while i < x.len() && i < y.len()
        invariant
            i <= x@.len(),
            i <= y@.len(),
            x@ == a@,
            y@ == b@,
            text_less(a@, b@) == text_less(x@.skip(i as int), y@.skip(i as int)),
        decreases x@.len() - i,
    {
        let ghost xs = x@.skip(i as int);
        let ghost ys = y@.skip(i as int);
        assert(xs[0] == x@[i as int] && ys[0] == y@[i as int]);
        if x[i] != y[i] {
            return char_less(x[i], y[i]);
        }
        assert(xs.drop_first() =~= x@.skip(i + 1));
        assert(ys.drop_first() =~= y@.skip(i + 1));
        i = i + 1;
    }
    i == x.len() && i < y.len()
}

fn char_less(a: char, b: char) -> (res: bool)
    ensures
        res == (a < b),
{
    (a as u32) < (b as u32)
}

} // verus!
