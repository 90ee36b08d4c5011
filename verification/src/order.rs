//! Putting items in order, and leaving repeated texts out.
use crate::text::{goes_before, lemma_text_order_total, lemma_text_order_transitive, same_text, text_before, texts};
use vstd::prelude::*;

verus! {

/// The views of a list of items.
pub open spec fn views<T: View>(list: Seq<T>) -> Seq<T::V> {
    list.map_values(|t: T| t@)
}

/// `s` with `x` put behind everything that it does not go before.
pub open spec fn placed<V>(s: Seq<V>, x: V, goes: spec_fn(V, V) -> bool) -> Seq<V>
    decreases s.len(),
{
    if s.len() > 0 && goes(x, s.last()) {
        placed(s.drop_last(), x, goes).push(s.last())
    } else {
        s.push(x)
    }
}

/// The items in order. Items of which neither goes before the other keep the order they had.
pub open spec fn arranged<V>(s: Seq<V>, goes: spec_fn(V, V) -> bool) -> Seq<V>
    decreases s.len(),
{
    if s.len() == 0 {
        s
    } else {
        placed(arranged(s.drop_last(), goes), s.last(), goes)
    }
}

/// Whether no item stands behind one that it goes before.
pub open spec fn in_order<V>(s: Seq<V>, goes: spec_fn(V, V) -> bool) -> bool {
    forall|i: int, j: int| 0 <= i < j < s.len() ==> !goes(#[trigger] s[j], #[trigger] s[i])
}

/// Whether `goes` ranks items: of two items at most one goes before the other, and an item that
/// goes before another goes before or stands behind any third one accordingly.
pub open spec fn ranks<V>(goes: spec_fn(V, V) -> bool) -> bool {
    &&& forall|a: V, b: V| #[trigger] goes(a, b) ==> !goes(b, a)
    &&& forall|a: V, b: V, c: V|
        #![trigger goes(a, b), goes(b, c)]
        goes(a, c) ==> goes(a, b) || goes(b, c)
}

/// Where `x` ends up: everything before it does not follow it, everything behind it does.
pub proof fn lemma_placed_at<V>(s: Seq<V>, x: V, goes: spec_fn(V, V) -> bool) -> (at: int)
    ensures
        0 <= at <= s.len(),
        placed(s, x, goes) == s.insert(at, x),
        forall|k: int| at <= k < s.len() ==> goes(x, #[trigger] s[k]),
        at > 0 ==> !goes(x, s[at - 1]),
    decreases s.len(),
{
    if s.len() > 0 && goes(x, s.last()) {
        let at = lemma_placed_at(s.drop_last(), x, goes);
        assert(s.drop_last().insert(at, x).push(s.last()) =~= s.insert(at, x));
        assert forall|k: int| at <= k < s.len() implies goes(x, #[trigger] s[k]) by {
            if k < s.len() - 1 {
                assert(s.drop_last()[k] == s[k]);
            }
        }
        if at > 0 {
            assert(s.drop_last()[at - 1] == s[at - 1]);
        }
        at
    } else {
        assert(s.push(x) =~= s.insert(s.len() as int, x));
        s.len() as int
    }
}

/// Placing an item keeps what was there and adds the item.
pub proof fn lemma_placed_items<V>(s: Seq<V>, x: V, goes: spec_fn(V, V) -> bool)
    ensures
        placed(s, x, goes).to_multiset() == s.to_multiset().insert(x),
        placed(s, x, goes).len() == s.len() + 1,
{
    let at = lemma_placed_at(s, x, goes);
    broadcast use vstd::seq_lib::to_multiset_insert;

}

/// Placing an item into an ordered list gives an ordered list.
pub proof fn lemma_placed_in_order<V>(s: Seq<V>, x: V, goes: spec_fn(V, V) -> bool)
    requires
        ranks(goes),
        in_order(s, goes),
    ensures
        in_order(placed(s, x, goes), goes),
{
    let at = lemma_placed_at(s, x, goes);
    let t = s.insert(at, x);
    assert forall|i: int, j: int| 0 <= i < j < t.len() implies !goes(
        #[trigger] t[j],
        #[trigger] t[i],
    ) by {
        if j < at {
            assert(t[i] == s[i] && t[j] == s[j]);
        } else if i > at {
            assert(t[i] == s[i - 1] && t[j] == s[j - 1]);
        } else if j == at {
            assert(t[i] == s[i] && t[j] == x);
            if i < at - 1 {
                assert(!goes(s[at - 1], s[i]));
                assert(!goes(x, s[at - 1]));
            }
        } else if i == at {
            assert(t[i] == x && t[j] == s[j - 1]);
            assert(goes(x, s[j - 1]));
        } else {
            assert(t[i] == s[i] && t[j] == s[j - 1]);
        }
    }
}

/// Putting items in order neither adds nor loses any.
pub proof fn lemma_arranged_items<V>(s: Seq<V>, goes: spec_fn(V, V) -> bool)
    ensures
        arranged(s, goes).to_multiset() == s.to_multiset(),
        arranged(s, goes).len() == s.len(),
    decreases s.len(),
{
    broadcast use vstd::seq_lib::to_multiset_build;

    if s.len() > 0 {
        lemma_arranged_items(s.drop_last(), goes);
        lemma_placed_items(arranged(s.drop_last(), goes), s.last(), goes);
        assert(s =~= s.drop_last().push(s.last()));
    }
}

/// Items put in order are in order.
pub proof fn lemma_arranged_in_order<V>(s: Seq<V>, goes: spec_fn(V, V) -> bool)
    requires
        ranks(goes),
    ensures
        in_order(arranged(s, goes), goes),
    decreases s.len(),
{
    if s.len() > 0 {
        lemma_arranged_in_order(s.drop_last(), goes);
        lemma_placed_in_order(arranged(s.drop_last(), goes), s.last(), goes);
    }
}

/// A list in order holds exactly the items that it held before.
pub proof fn lemma_arranged_contains<V>(s: Seq<V>, goes: spec_fn(V, V) -> bool)
    ensures
        forall|x: V| #[trigger] arranged(s, goes).contains(x) == s.contains(x),
{
    lemma_arranged_items(s, goes);
    broadcast use vstd::seq_lib::to_multiset_contains;

    assert forall|x: V| #[trigger] arranged(s, goes).contains(x) == s.contains(x) by {
        assert(arranged(s, goes).contains(x) == (arranged(s, goes).to_multiset().count(x) > 0));
        assert(s.contains(x) == (s.to_multiset().count(x) > 0));
    }
}

/// The items in order.
pub fn arrange<T: View, F: Fn(&T, &T) -> bool>(
    items: Vec<T>,
    first: F,
    Ghost(goes): Ghost<spec_fn(T::V, T::V) -> bool>,
) -> (list: Vec<T>)
    requires
        forall|a: &T, b: &T| #[trigger] first.requires((a, b)),
        forall|a: &T, b: &T, r: bool|
            #[trigger] first.ensures((a, b), r) ==> r == goes((*a)@, (*b)@),
    ensures
        views(list@) == arranged(views(items@), goes),
{
    let ghost whole = views(items@);
    let mut rest: Vec<T> = items;
    let mut list: Vec<T> = Vec::new();
    let ghost mut done: int = 0;
    proof {
        assert(whole.take(0) =~= Seq::<T::V>::empty());
        assert(views(list@) =~= Seq::<T::V>::empty());
        assert(whole.skip(0) =~= whole);
    }
    while rest.len() > 0
        invariant
            0 <= done <= whole.len(),
            views(rest@) == whole.skip(done),
            views(list@) == arranged(whole.take(done), goes),
            forall|a: &T, b: &T| #[trigger] first.requires((a, b)),
            forall|a: &T, b: &T, r: bool|
                #[trigger] first.ensures((a, b), r) ==> r == goes((*a)@, (*b)@),
        decreases rest@.len(),
    {
        let ghost before = views(rest@);
        proof {
            assert(before.len() == rest@.len());
            assert(rest@.len() > 0);
            assert(before == whole.skip(done));
            assert(done < whole.len());
        }
        let item: T = rest.remove(0);
        let ghost sorted = views(list@);
        proof {
            assert(before[0] == item@);
            assert(before[0] == whole[done]);
            assert(views(rest@) =~= before.skip(1));
            assert(views(rest@) =~= whole.skip(done + 1));
            assert(whole.take(done + 1).drop_last() =~= whole.take(done));
            assert(whole.take(done + 1).last() == item@);
            assert(sorted.take(sorted.len() as int) =~= sorted);
            assert(sorted.skip(sorted.len() as int) =~= Seq::<T::V>::empty());
            assert(placed(sorted, item@, goes) + Seq::<T::V>::empty() =~= placed(
                sorted,
                item@,
                goes,
            ));
        }
        let mut at: usize = list.len();
        while at > 0 && first(&item, &list[at - 1])
            invariant
                at <= list@.len(),
                sorted == views(list@),
                placed(sorted, item@, goes) == placed(sorted.take(at as int), item@, goes)
                    + sorted.skip(at as int),
                forall|a: &T, b: &T| #[trigger] first.requires((a, b)),
                forall|a: &T, b: &T, r: bool|
                    #[trigger] first.ensures((a, b), r) ==> r == goes((*a)@, (*b)@),
            decreases at,
        {
            proof {
                let here = sorted.take(at as int);
                assert(here.last() == list@[at - 1]@);
                assert(here.drop_last() =~= sorted.take(at - 1));
                assert(placed(sorted.take(at - 1), item@, goes).push(here.last()) + sorted.skip(
                    at as int,
                ) =~= placed(sorted.take(at - 1), item@, goes) + sorted.skip(at - 1));
            }
            at -= 1;
        }
        proof {
            let here = sorted.take(at as int);
            if at > 0 {
                assert(here.last() == list@[at - 1]@);
            }
            assert(placed(here, item@, goes) == here.push(item@));
        }
        let ghost old_list = list@;
        let ghost shown = item@;
        list.insert(at, item);
        proof {
            assert(views(list@) =~= sorted.take(at as int).push(shown) + sorted.skip(at as int));
            done = done + 1;
        }
    }
    proof {
        assert(whole.take(done) =~= whole);
    }
    list
}

/// The wanted items, in the order they had.
pub fn keep<T: View, F: Fn(&T) -> bool>(
    items: Vec<T>,
    wanted: F,
    Ghost(wants): Ghost<spec_fn(T::V) -> bool>,
) -> (list: Vec<T>)
    requires
        forall|a: &T| #[trigger] wanted.requires((a,)),
        forall|a: &T, r: bool| #[trigger] wanted.ensures((a,), r) ==> r == wants((*a)@),
    ensures
        views(list@) == views(items@).filter(wants),
{
    let ghost whole = views(items@);
    let mut list: Vec<T> = Vec::new();
    let mut rest: Vec<T> = items;
    let ghost mut done: int = 0;
    proof {
        reveal(Seq::filter);
        assert(whole.skip(0) =~= whole);
        assert(views(list@) =~= whole.take(0).filter(wants));
    }
    while rest.len() > 0
        invariant
            0 <= done <= whole.len(),
            views(rest@) == whole.skip(done),
            views(list@) == whole.take(done).filter(wants),
            forall|a: &T| #[trigger] wanted.requires((a,)),
            forall|a: &T, r: bool| #[trigger] wanted.ensures((a,), r) ==> r == wants((*a)@),
        decreases rest@.len(),
    {
        let ghost before = views(rest@);
        proof {
            assert(before.len() == rest@.len());
            assert(rest@.len() > 0);
            assert(before == whole.skip(done));
            assert(done < whole.len());
        }
        let item: T = rest.remove(0);
        let ghost kept = views(list@);
        proof {
            reveal(Seq::filter);
            assert(before[0] == item@);
            assert(before[0] == whole[done]);
            assert(views(rest@) =~= before.skip(1));
            assert(views(rest@) =~= whole.skip(done + 1));
            assert(whole.take(done + 1).drop_last() =~= whole.take(done));
            assert(whole.take(done + 1).last() == item@);
        }
        if wanted(&item) {
            let ghost shown = item@;
            list.push(item);
            assert(views(list@) =~= kept.push(shown));
        }
        proof {
            done = done + 1;
        }
    }
    proof {
        assert(views(rest@).len() == rest@.len());
        assert(whole.take(done) =~= whole);
    }
    list
}

/// What the wanted items are: those of the list that are wanted.
pub proof fn lemma_wanted<V>(s: Seq<V>, wants: spec_fn(V) -> bool)
    ensures
        forall|x: V| #[trigger] s.filter(wants).contains(x) <==> s.contains(x) && wants(x),
    decreases s.len(),
{
    reveal(Seq::filter);
    if s.len() > 0 {
        let front = s.drop_last();
        let kept = front.filter(wants);
        lemma_wanted(front, wants);
        assert forall|x: V| #[trigger] s.filter(wants).contains(x) <==> s.contains(x) && wants(
            x,
        ) by {
            assert(kept.contains(x) <==> front.contains(x) && wants(x));
            assert(s.contains(x) <==> front.contains(x) || x == s.last()) by {
                if s.contains(x) {
                    let k = choose|k: int| 0 <= k < s.len() && s[k] == x;
                    if k < front.len() {
                        assert(front[k] == x);
                    }
                }
                if front.contains(x) {
                    let k = choose|k: int| 0 <= k < front.len() && front[k] == x;
                    assert(s[k] == x);
                }
                assert(s[s.len() - 1] == s.last());
            }
            if wants(s.last()) {
                let all = kept.push(s.last());
                assert(all[kept.len() as int] == s.last());
                if kept.contains(x) {
                    let k = choose|k: int| 0 <= k < kept.len() && kept[k] == x;
                    assert(all[k] == x);
                }
                if all.contains(x) && x != s.last() {
                    let k = choose|k: int| 0 <= k < all.len() && all[k] == x;
                    assert(kept[k] == x);
                }
            }
        }
    }
}

/// The order of texts ranks them.
pub proof fn lemma_text_order_ranks()
    ensures
        ranks(|a: Seq<char>, b: Seq<char>| text_before(a, b)),
{
    let goes = |a: Seq<char>, b: Seq<char>| text_before(a, b);
    assert forall|a: Seq<char>, b: Seq<char>| #[trigger] goes(a, b) implies !goes(b, a) by {
        lemma_text_order_total(a, b);
    }
    assert forall|a: Seq<char>, b: Seq<char>, c: Seq<char>|
        #![trigger goes(a, b), goes(b, c)]
        goes(a, c) implies goes(a, b) || goes(b, c) by {
        lemma_text_order_total(a, b);
        lemma_text_order_total(b, c);
        if !goes(a, b) && !goes(b, c) {
            if a != b && b != c {
                lemma_text_order_transitive(c, b, a);
                lemma_text_order_total(a, c);
            } else if a == b && b == c {
                lemma_text_order_total(a, c);
            }
        }
    }
}

/// The texts in order.
pub open spec fn arranged_texts(list: Seq<Seq<char>>) -> Seq<Seq<char>> {
    arranged(list, |a: Seq<char>, b: Seq<char>| text_before(a, b))
}

/// The strings in order.
pub fn arrange_texts(list: Vec<String>) -> (sorted: Vec<String>)
    ensures
        texts(sorted@) == arranged_texts(texts(list@)),
{
    let ghost before = list@;
    let first = |a: &String, b: &String| -> (r: bool)
        ensures
            r == text_before(a@, b@),
        { goes_before(a.as_str(), b.as_str()) };
    let ghost goes = |a: Seq<char>, b: Seq<char>| text_before(a, b);
    let sorted: Vec<String> = arrange(list, first, Ghost(goes));
    proof {
        assert(views(before) =~= texts(before));
        assert(views(sorted@) =~= texts(sorted@));
    }
    sorted
}

/// The texts without repetitions: of equal ones the first stays.
pub open spec fn distinct(list: Seq<Seq<char>>) -> Seq<Seq<char>>
    decreases list.len(),
{
    if list.len() == 0 {
        list
    } else if distinct(list.drop_last()).contains(list.last()) {
        distinct(list.drop_last())
    } else {
        distinct(list.drop_last()).push(list.last())
    }
}

/// Whether `list` holds the text `x`.
pub fn holds(list: &[String], x: &str) -> (found: bool)
    ensures
        found == texts(list@).contains(x@),
{
    let mut i: usize = 0;
    while i < list.len()
        invariant
            i <= list@.len(),
            forall|k: int| 0 <= k < i ==> texts(list@)[k] != x@,
        decreases list@.len() - i,
    {
        if same_text(list[i].as_str(), x) {
            assert(texts(list@)[i as int] == x@);
            return true;
        }
        i += 1;
    }
    false
}

/// Adds a text unless it is there.
pub fn add_distinct(list: &mut Vec<String>, x: String)
    ensures
        texts(final(list)@) == if texts(old(list)@).contains(x@) {
            texts(old(list)@)
        } else {
            texts(old(list)@).push(x@)
        },
{
    let ghost before = texts(list@);
    if !holds(list.as_slice(), x.as_str()) {
        let ghost added = x@;
        list.push(x);
        assert(texts(list@) =~= before.push(added));
    }
}

/// Without repetitions nothing is listed twice, and every text is still listed.
pub proof fn lemma_distinct(list: Seq<Seq<char>>)
    ensures
        distinct(list).no_duplicates(),
        forall|x: Seq<char>| #[trigger] distinct(list).contains(x) == list.contains(x),
    decreases list.len(),
{
    if list.len() > 0 {
        let front = list.drop_last();
        let kept = distinct(front);
        lemma_distinct(front);
        assert forall|x: Seq<char>| #[trigger] distinct(list).contains(x) == list.contains(x) by {
            assert(kept.contains(x) == front.contains(x));
            if list.contains(x) {
                let k = choose|k: int| 0 <= k < list.len() && list[k] == x;
                if k < front.len() {
                    assert(front[k] == x);
                }
            }
            if front.contains(x) {
                let k = choose|k: int| 0 <= k < front.len() && front[k] == x;
                assert(list[k] == x);
            }
            assert(list[list.len() - 1] == list.last());
            if !kept.contains(list.last()) {
                let all = kept.push(list.last());
                assert(all[kept.len() as int] == list.last());
                if kept.contains(x) {
                    let k = choose|k: int| 0 <= k < kept.len() && kept[k] == x;
                    assert(all[k] == x);
                }
                if all.contains(x) && x != list.last() {
                    let k = choose|k: int| 0 <= k < all.len() && all[k] == x;
                    assert(kept[k] == x);
                }
            }
        }
    }
}

} // verus!
