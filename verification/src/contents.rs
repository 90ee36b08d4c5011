//! What a snapshot holds, and what is left of it without its excluded paths.
use crate::order::lemma_wanted;
use crate::staging::{amount, lemma_removed_in_turn, removed_in_turn, size_of, Tree};
use vstd::prelude::*;

verus! {

/// Something in a snapshot: the names on the way to it, and its size if it is a file.
pub struct Item {
    pub path: Seq<Seq<u8>>,
    pub size: nat,
}

/// Whether something is neither `entry` nor below it.
pub open spec fn apart_from(entry: Seq<Seq<u8>>) -> spec_fn(Item) -> bool {
    |item: Item| !entry.is_prefix_of(item.path)
}

/// The size of what is at `entry` and below it.
pub open spec fn total(items: Seq<Item>, entry: Seq<Seq<u8>>) -> nat
    decreases items.len(),
{
    if items.len() == 0 {
        0
    } else {
        total(items.drop_last(), entry) + if entry.is_prefix_of(items.last().path) {
            items.last().size
        } else {
            0
        }
    }
}

/// Whether this is what is found at `entry`.
pub open spec fn shows(items: Seq<Item>, entry: Seq<Seq<u8>>, found: Option<Tree>) -> bool {
    match found {
        Some(tree) => (exists|i: int|
            0 <= i < items.len() && entry.is_prefix_of((#[trigger] items[i]).path)) && size_of(tree)
            == total(items, entry),
        None => forall|i: int|
            0 <= i < items.len() ==> !entry.is_prefix_of((#[trigger] items[i]).path),
    }
}

/// What is left without the first `n` entries and what is below them.
pub open spec fn without_first(items: Seq<Item>, entries: Seq<Seq<Seq<u8>>>, n: nat) -> Seq<Item>
    decreases n,
{
    if n == 0 {
        items
    } else {
        without_first(items, entries, (n - 1) as nat).filter(apart_from(entries[n - 1]))
    }
}

/// Whether no entry is another one or below it.
pub open spec fn are_apart(entries: Seq<Seq<Seq<u8>>>) -> bool {
    forall|i: int, j: int|
        0 <= i < entries.len() && 0 <= j < entries.len() && i != j
            ==> !(#[trigger] entries[i]).is_prefix_of(#[trigger] entries[j])
}

/// Removing the excluded paths removes them and what is below them, and leaves all else.
pub proof fn lemma_all_else_is_left(items: Seq<Item>, entries: Seq<Seq<Seq<u8>>>, n: nat)
    requires
        n <= entries.len(),
    ensures
        forall|item: Item| #[trigger]
            without_first(items, entries, n).contains(item) <==> items.contains(item) && forall|
                i: int,
            |
                0 <= i < n ==> !(#[trigger] entries[i]).is_prefix_of(item.path),
    decreases n,
{
    if n > 0 {
        let m = (n - 1) as nat;
        let left = without_first(items, entries, m);
        lemma_all_else_is_left(items, entries, m);
        lemma_wanted(left, apart_from(entries[m as int]));
        assert forall|item: Item| #[trigger]
            without_first(items, entries, n).contains(item) <==> items.contains(item) && forall|
                i: int,
            |
                0 <= i < n ==> !(#[trigger] entries[i]).is_prefix_of(item.path) by {
            assert(left.contains(item) <==> items.contains(item) && forall|i: int|
                0 <= i < m ==> !(#[trigger] entries[i]).is_prefix_of(item.path));
            assert(apart_from(entries[m as int])(item) == !entries[m as int].is_prefix_of(
                item.path,
            ));
            assert((forall|i: int|
                0 <= i < n ==> !(#[trigger] entries[i]).is_prefix_of(item.path)) <==> (forall|
                i: int,
            |
                0 <= i < m ==> !(#[trigger] entries[i]).is_prefix_of(item.path))
                && !entries[m as int].is_prefix_of(item.path));
        }
    }
}

/// Two paths on the way to one thing lie on one line.
proof fn lemma_one_line(a: Seq<Seq<u8>>, b: Seq<Seq<u8>>, path: Seq<Seq<u8>>)
    requires
        a.is_prefix_of(path),
        b.is_prefix_of(path),
    ensures
        a.is_prefix_of(b) || b.is_prefix_of(a),
{
    if a.len() <= b.len() {
        assert(a =~= b.subrange(0, a.len() as int));
    } else {
        assert(b =~= a.subrange(0, b.len() as int));
    }
}

/// Removing one entry does not change what is found at another one.
proof fn lemma_others_unchanged(items: Seq<Item>, gone: Seq<Seq<u8>>, entry: Seq<Seq<u8>>)
    requires
        !gone.is_prefix_of(entry),
        !entry.is_prefix_of(gone),
    ensures
        total(items.filter(apart_from(gone)), entry) == total(items, entry),
        forall|item: Item| #[trigger]
            items.contains(item) && entry.is_prefix_of(item.path) ==> items.filter(
                apart_from(gone),
            ).contains(item),
    decreases items.len(),
{
    let wants = apart_from(gone);
    lemma_wanted(items, wants);
    assert forall|item: Item| #[trigger]
        items.contains(item) && entry.is_prefix_of(item.path) implies items.filter(
        wants,
    ).contains(item) by {
        if gone.is_prefix_of(item.path) {
            lemma_one_line(gone, entry, item.path);
        }
        assert(wants(item));
    }
    reveal(Seq::filter);
    if items.len() > 0 {
        let front = items.drop_last();
        let last = items.last();
        lemma_others_unchanged(front, gone, entry);
        if wants(last) {
            let kept = front.filter(wants).push(last);
            assert(kept.drop_last() =~= front.filter(wants));
            assert(items.filter(wants) == kept);
        } else {
            assert(gone.is_prefix_of(last.path));
            if entry.is_prefix_of(last.path) {
                lemma_one_line(gone, entry, last.path);
            }
        }
    }
}

/// Removing the first `n` entries does not change what is found at a later one.
proof fn lemma_later_unchanged(items: Seq<Item>, entries: Seq<Seq<Seq<u8>>>, n: nat, at: int)
    requires
        are_apart(entries),
        n <= at < entries.len(),
    ensures
        total(without_first(items, entries, n), entries[at]) == total(items, entries[at]),
        forall|item: Item| #[trigger]
            items.contains(item) && entries[at].is_prefix_of(item.path) ==> without_first(
                items,
                entries,
                n,
            ).contains(item),
    decreases n,
{
    if n > 0 {
        let left = without_first(items, entries, (n - 1) as nat);
        lemma_later_unchanged(items, entries, (n - 1) as nat, at);
        assert(!entries[n - 1].is_prefix_of(entries[at]));
        assert(!entries[at].is_prefix_of(entries[n - 1]));
        lemma_others_unchanged(left, entries[n - 1], entries[at]);
        assert forall|item: Item| #[trigger]
            items.contains(item) && entries[at].is_prefix_of(item.path) implies without_first(
            items,
            entries,
            n,
        ).contains(item) by {
            assert(left.contains(item));
        }
    }
}

proof fn lemma_same_amount(a: Seq<Option<Tree>>, b: Seq<Option<Tree>>, n: nat)
    requires
        a.len() == b.len(),
        n <= a.len(),
        forall|i: int|
            0 <= i < a.len() ==> match (#[trigger] a[i], #[trigger] b[i]) {
                (Some(x), Some(y)) => size_of(x) == size_of(y),
                (None, None) => true,
                (_, _) => false,
            },
    ensures
        amount(a, n) == amount(b, n),
    decreases n,
{
    if n > 0 {
        lemma_same_amount(a, b, (n - 1) as nat);
        let (x, y) = (a[n - 1], b[n - 1]);
    }
}

/// Removing the excluded paths one after the other removes as much as measuring them all
/// beforehand says. Lists in which an entry is below another one are left out: what is there is
/// measured for both, and removed once.
pub proof fn lemma_removal_is_what_was_measured(
    items: Seq<Item>,
    entries: Seq<Seq<Seq<u8>>>,
    measured: Seq<Option<Tree>>,
    removed: Seq<Option<Tree>>,
)
    requires
        are_apart(entries),
        measured.len() == entries.len(),
        removed.len() == entries.len(),
        forall|i: int|
            0 <= i < entries.len() ==> shows(items, entries[i], #[trigger] measured[i]),
        forall|i: int|
            0 <= i < entries.len() ==> shows(
                without_first(items, entries, i as nat),
                entries[i],
                #[trigger] removed[i],
            ),
    ensures
        removed_in_turn((0, 0), removed) == amount(measured, measured.len()),
{
    assert forall|i: int| 0 <= i < measured.len() implies match (
        #[trigger] measured[i],
        #[trigger] removed[i],
    ) {
        (Some(x), Some(y)) => size_of(x) == size_of(y),
        (None, None) => true,
        (_, _) => false,
    } by {
        let entry = entries[i];
        let left = without_first(items, entries, i as nat);
        lemma_later_unchanged(items, entries, i as nat, i);
        lemma_all_else_is_left(items, entries, i as nat);
        assert(shows(items, entry, measured[i]));
        assert(shows(left, entry, removed[i]));
        if measured[i] is Some {
            let k = choose|k: int|
                0 <= k < items.len() && entry.is_prefix_of((#[trigger] items[k]).path);
            assert(items.contains(items[k]));
            assert(left.contains(items[k]));
            let j = choose|j: int| 0 <= j < left.len() && left[j] == items[k];
            assert(entry.is_prefix_of(left[j].path));
        }
        if removed[i] is Some {
            let k = choose|k: int|
                0 <= k < left.len() && entry.is_prefix_of((#[trigger] left[k]).path);
            assert(left.contains(left[k]));
            assert(items.contains(left[k]));
            let j = choose|j: int| 0 <= j < items.len() && items[j] == left[k];
            assert(entry.is_prefix_of(items[j].path));
        }
    }
    lemma_same_amount(measured, removed, measured.len());
    lemma_removed_in_turn(removed);
}

/// Once the excluded paths are removed nothing is found at them, so removing them again removes
/// nothing.
pub proof fn lemma_second_removal_finds_nothing(
    items: Seq<Item>,
    entries: Seq<Seq<Seq<u8>>>,
    again: Seq<Option<Tree>>,
)
    requires
        again.len() == entries.len(),
        forall|i: int|
            0 <= i < entries.len() ==> shows(
                without_first(items, entries, entries.len()),
                entries[i],
                #[trigger] again[i],
            ),
    ensures
        amount(again, again.len()) == (0nat, 0nat),
{
    let left = without_first(items, entries, entries.len());
    lemma_all_else_is_left(items, entries, entries.len());
    assert forall|i: int| 0 <= i < again.len() implies #[trigger] again[i] is None by {
        assert(shows(left, entries[i], again[i]));
        if again[i] is Some {
            let k = choose|k: int|
                0 <= k < left.len() && entries[i].is_prefix_of((#[trigger] left[k]).path);
            assert(left.contains(left[k]));
        }
    }
    lemma_removed_in_turn(again);
}

} // verus!
