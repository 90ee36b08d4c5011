//! What holds of exclude lists, however they are written.
use crate::excludes::{
    entries_of, entry_names, entry_of, escapes, exclude_id, is_usable, leads_out, names,
    normal_excludes, staging_place,
};
use crate::order::{
    distinct, lemma_arranged_contains, lemma_arranged_in_order, lemma_arranged_items,
    lemma_distinct, lemma_text_order_ranks,
};
use crate::paths::{counts, is_absolute, leading_part, named_parts, parts_of, Part};
use crate::text::{
    is_space, joined, lemma_text_order_total, split_at_each, text_before, trim_back, trim_front,
    trimmed,
};
use crate::utils::stripped;
use vstd::prelude::*;

verus! {

/// Whether every text goes before all that follow it.
pub open spec fn strictly_sorted(list: Seq<Seq<char>>) -> bool {
    forall|i: int, j: int|
        0 <= i < j < list.len() ==> text_before(#[trigger] list[i], #[trigger] list[j])
}

/// An exclude list in its normal form is sorted and holds nothing twice, and it holds exactly the
/// entries of the list.
pub proof fn lemma_normal_excludes(excludes: Seq<Seq<char>>)
    ensures
        strictly_sorted(normal_excludes(excludes)),
        forall|entry: Seq<char>| #[trigger]
            normal_excludes(excludes).contains(entry) <==> entries_of(excludes).contains(entry),
{
    let once = distinct(entries_of(excludes));
    let goes = |a: Seq<char>, b: Seq<char>| text_before(a, b);
    let list = normal_excludes(excludes);
    lemma_distinct(entries_of(excludes));
    lemma_text_order_ranks();
    lemma_arranged_items(once, goes);
    lemma_arranged_in_order(once, goes);
    lemma_arranged_contains(once, goes);
    once.lemma_multiset_has_no_duplicates();
    list.lemma_multiset_has_no_duplicates_conv();
    assert forall|i: int, j: int| 0 <= i < j < list.len() implies text_before(
        #[trigger] list[i],
        #[trigger] list[j],
    ) by {
        assert(!goes(list[j], list[i]));
        lemma_text_order_total(list[i], list[j]);
    }
    assert forall|entry: Seq<char>| #[trigger] list.contains(entry) <==> entries_of(
        excludes,
    ).contains(entry) by {
        assert(list.contains(entry) == once.contains(entry));
        assert(once.contains(entry) == entries_of(excludes).contains(entry));
    }
}

/// Sorted lists of the same texts are the same.
proof fn lemma_sorted_lists_agree(a: Seq<Seq<char>>, b: Seq<Seq<char>>)
    requires
        strictly_sorted(a),
        strictly_sorted(b),
        forall|x: Seq<char>| #[trigger] a.contains(x) <==> b.contains(x),
    ensures
        a == b,
    decreases a.len(),
{
    if a.len() == 0 {
        if b.len() > 0 {
            assert(b.contains(b[0]));
            assert(a.contains(b[0]));
        }
        assert(a =~= b);
    } else {
        assert(a.contains(a[a.len() - 1]));
        assert(b.contains(a[a.len() - 1]));
        assert(b.contains(b[b.len() - 1]));
        assert(a.contains(b[b.len() - 1]));
        let x = a.last();
        let y = b.last();
        let i = choose|i: int| 0 <= i < b.len() && b[i] == x;
        let j = choose|j: int| 0 <= j < a.len() && a[j] == y;
        lemma_text_order_total(x, y);
        if x != y {
            assert(i < b.len() - 1 && j < a.len() - 1);
            assert(text_before(b[i], b[b.len() - 1]));
            assert(text_before(a[j], a[a.len() - 1]));
            assert(false);
        }
        let front = a.drop_last();
        let start = b.drop_last();
        assert(strictly_sorted(front)) by {
            assert forall|i: int, j: int| 0 <= i < j < front.len() implies text_before(
                #[trigger] front[i],
                #[trigger] front[j],
            ) by {
                assert(text_before(a[i], a[j]));
            }
        }
        assert(strictly_sorted(start)) by {
            assert forall|i: int, j: int| 0 <= i < j < start.len() implies text_before(
                #[trigger] start[i],
                #[trigger] start[j],
            ) by {
                assert(text_before(b[i], b[j]));
            }
        }
        assert forall|z: Seq<char>| #[trigger] front.contains(z) <==> start.contains(z) by {
            lemma_text_order_total(z, z);
            lemma_front_of_sorted(a, z);
            lemma_front_of_sorted(b, z);
            assert(a.contains(z) <==> b.contains(z));
        }
        lemma_sorted_lists_agree(front, start);
        assert(a =~= front.push(x));
        assert(b =~= start.push(y));
    }
}

proof fn lemma_front_of_sorted(a: Seq<Seq<char>>, z: Seq<char>)
    requires
        strictly_sorted(a),
        a.len() > 0,
    ensures
        a.drop_last().contains(z) <==> a.contains(z) && z != a.last(),
{
    let front = a.drop_last();
    if front.contains(z) {
        let k = choose|k: int| 0 <= k < front.len() && front[k] == z;
        assert(a[k] == z);
        assert(text_before(a[k], a[a.len() - 1]));
        lemma_text_order_total(z, z);
    }
    if a.contains(z) && z != a.last() {
        let k = choose|k: int| 0 <= k < a.len() && a[k] == z;
        assert(front[k] == z);
    }
}

/// Exclude lists that name the same paths have one normal form, one short id and one filtered
/// copy of each snapshot, however they are ordered, repeated or written, and whether or not the
/// destination is written with a slash at its end.
pub proof fn lemma_same_paths_same_copy(
    a: Seq<Seq<char>>,
    b: Seq<Seq<char>>,
    destination: Seq<char>,
    other: Seq<char>,
    name: Seq<char>,
)
    requires
        stripped(destination) == stripped(other),
        forall|entry: Seq<char>| #[trigger]
            entries_of(a).contains(entry) <==> entries_of(b).contains(entry),
    ensures
        normal_excludes(a) == normal_excludes(b),
        exclude_id(normal_excludes(a)) == exclude_id(normal_excludes(b)),
        staging_place(destination, normal_excludes(a), name) == staging_place(
            other,
            normal_excludes(b),
            name,
        ),
{
    lemma_normal_excludes(a);
    lemma_normal_excludes(b);
    assert forall|x: Seq<char>| #[trigger] normal_excludes(a).contains(x) <==> normal_excludes(
        b,
    ).contains(x) by {
        assert(entries_of(a).contains(x) <==> entries_of(b).contains(x));
    }
    lemma_sorted_lists_agree(normal_excludes(a), normal_excludes(b));
}

/// Exclude lists with different short ids have different filtered copies, whatever snapshots they
/// are of.
pub proof fn lemma_different_ids_different_copies(
    a: Seq<Seq<char>>,
    b: Seq<Seq<char>>,
    destination: Seq<char>,
    name: Seq<char>,
    other: Seq<char>,
)
    requires
        exclude_id(a) != exclude_id(b),
        exclude_id(a).len() == exclude_id(b).len(),
    ensures
        staging_place(destination, a, name) != staging_place(destination, b, other),
{
    let start = stripped(destination) + "/.staging"@ + "/"@;
    let (x, y) = (staging_place(destination, a, name), staging_place(destination, b, other));
    let (from, to) = (start.len() as int, (start.len() + exclude_id(a).len()) as int);
    assert(x.subrange(from, to) =~= exclude_id(a));
    assert(y.subrange(from, to) =~= exclude_id(b));
}

/// Whether a name can stand between slashes and names something there.
pub open spec fn is_plain(name: Seq<char>) -> bool {
    counts(name) && name != ".."@ && !name.contains('/')
}

/// What stands between slashes holds none.
proof fn lemma_pieces_have_no_slash(s: Seq<char>)
    ensures
        split_at_each(s, '/').len() > 0,
        forall|i: int|
            0 <= i < split_at_each(s, '/').len() ==> !(#[trigger] split_at_each(
                s,
                '/',
            )[i]).contains('/'),
    decreases s.len(),
{
    s.index_of_first_ensures('/');
    match s.index_of_first('/') {
        Some(k) => {
            let first = s.take(k);
            let rest = split_at_each(s.skip(k + 1), '/');
            lemma_pieces_have_no_slash(s.skip(k + 1));
            let all = split_at_each(s, '/');
            assert forall|i: int| 0 <= i < all.len() implies !(#[trigger] all[i]).contains('/') by {
                if i == 0 {
                    if first.contains('/') {
                        let j = choose|j: int| 0 <= j < first.len() && first[j] == '/';
                        assert(s[j] == '/');
                    }
                } else {
                    assert(all[i] == rest[i - 1]);
                }
            }
        },
        None => {},
    }
}

/// The parts of a path are names that can stand between slashes, where they are names.
proof fn lemma_named_parts_are_plain(pieces: Seq<Seq<char>>)
    requires
        forall|i: int| 0 <= i < pieces.len() ==> !(#[trigger] pieces[i]).contains('/'),
    ensures
        forall|i: int|
            0 <= i < named_parts(pieces).len() ==> ((#[trigger] named_parts(
                pieces,
            )[i]) matches Part::Normal(name) ==> is_plain(name)),
    decreases pieces.len(),
{
    if pieces.len() > 0 {
        let front = pieces.drop_last();
        assert forall|i: int| 0 <= i < front.len() implies !(#[trigger] front[i]).contains('/') by {
            assert(front[i] == pieces[i]);
        }
        lemma_named_parts_are_plain(front);
        assert(pieces[pieces.len() - 1] == pieces.last());
        let all = named_parts(pieces);
        assert forall|i: int| 0 <= i < all.len() implies ((
        #[trigger] all[i]) matches Part::Normal(name) ==> is_plain(name)) by {
            if i < named_parts(front).len() {
                assert(all[i] == named_parts(front)[i]);
            }
        }
    }
}

proof fn lemma_names_are_plain(list: Seq<Part>)
    requires
        forall|i: int|
            0 <= i < list.len() ==> ((#[trigger] list[i]) matches Part::Normal(name) ==> is_plain(
                name,
            )),
    ensures
        forall|i: int| 0 <= i < names(list).len() ==> is_plain(#[trigger] names(list)[i]),
    decreases list.len(),
{
    if list.len() > 0 {
        let front = list.drop_last();
        assert forall|i: int| 0 <= i < front.len() implies ((
        #[trigger] front[i]) matches Part::Normal(name) ==> is_plain(name)) by {
            assert(front[i] == list[i]);
        }
        lemma_names_are_plain(front);
        assert(list[list.len() - 1] == list.last());
        let all = names(list);
        assert forall|i: int| 0 <= i < all.len() implies is_plain(#[trigger] all[i]) by {
            if i < names(front).len() {
                assert(all[i] == names(front)[i]);
            }
        }
    }
}

/// Every name along an exclude entry can stand between slashes, and leads neither up nor nowhere.
proof fn lemma_entry_names_are_plain(raw: Seq<char>)
    ensures
        forall|i: int| 0 <= i < entry_names(raw).len() ==> is_plain(#[trigger] entry_names(raw)[i]),
{
    let path = trimmed(raw);
    let pieces = split_at_each(path, '/');
    lemma_pieces_have_no_slash(path);
    lemma_named_parts_are_plain(pieces);
    let list = parts_of(path);
    let lead = leading_part(path);
    assert forall|i: int| 0 <= i < list.len() implies ((
    #[trigger] list[i]) matches Part::Normal(name) ==> is_plain(name)) by {
        if i >= lead.len() {
            assert(list[i] == named_parts(pieces)[i - lead.len()]);
        } else {
            assert(list[i] == lead[i]);
        }
    }
    lemma_names_are_plain(list);
}

/// A slash and a name without one behind a path add one piece to it.
pub proof fn lemma_split_behind(a: Seq<char>, b: Seq<char>)
    requires
        !b.contains('/'),
    ensures
        split_at_each(a + "/"@ + b, '/') == split_at_each(a, '/').push(b),
    decreases a.len(),
{
    reveal_strlit("/");
    let whole = a + "/"@ + b;
    a.index_of_first_ensures('/');
    whole.index_of_first_ensures('/');
    assert(whole[a.len() as int] == '/');
    match a.index_of_first('/') {
        Some(k) => {
            assert(whole[k] == '/');
            let w = whole.index_of_first('/')->0;
            if w < k {
                assert(a[w] == '/');
            }
            assert(w == k);
            assert(whole.take(k) =~= a.take(k));
            assert(whole.skip(k + 1) =~= a.skip(k + 1) + "/"@ + b);
            lemma_split_behind(a.skip(k + 1), b);
            let first = seq![a.take(k)];
            let rest = split_at_each(a.skip(k + 1), '/');
            assert(first + rest.push(b) =~= (first + rest).push(b));
        },
        None => {
            let w = whole.index_of_first('/')->0;
            if w < a.len() {
                assert(a[w] == '/');
            }
            assert(w == a.len());
            assert(whole.take(w) =~= a);
            assert(whole.skip(w + 1) =~= b);
            b.index_of_first_ensures('/');
            assert(split_at_each(b, '/') =~= seq![b]);
            assert(seq![a] + seq![b] =~= seq![a].push(b));
        },
    }
}

/// Names with slashes between them come apart into the same names.
proof fn lemma_split_of_joined(list: Seq<Seq<char>>)
    requires
        list.len() > 0,
        forall|i: int| 0 <= i < list.len() ==> is_plain(#[trigger] list[i]),
    ensures
        split_at_each(joined(list, "/"@), '/') == list,
    decreases list.len(),
{
    if list.len() == 1 {
        assert(is_plain(list[0]));
        list[0].index_of_first_ensures('/');
        assert(split_at_each(list[0], '/') =~= list);
    } else {
        let front = list.drop_last();
        assert forall|i: int| 0 <= i < front.len() implies is_plain(#[trigger] front[i]) by {
            assert(front[i] == list[i]);
        }
        lemma_split_of_joined(front);
        assert(is_plain(list[list.len() - 1]));
        lemma_split_behind(joined(front, "/"@), list.last());
        assert(front.push(list.last()) =~= list);
    }
}

/// Plain names are the parts that they stand for, and those are the names again.
proof fn lemma_plain_parts(list: Seq<Seq<char>>)
    requires
        forall|i: int| 0 <= i < list.len() ==> is_plain(#[trigger] list[i]),
    ensures
        named_parts(list) == list.map_values(|name: Seq<char>| Part::Normal(name)),
        names(named_parts(list)) == list,
    decreases list.len(),
{
    if list.len() > 0 {
        let front = list.drop_last();
        assert forall|i: int| 0 <= i < front.len() implies is_plain(#[trigger] front[i]) by {
            assert(front[i] == list[i]);
        }
        lemma_plain_parts(front);
        assert(is_plain(list[list.len() - 1]));
        let all = named_parts(list);
        assert(all.drop_last() =~= named_parts(front));
        assert(all =~= list.map_values(|name: Seq<char>| Part::Normal(name)));
        assert(front.push(list.last()) =~= list);
    } else {
        assert(named_parts(list) =~= list.map_values(|name: Seq<char>| Part::Normal(name)));
        assert(names(named_parts(list)) =~= list);
    }
}

/// A usable exclude entry in its normal form is a relative path of plain names: it leads neither
/// to the root directory nor up, so it stays inside the snapshot.
pub proof fn lemma_entries_stay_inside(raw: Seq<char>)
    requires
        is_usable(raw),
    ensures
        parts_of(entry_of(raw)) == entry_names(raw).map_values(
            |name: Seq<char>| Part::Normal(name),
        ),
        !escapes(entry_of(raw)),
        !is_absolute(entry_of(raw)),
        forall|i: int| 0 <= i < entry_names(raw).len() ==> is_plain(#[trigger] entry_names(raw)[i]),
{
    let list = entry_names(raw);
    let entry = entry_of(raw);
    lemma_entry_names_are_plain(raw);
    lemma_split_of_joined(list);
    lemma_plain_parts(list);
    reveal_strlit("");
    reveal_strlit(".");
    assert(is_plain(list[0]));
    let pieces = split_at_each(entry, '/');
    assert(pieces[0] == list[0]);
    if is_absolute(entry) {
        entry.index_of_first_ensures('/');
        assert(entry.contains('/'));
        assert(entry.index_of_first('/') == Some(0int)) by {
            let k = entry.index_of_first('/')->0;
            if k > 0 {
                assert(entry[0] != '/');
            }
        }
        assert(entry.take(0) =~= ""@);
        assert(pieces[0] == entry.take(0));
        assert(false);
    }
    assert(leading_part(entry) =~= Seq::<Part>::empty());
    assert(parts_of(entry) =~= named_parts(list));
}

/// Normalizing an entry that is in its normal form changes nothing. Names with white space at the
/// start or the end of the path are left out: that white space would be trimmed once more.
pub proof fn lemma_entry_idempotent(raw: Seq<char>)
    requires
        is_usable(raw),
        trimmed(entry_of(raw)) == entry_of(raw),
    ensures
        is_usable(entry_of(raw)),
        entry_of(entry_of(raw)) == entry_of(raw),
{
    lemma_entries_stay_inside(raw);
    lemma_entry_names_are_plain(raw);
    lemma_plain_parts(entry_names(raw));
    assert(names(parts_of(entry_of(raw))) == entry_names(raw));
}

proof fn lemma_trim_shortens(s: Seq<char>)
    ensures
        trim_front(s).len() <= s.len(),
        trim_back(s).len() <= s.len(),
    decreases s.len(),
{
    if s.len() > 0 {
        lemma_trim_shortens(s.drop_first());
        lemma_trim_shortens(s.drop_last());
    }
}

/// A text has no white space around it if and only if it neither starts nor ends with any.
proof fn lemma_trimmed(s: Seq<char>)
    requires
        s.len() > 0,
    ensures
        trimmed(s) == s <==> !is_space(s[0]) && !is_space(s.last()),
{
    lemma_trim_shortens(s.drop_first());
    lemma_trim_shortens(s.drop_last());
    lemma_trim_shortens(trim_front(s));
}

proof fn lemma_names_behind_dot(list: Seq<Part>)
    ensures
        names(seq![Part::Current] + list) == names(list),
    decreases list.len(),
{
    let all = seq![Part::Current] + list;
    if list.len() == 0 {
        assert(all.drop_last() =~= list);
    } else {
        lemma_names_behind_dot(list.drop_last());
        assert(all.drop_last() =~= seq![Part::Current] + list.drop_last());
        assert(all.last() == list.last());
    }
}

proof fn lemma_parts_behind_dot(pieces: Seq<Seq<char>>)
    ensures
        named_parts(seq!["."@] + pieces) == named_parts(pieces),
    decreases pieces.len(),
{
    let all = seq!["."@] + pieces;
    if pieces.len() == 0 {
        assert(all.drop_last() =~= pieces);
        assert(all.last() == "."@);
    } else {
        lemma_parts_behind_dot(pieces.drop_last());
        assert(all.drop_last() =~= seq!["."@] + pieces.drop_last());
        assert(all.last() == pieces.last());
    }
}

/// The names along a path that does not start at the root directory, and whether it leads out, are
/// those of its pieces.
pub proof fn lemma_parts_of_relative(path: Seq<char>)
    requires
        !is_absolute(path),
    ensures
        names(parts_of(path)) == names(named_parts(split_at_each(path, '/'))),
        escapes(path) <==> exists|i: int|
            0 <= i < named_parts(split_at_each(path, '/')).len() && leads_out(
                #[trigger] named_parts(split_at_each(path, '/'))[i],
            ),
{
    let lead = leading_part(path);
    let list = named_parts(split_at_each(path, '/'));
    let all = parts_of(path);
    lemma_names_behind_dot(list);
    if lead.len() == 0 {
        assert(all =~= list);
    } else {
        assert(lead =~= seq![Part::Current]);
        assert(all == seq![Part::Current] + list);
    }
    if escapes(path) {
        let i = choose|i: int| 0 <= i < all.len() && leads_out(#[trigger] all[i]);
        assert(i >= lead.len());
        assert(list[i - lead.len()] == all[i]);
    }
    if exists|i: int| 0 <= i < list.len() && leads_out(#[trigger] list[i]) {
        let i = choose|i: int| 0 <= i < list.len() && leads_out(#[trigger] list[i]);
        assert(all[i + lead.len()] == list[i]);
    }
}

/// A `./` before an exclude entry and a `/` behind it make no difference. Entries with white space
/// around them are left out: white space is trimmed only at the ends.
pub proof fn lemma_dot_and_slash_make_no_difference(entry: Seq<char>)
    requires
        is_usable(entry),
        trimmed(entry) == entry,
    ensures
        is_usable("./"@ + entry),
        is_usable(entry + "/"@),
        entry_of("./"@ + entry) == entry_of(entry),
        entry_of(entry + "/"@) == entry_of(entry),
{
    reveal_strlit("./");
    reveal_strlit("/");
    reveal_strlit(".");
    reveal_strlit("");
    let pieces = split_at_each(entry, '/');
    if entry.len() == 0 {
        entry.index_of_first_ensures('/');
        assert(pieces =~= seq![entry]);
        assert(entry =~= ""@);
        assert(named_parts(pieces.drop_last()) =~= Seq::<Part>::empty());
        assert(named_parts(pieces) =~= Seq::<Part>::empty());
        lemma_parts_of_relative(entry);
    }
    lemma_trimmed(entry);
    if is_absolute(entry) {
        assert(parts_of(entry)[0] == Part::Root);
        assert(leads_out(parts_of(entry)[0]));
    }
    lemma_parts_of_relative(entry);

    let behind = entry + "/"@;
    assert(behind =~= entry + "/"@ + ""@);
    lemma_split_behind(entry, ""@);
    lemma_trimmed(behind);
    assert(split_at_each(behind, '/').drop_last() =~= pieces);
    assert(named_parts(split_at_each(behind, '/')) == named_parts(pieces));
    lemma_parts_of_relative(behind);

    let dotted = "./"@ + entry;
    lemma_trimmed(dotted);
    dotted.index_of_first_ensures('/');
    assert(dotted[1] == '/');
    assert(dotted.contains(dotted[1]));
    assert(dotted.index_of_first('/') == Some(1int)) by {
        let k = dotted.index_of_first('/')->0;
        if k == 0 {
            assert(dotted[0] == '.');
        }
    }
    assert(dotted.take(1) =~= "."@);
    assert(dotted.skip(2) =~= entry);
    assert(split_at_each(dotted, '/') =~= seq!["."@] + pieces);
    lemma_parts_behind_dot(pieces);
    lemma_parts_of_relative(dotted);
}

} // verus!
