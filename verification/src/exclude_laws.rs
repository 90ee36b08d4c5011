//! What exclude lists name, and where the copies without what they name go.
use crate::excludes::{
    entries_of, entry_names, entry_of, exclude_fault, exclude_id, hex_of, is_usable, leads_out,
    md5_hex, md5_of, names, normal_excludes, staging_place, ExcludeError,
};
use crate::filters::{lemma_normal_excludes, strictly_sorted};
use crate::paths::{counts, named_parts, part_of, parts_of, Part};
use crate::text::{is_space, joined, split_at_each};
use crate::text_laws::{
    all_space, lemma_joined_determines_the_list, lemma_order_is_by_the_first_difference,
    lemma_split_gives_back, lemma_stripping, lemma_trimming, slashes, smaller_at,
};
use vstd::prelude::*;
use vstd::utf8::encode_utf8;

verus! {

/// The sixteen digits.
pub open spec fn digits() -> Seq<char> {
    seq!['0', '1', '2', '3', '4', '5', '6', '7', '8', '9', 'a', 'b', 'c', 'd', 'e', 'f']
}

/// Bytes are written with two digits each, in their order, the higher half of a byte first.
pub proof fn lemma_hexadecimal(data: Seq<u8>, i: int)
    requires
        0 <= i < data.len(),
    ensures
        hex_of(data).len() == 2 * data.len(),
        hex_of(data)[2 * i] == digits()[data[i] as int / 16],
        hex_of(data)[2 * i + 1] == digits()[data[i] as int % 16],
    decreases data.len(),
{
    let front = data.drop_last();
    if front.len() > 0 {
        lemma_hexadecimal(
            front,
            if i < front.len() {
                i
            } else {
                0
            },
        );
    }
    assert(hex_of(front).len() == 2 * front.len());
    if i < front.len() {
        assert(front[i] == data[i]);
        assert(hex_of(data)[2 * i] == hex_of(front)[2 * i]);
        assert(hex_of(data)[2 * i + 1] == hex_of(front)[2 * i + 1]);
    } else {
        let byte = data.last();
        assert(0 <= byte / 16 < 16 && 0 <= byte % 16 < 16);
        lemma_hex_digit((byte / 16) as int);
        lemma_hex_digit((byte % 16) as int);
    }
}

proof fn lemma_hex_digit(d: int)
    requires
        0 <= d < 16,
    ensures
        crate::excludes::hex_digit(d) == digits()[d],
{
}

/// The digest of a text is that of all its bytes, two digits for each of the bytes of the digest.
pub proof fn lemma_text_digest(text: Seq<char>, i: int)
    requires
        0 <= i < md5_of(encode_utf8(text)).len(),
    ensures
        md5_hex(text)[2 * i] == digits()[md5_of(encode_utf8(text))[i] as int / 16],
        md5_hex(text)[2 * i + 1] == digits()[md5_of(encode_utf8(text))[i] as int % 16],
        md5_hex(text).len() == 2 * md5_of(encode_utf8(text)).len(),
{
    lemma_hexadecimal(md5_of(encode_utf8(text)), i);
}

/// Whether the entries of a list can be told apart when they stand on lines of their own.
pub open spec fn on_lines(list: Seq<Seq<char>>) -> bool {
    forall|i: int|
        0 <= i < list.len() ==> (#[trigger] list[i]).len() > 0 && !list[i].contains('\n')
}

/// The id of an exclude list is made of the digest of a text that holds all of it: splitting the
/// text at its line breaks gives back every entry, so lists that differ have different texts.
/// Entries with line breaks are left out: they can't be told from two.
pub proof fn lemma_id_is_of_the_whole_list(a: Seq<Seq<char>>, b: Seq<Seq<char>>)
    requires
        on_lines(a),
        on_lines(b),
    ensures
        exclude_id(a) == md5_hex(joined(a, seq!['\n'])).take(8),
        a.len() > 0 ==> split_at_each(joined(a, seq!['\n']), '\n') == a,
        a.len() == 0 ==> joined(a, seq!['\n']).len() == 0,
        a != b ==> joined(a, seq!['\n']) != joined(b, seq!['\n']),
{
    reveal_strlit("\n");
    assert("\n"@ =~= seq!['\n']);
    if a.len() > 0 {
        lemma_split_gives_back(a, '\n');
    }
    if a != b {
        lemma_joined_determines_the_list(a, b, '\n');
    }
}

/// A filtered copy is in the directory of its list below `.staging` at the destination, under the
/// name of its snapshot, however many slashes the destination ends with.
pub proof fn lemma_copy_place(
    destination: Seq<char>,
    k: nat,
    list: Seq<Seq<char>>,
    name: Seq<char>,
)
    requires
        destination.len() > 0,
        destination.last() != '/',
    ensures
        staging_place(destination + slashes(k), list, name) == destination + "/.staging/"@
            + exclude_id(list) + "/"@ + name,
{
    reveal_strlit("/.staging");
    reveal_strlit("/.staging/");
    reveal_strlit("/");
    lemma_stripping(destination, k);
    assert("/.staging"@ + "/"@ =~= "/.staging/"@);
    assert(destination + "/.staging"@ + "/"@ =~= destination + "/.staging/"@);
}

/// Whether a piece of a path counts for nothing: an empty one between two slashes, or a dot.
pub open spec fn is_idle(piece: Seq<char>) -> bool {
    piece.len() == 0 || piece == seq!['.']
}

/// Whether a piece of a path leads up.
pub open spec fn leads_up(piece: Seq<char>) -> bool {
    piece == seq!['.', '.']
}

/// Whether no piece holds a slash.
pub open spec fn between_slashes(pieces: Seq<Seq<char>>) -> bool {
    forall|i: int| 0 <= i < pieces.len() ==> !(#[trigger] pieces[i]).contains('/')
}

proof fn lemma_pieces(pieces: Seq<Seq<char>>)
    ensures
        (exists|i: int| 0 <= i < pieces.len() && leads_up(#[trigger] pieces[i])) <==> (exists|
            i: int,
        |
            0 <= i < named_parts(pieces).len() && leads_out(#[trigger] named_parts(pieces)[i])),
        !(exists|i: int| 0 <= i < pieces.len() && leads_up(#[trigger] pieces[i])) ==> names(
            named_parts(pieces),
        ) == pieces.filter(|piece: Seq<char>| !is_idle(piece)),
    decreases pieces.len(),
{
    reveal(Seq::filter);
    reveal_strlit("");
    reveal_strlit(".");
    reveal_strlit("..");
    assert(""@ =~= Seq::<char>::empty());
    assert("."@ =~= seq!['.']);
    assert(".."@ =~= seq!['.', '.']);
    let wants = |piece: Seq<char>| !is_idle(piece);
    let all = named_parts(pieces);
    if pieces.len() > 0 {
        let front = pieces.drop_last();
        let last = pieces.last();
        let before = named_parts(front);
        lemma_pieces(front);
        assert(counts(last) <==> !is_idle(last)) by {
            if last.len() == 0 {
                assert(last =~= ""@);
            }
        }
        assert(leads_up(last) ==> counts(last)) by {
            if leads_up(last) {
                assert(last.len() == 2);
            }
        }
        let up = exists|i: int| 0 <= i < pieces.len() && leads_up(#[trigger] pieces[i]);
        let up_before = exists|i: int| 0 <= i < front.len() && leads_up(#[trigger] front[i]);
        let out = exists|i: int| 0 <= i < all.len() && leads_out(#[trigger] all[i]);
        let out_before = exists|i: int| 0 <= i < before.len() && leads_out(#[trigger] before[i]);
        assert(up <==> up_before || leads_up(last)) by {
            if up {
                let i = choose|i: int| 0 <= i < pieces.len() && leads_up(#[trigger] pieces[i]);
                if i < front.len() {
                    assert(leads_up(front[i]));
                }
            }
            if up_before {
                let i = choose|i: int| 0 <= i < front.len() && leads_up(#[trigger] front[i]);
                assert(leads_up(pieces[i]));
            }
            if leads_up(last) {
                assert(leads_up(pieces[pieces.len() - 1]));
            }
        }
        if counts(last) {
            assert(all == before.push(part_of(last)));
            assert(leads_out(part_of(last)) <==> leads_up(last));
            assert(out <==> out_before || leads_up(last)) by {
                if out {
                    let i = choose|i: int| 0 <= i < all.len() && leads_out(#[trigger] all[i]);
                    if i < before.len() {
                        assert(leads_out(before[i]));
                    }
                }
                if out_before {
                    let i = choose|i: int|
                        0 <= i < before.len() && leads_out(#[trigger] before[i]);
                    assert(leads_out(all[i]));
                }
                if leads_up(last) {
                    assert(leads_out(all[before.len() as int]));
                }
            }
            if !up {
                assert(all.drop_last() =~= before);
                assert(all.last() == Part::Normal(last));
            }
        }
    } else {
        assert(all =~= Seq::<Part>::empty());
        assert(pieces.filter(wants) =~= Seq::<Seq<char>>::empty());
        assert(names(all) =~= Seq::<Seq<char>>::empty());
    }
}

/// An entry is read piece by piece between its slashes, and white space around it is ignored: it is
/// refused if a piece leads up or if no piece names anything, and else its names are its pieces
/// but for dots and empty ones.
pub proof fn lemma_relative_entry(
    before: Seq<char>,
    pieces: Seq<Seq<char>>,
    behind: Seq<char>,
)
    requires
        all_space(before),
        all_space(behind),
        pieces.len() > 0,
        between_slashes(pieces),
        ({
            let path = joined(pieces, seq!['/']);
            &&& path.len() > 0
            &&& path[0] != '/'
            &&& !is_space(path[0])
            &&& !is_space(path.last())
        }),
    ensures
        ({
            let raw = before + joined(pieces, seq!['/']) + behind;
            let up = exists|i: int| 0 <= i < pieces.len() && leads_up(#[trigger] pieces[i]);
            let kept = pieces.filter(|piece: Seq<char>| !is_idle(piece));
            &&& is_usable(raw) <==> !up && kept.len() > 0
            &&& exclude_fault(seq![raw]) == if up {
                Some(ExcludeError::Escaping(0))
            } else if kept.len() == 0 {
                Some(ExcludeError::Empty(0))
            } else {
                None
            }
            &&& !up ==> entry_names(raw) == kept
            &&& !up ==> entry_of(raw) == joined(kept, seq!['/'])
        }),
{
    reveal_strlit("/");
    assert("/"@ =~= seq!['/']);
    let path = joined(pieces, seq!['/']);
    let raw = before + path + behind;
    lemma_trimming(before, path, behind);
    lemma_split_gives_back(pieces, '/');
    lemma_pieces(pieces);
    crate::filters::lemma_parts_of_relative(path);
    assert(seq![raw].drop_last() =~= Seq::<Seq<char>>::empty());
    assert(seq![raw].last() == raw);
    reveal_with_fuel(exclude_fault, 2);
}

/// An entry that starts with a slash is refused: it does not name anything inside the snapshot.
pub proof fn lemma_absolute_entry(before: Seq<char>, path: Seq<char>, behind: Seq<char>)
    requires
        all_space(before),
        all_space(behind),
        path.len() > 0,
        path[0] == '/',
        !is_space(path.last()),
    ensures
        !is_usable(before + path + behind),
        exclude_fault(seq![before + path + behind]) == Some(ExcludeError::Escaping(0)),
{
    let raw = before + path + behind;
    assert(!is_space('/'));
    lemma_trimming(before, path, behind);
    assert(parts_of(path)[0] == Part::Root);
    assert(leads_out(parts_of(path)[0]));
    assert(seq![raw].drop_last() =~= Seq::<Seq<char>>::empty());
    assert(seq![raw].last() == raw);
    reveal_with_fuel(exclude_fault, 2);
}

/// A list is refused for its first entry that can't be used, and for what is wrong with that one
/// alone.
pub proof fn lemma_first_bad_entry(list: Seq<Seq<char>>, at: int)
    requires
        0 <= at <= list.len() <= usize::MAX,
        forall|i: int| 0 <= i < at ==> is_usable(#[trigger] list[i]),
        at < list.len() ==> !is_usable(list[at]),
    ensures
        at == list.len() ==> exclude_fault(list) is None,
        at < list.len() ==> exclude_fault(list) == Some(
            match exclude_fault(seq![list[at]]) {
                Some(ExcludeError::Escaping(_)) => ExcludeError::Escaping(at as usize),
                _ => ExcludeError::Empty(at as usize),
            },
        ),
    decreases list.len(),
{
    if at < list.len() {
        let one = seq![list[at]];
        assert(one.drop_last() =~= Seq::<Seq<char>>::empty());
        assert(one.last() == list[at]);
        reveal_with_fuel(exclude_fault, 2);
    }
    if list.len() > 0 {
        let front = list.drop_last();
        assert forall|i: int| 0 <= i < at && i < front.len() implies is_usable(
            #[trigger] front[i],
        ) by {
            assert(front[i] == list[i]);
        }
        if at < front.len() {
            assert(front[at] == list[at]);
            lemma_first_bad_entry(front, at);
        } else {
            lemma_first_bad_entry(front, front.len() as int);
            if at == list.len() {
                assert(is_usable(list[list.len() - 1]));
            }
        }
    }
}

/// A normalized list holds every entry of the list once, and nothing else, in the order of texts.
pub proof fn lemma_normalized_list(list: Seq<Seq<char>>, i: int, j: int)
    requires
        0 <= i < j < normal_excludes(list).len(),
    ensures
        forall|k: int|
            0 <= k < list.len() ==> normal_excludes(list).contains(entry_of(#[trigger] list[k])),
        exists|k: int| 0 <= k < list.len() && entry_of(#[trigger] list[k]) == normal_excludes(list)[i],
        exists|k: int| smaller_at(normal_excludes(list)[i], normal_excludes(list)[j], k),
        normal_excludes(list)[i] != normal_excludes(list)[j],
{
    let all = normal_excludes(list);
    let entries = entries_of(list);
    lemma_normal_excludes(list);
    lemma_order_is_by_the_first_difference(all[i], all[j]);
    assert(strictly_sorted(all));
    assert forall|k: int| 0 <= k < list.len() implies all.contains(
        entry_of(#[trigger] list[k]),
    ) by {
        assert(entries[k] == entry_of(list[k]));
        assert(entries.contains(entries[k]));
    }
    assert(all.contains(all[i]));
    assert(entries.contains(all[i]));
    let k = choose|k: int| 0 <= k < entries.len() && entries[k] == all[i];
    assert(entry_of(list[k]) == all[i]);
    crate::text::lemma_text_order_total(all[i], all[j]);
}

/// The one entry of a normalized list of one is that of the list.
pub proof fn lemma_normalized_entries(list: Seq<Seq<char>>)
    ensures
        list.len() == 0 <==> normal_excludes(list).len() == 0,
        forall|k: int|
            0 <= k < list.len() ==> normal_excludes(list).contains(entry_of(#[trigger] list[k])),
        forall|entry: Seq<char>| #[trigger]
            normal_excludes(list).contains(entry) ==> exists|k: int|
                0 <= k < list.len() && entry_of(#[trigger] list[k]) == entry,
{
    let all = normal_excludes(list);
    let entries = entries_of(list);
    lemma_normal_excludes(list);
    assert forall|k: int| 0 <= k < list.len() implies all.contains(
        entry_of(#[trigger] list[k]),
    ) by {
        assert(entries[k] == entry_of(list[k]));
        assert(entries.contains(entries[k]));
    }
    assert forall|entry: Seq<char>| #[trigger] all.contains(entry) implies exists|k: int|
        0 <= k < list.len() && entry_of(#[trigger] list[k]) == entry by {
        assert(entries.contains(entry));
        let k = choose|k: int| 0 <= k < entries.len() && entries[k] == entry;
        assert(entry_of(list[k]) == entry);
    }
    if list.len() > 0 {
        assert(all.contains(entry_of(list[0])));
    }
    if all.len() > 0 {
        assert(all.contains(all[0]));
    }
}

} // verus!
