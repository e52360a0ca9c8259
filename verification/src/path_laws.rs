//! Which names are the same path, and which are not.

use vstd::prelude::*;

use crate::path::{
    bytes_of, components, is_component, is_rooted, kept_pieces, lemma_pieces_len,
    lemma_pieces_of_plain_name, path_components, paths_equal, pieces, plain_names_compare_as_bytes,
    same_bytes, same_path,
};

verus! {

/// `names` one after another, with `/` between them.
pub open spec fn joined(names: Seq<Seq<u8>>) -> Seq<u8>
    decreases names.len(),
{
    if names.len() == 0 {
        Seq::empty()
    } else if names.len() == 1 {
        names[0]
    } else {
        joined(names.drop_last()) + seq![47u8] + names.last()
    }
}

/// Whether `names` could be written down as the components of a path: none is empty or holds a `/`,
/// and none is a lone `.` but the first of a relative path.
pub open spec fn is_written_out(rooted: bool, names: Seq<Seq<u8>>) -> bool {
    forall|i: int|
        0 <= i < names.len() ==> {
            &&& #[trigger] names[i].len() > 0
            &&& !names[i].contains(47u8)
            &&& names[i] == seq![46u8] ==> i == 0 && !rooted
        }
}

/// The path that goes by `names`, from the root directory on where it is rooted.
pub open spec fn path_of(rooted: bool, names: Seq<Seq<u8>>) -> Seq<u8> {
    if rooted {
        seq![47u8] + joined(names)
    } else {
        joined(names)
    }
}

proof fn lemma_pieces_of_two(a: Seq<u8>, b: Seq<u8>)
    ensures
        pieces(a + seq![47u8] + b) == pieces(a) + pieces(b),
    decreases b.len(),
{
    let p = a + seq![47u8] + b;
    if b.len() == 0 {
        assert(p.drop_last() =~= a);
        assert(pieces(b) =~= seq![Seq::<u8>::empty()]);
        assert(pieces(p) =~= pieces(a) + pieces(b));
    } else {
        let shorter = b.drop_last();
        assert(p.drop_last() =~= a + seq![47u8] + shorter);
        lemma_pieces_of_two(a, shorter);
        lemma_pieces_len(shorter);
        assert(pieces(p) =~= pieces(a) + pieces(b));
    }
}

proof fn lemma_pieces_of_joined(names: Seq<Seq<u8>>)
    requires
        names.len() > 0,
        forall|i: int| 0 <= i < names.len() ==> !(#[trigger] names[i]).contains(47u8),
    ensures
        pieces(joined(names)) == names,
    decreases names.len(),
{
    if names.len() == 1 {
        lemma_pieces_of_plain_name(names[0]);
        assert(seq![names[0]] =~= names);
    } else {
        let before = names.drop_last();
        assert forall|i: int| 0 <= i < before.len() implies !(#[trigger] before[i]).contains(
            47u8,
        ) by {
            assert(before[i] == names[i]);
        }
        lemma_pieces_of_joined(before);
        lemma_pieces_of_plain_name(names.last());
        lemma_pieces_of_two(joined(before), names.last());
        assert(before + seq![names.last()] =~= names);
    }
}

/// The pieces of a path, with `/` between them, are the path again, and none of them holds a `/`.
pub proof fn pieces_stand_between_separators(p: Seq<u8>)
    ensures
        joined(pieces(p)) == p,
        forall|i: int| 0 <= i < pieces(p).len() ==> !(#[trigger] pieces(p)[i]).contains(47u8),
    decreases p.len(),
{
    if p.len() == 0 {
        assert(joined(pieces(p)) =~= p);
        assert(!Seq::<u8>::empty().contains(47u8));
    } else {
        let before = pieces(p.drop_last());
        pieces_stand_between_separators(p.drop_last());
        lemma_pieces_len(p.drop_last());
        assert(p.drop_last().push(p.last()) =~= p);
        if p.last() == 47u8 {
            assert(pieces(p).drop_last() =~= before);
            assert(joined(pieces(p)) =~= p);
            assert(!Seq::<u8>::empty().contains(47u8));
        } else {
            let grown = before.last().push(p.last());
            assert(pieces(p).drop_last() =~= before.drop_last());
            assert(pieces(p).last() == grown);
            assert(joined(pieces(p)) =~= p);
            assert(!grown.contains(47u8)) by {
                assert(!before[before.len() - 1].contains(47u8));
                if grown.contains(47u8) {
                    let i = choose|i: int| 0 <= i < grown.len() && grown[i] == 47u8;
                    assert(before.last()[i] == 47u8);
                }
            }
            assert forall|i: int| 0 <= i < pieces(p).len() implies !(#[trigger] pieces(
                p,
            )[i]).contains(47u8) by {
                if i < before.len() - 1 {
                    assert(pieces(p)[i] == before[i]);
                }
            }
        }
    }
}

/// Components that are written out are all kept, behind an empty piece or not.
proof fn lemma_written_out_is_kept(rooted: bool, names: Seq<Seq<u8>>)
    requires
        is_written_out(rooted, names),
    ensures
        !rooted ==> kept_pieces(names) == names,
        rooted ==> kept_pieces(seq![Seq::<u8>::empty()] + names) == names,
    decreases names.len(),
{
    if names.len() > 0 {
        let before = names.drop_last();
        assert(is_written_out(rooted, before)) by {
            assert forall|i: int| 0 <= i < before.len() implies {
                &&& #[trigger] before[i].len() > 0
                &&& !before[i].contains(47u8)
                &&& before[i] == seq![46u8] ==> i == 0 && !rooted
            } by {
                assert(before[i] == names[i]);
            }
        }
        lemma_written_out_is_kept(rooted, before);
        assert(names.last() == names[names.len() - 1]);
        assert(before.push(names.last()) =~= names);
        assert((seq![Seq::<u8>::empty()] + names).drop_last() =~= seq![Seq::<u8>::empty()]
            + before);
    } else {
        let one = seq![Seq::<u8>::empty()];
        reveal_with_fuel(kept_pieces, 2);
        assert(one + names =~= one);
        assert(one.drop_last() =~= Seq::<Seq<u8>>::empty());
        assert(kept_pieces(one) =~= names);
        assert(kept_pieces(names) =~= names);
    }
}

proof fn lemma_path_of_has_its_names(rooted: bool, names: Seq<Seq<u8>>)
    requires
        is_written_out(rooted, names),
    ensures
        path_components(path_of(rooted, names)) == names,
        is_rooted(path_of(rooted, names)) == rooted,
{
    let empty = Seq::<u8>::empty();
    lemma_written_out_is_kept(rooted, names);
    if names.len() == 0 {
        reveal_with_fuel(kept_pieces, 3);
        assert(pieces(empty) =~= seq![empty]);
        assert(joined(names) =~= empty);
        assert(seq![empty].drop_last() =~= Seq::<Seq<u8>>::empty());
        if rooted {
            assert(path_of(rooted, names) =~= empty + seq![47u8] + empty);
            lemma_pieces_of_two(empty, empty);
            assert((seq![empty] + seq![empty]).drop_last() =~= seq![empty]);
        }
        assert(path_components(path_of(rooted, names)) =~= names);
    } else {
        assert forall|i: int| 0 <= i < names.len() implies !(#[trigger] names[i]).contains(
            47u8,
        ) by {
            assert(names[i].len() > 0);
        }
        lemma_pieces_of_joined(names);
        if rooted {
            assert(pieces(empty) =~= seq![empty]);
            lemma_pieces_of_two(empty, joined(names));
            assert(path_of(rooted, names) =~= empty + seq![47u8] + joined(names));
        } else {
            lemma_joined_starts_with_first(names);
            assert(names[0].len() > 0);
            assert(names[0].contains(names[0][0]));
        }
    }
}

proof fn lemma_joined_starts_with_first(names: Seq<Seq<u8>>)
    requires
        names.len() > 0,
        names[0].len() > 0,
    ensures
        joined(names).len() > 0,
        joined(names)[0] == names[0][0],
    decreases names.len(),
{
    if names.len() > 1 {
        lemma_joined_starts_with_first(names.drop_last());
    }
}

/// The components of a path that is written out are its names.
pub proof fn a_path_splits_into_its_names(
    rooted: bool,
    names: Seq<Seq<u8>>,
    p: &[u8],
    out: Vec<Vec<u8>>,
)
    requires
        is_written_out(rooted, names),
        p@ == path_of(rooted, names),
        call_ensures(components, (p,), out),
    ensures
        out@.len() == names.len(),
        forall|i: int| 0 <= i < names.len() ==> (#[trigger] out@[i])@ == names[i],
{
    lemma_path_of_has_its_names(rooted, names);
    assert(bytes_of(out@) == names);
    assert forall|i: int| 0 <= i < names.len() implies (#[trigger] out@[i])@ == names[i] by {
        assert(bytes_of(out@)[i] == out@[i]@);
    }
}

/// Two paths that are written out are the same path exactly when they have the same names and both
/// or neither start at the root directory.
pub proof fn written_out_paths_compare_by_names(
    a_rooted: bool,
    a_names: Seq<Seq<u8>>,
    b_rooted: bool,
    b_names: Seq<Seq<u8>>,
    a: &[u8],
    b: &[u8],
    same: bool,
)
    requires
        is_written_out(a_rooted, a_names),
        is_written_out(b_rooted, b_names),
        a@ == path_of(a_rooted, a_names),
        b@ == path_of(b_rooted, b_names),
        call_ensures(paths_equal, (a, b), same),
    ensures
        same <==> a_rooted == b_rooted && a_names == b_names,
{
    lemma_path_of_has_its_names(a_rooted, a_names);
    lemma_path_of_has_its_names(b_rooted, b_names);
}

/// A piece that is empty or a lone `.`, behind another one, is not kept.
proof fn lemma_dropped_piece(s: Seq<Seq<u8>>, x: Seq<u8>, t: Seq<Seq<u8>>)
    requires
        s.len() > 0,
        x.len() == 0 || x == seq![46u8],
    ensures
        kept_pieces(s + seq![x] + t) == kept_pieces(s + t),
    decreases t.len(),
{
    let long = s + seq![x] + t;
    let short = s + t;
    if t.len() == 0 {
        assert(long.drop_last() =~= s);
        assert(short =~= s);
        assert(!is_component(long.len() - 1, x));
    } else {
        let before = t.drop_last();
        assert(long.drop_last() =~= s + seq![x] + before);
        assert(short.drop_last() =~= s + before);
        lemma_dropped_piece(s, x, before);
    }
}

proof fn lemma_inserted_piece(a: Seq<u8>, x: Seq<u8>, b: Seq<u8>)
    requires
        x.len() == 0 || x == seq![46u8],
    ensures
        same_path(a + seq![47u8] + b, a + seq![47u8] + x + seq![47u8] + b),
        a.len() > 0 ==> same_path(a, a + seq![47u8] + x),
{
    let empty = Seq::<Seq<u8>>::empty();
    lemma_pieces_of_two(a, b);
    lemma_pieces_of_two(a, x);
    lemma_pieces_of_two(a + seq![47u8] + x, b);
    assert(!x.contains(47u8)) by {
        if x.contains(47u8) {
            let i = choose|i: int| 0 <= i < x.len() && x[i] == 47u8;
            assert(x == seq![46u8]);
            assert(x[i] == 46u8);
        }
    }
    lemma_pieces_of_plain_name(x);
    lemma_pieces_len(a);
    lemma_dropped_piece(pieces(a), x, pieces(b));
    lemma_dropped_piece(pieces(a), x, empty);
    assert(pieces(a) + seq![x] + empty =~= pieces(a) + seq![x]);
    assert(pieces(a) + empty =~= pieces(a));
}

/// It does not matter whether a path has one separator or two in a place.
pub proof fn doubled_separators_do_not_matter(
    a: Seq<u8>,
    b: Seq<u8>,
    single: &[u8],
    doubled: &[u8],
    same: bool,
)
    requires
        single@ == a + seq![47u8] + b,
        doubled@ == a + seq![47u8, 47u8] + b,
        call_ensures(paths_equal, (single, doubled), same),
    ensures
        same,
{
    let empty = Seq::<u8>::empty();
    lemma_inserted_piece(a, empty, b);
    assert(doubled@ =~= a + seq![47u8] + empty + seq![47u8] + b);
}

/// It does not matter whether a path has a lone `.` behind a separator.
pub proof fn inner_dots_do_not_matter(
    a: Seq<u8>,
    b: Seq<u8>,
    plain: &[u8],
    dotted: &[u8],
    same: bool,
)
    requires
        plain@ == a + seq![47u8] + b,
        dotted@ == a + seq![47u8, 46u8, 47u8] + b,
        call_ensures(paths_equal, (plain, dotted), same),
    ensures
        same,
{
    lemma_inserted_piece(a, seq![46u8], b);
    assert(dotted@ =~= a + seq![47u8] + seq![46u8] + seq![47u8] + b);
}

/// It does not matter whether a path ends in a separator, or in a separator and a lone `.`.
pub proof fn trailing_separators_do_not_matter(
    plain: &[u8],
    ended: &[u8],
    dotted: &[u8],
    same_ended: bool,
    same_dotted: bool,
)
    requires
        plain@.len() > 0,
        ended@ == plain@ + seq![47u8],
        dotted@ == plain@ + seq![47u8, 46u8],
        call_ensures(paths_equal, (plain, ended), same_ended),
        call_ensures(paths_equal, (plain, dotted), same_dotted),
    ensures
        same_ended,
        same_dotted,
{
    let empty = Seq::<u8>::empty();
    lemma_inserted_piece(plain@, empty, empty);
    lemma_inserted_piece(plain@, seq![46u8], empty);
    assert(ended@ =~= plain@ + seq![47u8] + empty);
    assert(dotted@ =~= plain@ + seq![47u8] + seq![46u8]);
}

/// Names without a separator are the same path exactly when they have the same bytes.
pub proof fn plain_names_are_told_apart(a: &[u8], b: &[u8], same: bool)
    requires
        !a@.contains(47u8),
        !b@.contains(47u8),
        call_ensures(paths_equal, (a, b), same),
    ensures
        same <==> a@ == b@,
{
    plain_names_compare_as_bytes(a@, b@);
}

/// Every path is the same as itself, in either order, and as whatever the same path is the same as.
pub proof fn being_the_same_path_is_shared(
    a: &[u8],
    b: &[u8],
    c: &[u8],
    aa: bool,
    ab: bool,
    ba: bool,
    bc: bool,
    ac: bool,
)
    requires
        call_ensures(paths_equal, (a, a), aa),
        call_ensures(paths_equal, (a, b), ab),
        call_ensures(paths_equal, (b, a), ba),
        call_ensures(paths_equal, (b, c), bc),
        call_ensures(paths_equal, (a, c), ac),
    ensures
        aa,
        ab == ba,
        ab && bc ==> ac,
{
}

proof fn lemma_kept_is_written_out(s: Seq<Seq<u8>>)
    requires
        forall|i: int| 0 <= i < s.len() ==> !(#[trigger] s[i]).contains(47u8),
    ensures
        is_written_out(false, kept_pieces(s)),
        s.len() > 0 && s[0].len() == 0 ==> is_written_out(true, kept_pieces(s)),
    decreases s.len(),
{
    if s.len() > 0 {
        let before = s.drop_last();
        assert forall|i: int| 0 <= i < before.len() implies !(#[trigger] before[i]).contains(
            47u8,
        ) by {
            assert(before[i] == s[i]);
        }
        lemma_kept_is_written_out(before);
        assert(!s[s.len() - 1].contains(47u8));
        let kept = kept_pieces(s);
        if s.len() == 1 {
            assert(kept_pieces(before) =~= Seq::<Seq<u8>>::empty());
        } else {
            assert(before[0] == s[0]);
        }
    }
}

/// Every path is the same path as its components written out, from the root directory on where it
/// starts with a separator.
pub proof fn every_path_can_be_written_out(
    p: &[u8],
    out: Vec<Vec<u8>>,
    names: Seq<Seq<u8>>,
    written: &[u8],
    same: bool,
)
    requires
        call_ensures(components, (p,), out),
        names.len() == out@.len(),
        forall|i: int| 0 <= i < out@.len() ==> #[trigger] names[i] == out@[i]@,
        written@ == path_of(p@.len() > 0 && p@[0] == 47, names),
        call_ensures(paths_equal, (p, written), same),
    ensures
        is_written_out(p@.len() > 0 && p@[0] == 47, names),
        same,
{
    let rooted = p@.len() > 0 && p@[0] == 47;
    assert(names =~= bytes_of(out@)) by {
        assert forall|i: int| 0 <= i < out@.len() implies names[i] == bytes_of(out@)[i] by {}
    }
    pieces_stand_between_separators(p@);
    lemma_pieces_len(p@);
    lemma_kept_is_written_out(pieces(p@));
    if rooted {
        let rest = p@.skip(1);
        let empty = Seq::<u8>::empty();
        assert(p@ =~= empty + seq![47u8] + rest);
        lemma_pieces_of_two(empty, rest);
        assert(pieces(empty) =~= seq![empty]);
    }
    lemma_path_of_has_its_names(rooted, names);
}

/// Two strings of bytes are the same where they have one length and the same byte in each place.
pub proof fn bytes_are_compared_one_by_one(a: &[u8], b: &[u8], same: bool)
    requires
        call_ensures(same_bytes, (a, b), same),
    ensures
        same <==> a@.len() == b@.len() && (forall|i: int|
            0 <= i < a@.len() ==> a@[i] == b@[i]),
{
    if a@.len() == b@.len() && (forall|i: int| 0 <= i < a@.len() ==> a@[i] == b@[i]) {
        assert(a@ =~= b@);
    }
}

} // verus!
