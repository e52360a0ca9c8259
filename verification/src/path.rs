//! Comparing names the way file paths are compared on Unix.
//!
//! A name is a string of bytes. Two names are the same path when they have the same
//! components: repeated separators, trailing separators and `.` components past the first
//! position do not tell names apart.

use vstd::prelude::*;

verus! {

/// The byte `/`, which separates the components of a path.
pub const SEPARATOR: u8 = 47;

/// The byte `.`, which alone names the current directory.
pub const DOT: u8 = 46;

/// What stands between the separators of `p`, empty pieces included.
pub open spec fn pieces(p: Seq<u8>) -> Seq<Seq<u8>>
    decreases p.len(),
{
    if p.len() == 0 {
        seq![Seq::empty()]
    } else {
        let before = pieces(p.drop_last());
        if p.last() == SEPARATOR {
            before.push(Seq::empty())
        } else {
            before.drop_last().push(before.last().push(p.last()))
        }
    }
}

/// Whether the piece at `index` is a component: it is not empty, and it is a lone `.` only where
/// a relative path starts with it.
pub open spec fn is_component(index: int, piece: Seq<u8>) -> bool {
    &&& piece.len() > 0
    &&& piece == seq![DOT] ==> index == 0
}

/// The pieces of `s` that are components, in their order.
pub open spec fn kept_pieces(s: Seq<Seq<u8>>) -> Seq<Seq<u8>>
    decreases s.len(),
{
    if s.len() == 0 {
        Seq::empty()
    } else {
        let before = kept_pieces(s.drop_last());
        if is_component(s.len() - 1, s.last()) {
            before.push(s.last())
        } else {
            before
        }
    }
}

/// The components of the path `p`.
pub open spec fn path_components(p: Seq<u8>) -> Seq<Seq<u8>> {
    kept_pieces(pieces(p))
}

/// Whether `p` starts at the root directory.
pub open spec fn is_rooted(p: Seq<u8>) -> bool {
    p.len() > 0 && p[0] == SEPARATOR
}

/// Whether `a` and `b` are equal as paths.
pub open spec fn same_path(a: Seq<u8>, b: Seq<u8>) -> bool {
    &&& is_rooted(a) == is_rooted(b)
    &&& path_components(a) == path_components(b)
}

/// The byte strings that a vector of vectors holds.
pub open spec fn bytes_of(v: Seq<Vec<u8>>) -> Seq<Seq<u8>> {
    v.map_values(|b: Vec<u8>| b@)
}

pub(crate) proof fn lemma_pieces_len(p: Seq<u8>)
    ensures
        1 <= pieces(p).len() <= p.len() + 1,
    decreases p.len(),
{
    if p.len() > 0 {
        lemma_pieces_len(p.drop_last());
    }
}

pub(crate) proof fn lemma_pieces_of_plain_name(p: Seq<u8>)
    requires
        !p.contains(SEPARATOR),
    ensures
        pieces(p) == seq![p],
    decreases p.len(),
{
    if p.len() > 0 {
        let shorter = p.drop_last();
        assert forall|i: int| 0 <= i < shorter.len() implies shorter[i] != SEPARATOR by {
            assert(shorter[i] == p[i]);
        }
        lemma_pieces_of_plain_name(shorter);
        assert(shorter.push(p.last()) =~= p);
        assert(pieces(p) =~= seq![p]);
    } else {
        assert(p =~= Seq::empty());
    }
}

/// Names without a separator are the same path exactly when they are the same bytes.
pub proof fn plain_names_compare_as_bytes(a: Seq<u8>, b: Seq<u8>)
    requires
        !a.contains(SEPARATOR),
        !b.contains(SEPARATOR),
    ensures
        same_path(a, b) <==> a == b,
{
    lemma_pieces_of_plain_name(a);
    lemma_pieces_of_plain_name(b);
    reveal_with_fuel(kept_pieces, 2);
    assert(seq![a].drop_last() =~= Seq::<Seq<u8>>::empty());
    assert(seq![b].drop_last() =~= Seq::<Seq<u8>>::empty());
    assert(!is_rooted(a) && !is_rooted(b)) by {
        if a.len() > 0 {
            assert(a.contains(a[0]));
        }
        if b.len() > 0 {
            assert(b.contains(b[0]));
        }
    }
    if path_components(a) == path_components(b) {
        if a.len() > 0 {
            assert(path_components(a).len() == 1);
            assert(path_components(a)[0] == a);
            assert(path_components(b)[0] == b);
        } else {
            assert(path_components(b).len() == 0);
            assert(a =~= b);
        }
    }
}

/// Adds `piece`, which stands at `index`, to `out` where it is a component.
fn keep_piece(out: &mut Vec<Vec<u8>>, index: usize, piece: Vec<u8>)
    ensures
        bytes_of(final(out)@) == if is_component(index as int, piece@) {
            bytes_of(old(out)@).push(piece@)
        } else {
            bytes_of(old(out)@)
        },
{
    let lone_dot = piece.len() == 1 && piece[0] == DOT;
    proof {
        assert(lone_dot <==> piece@ =~= seq![DOT]);
    }
    if piece.len() > 0 && (!lone_dot || index == 0) {
        let ghost kept = piece@;
        out.push(piece);
        proof {
            assert(bytes_of(out@) =~= bytes_of(old(out)@).push(kept));
        }
    }
}

/// Splits `p` into its components.
pub fn components(p: &[u8]) -> (out: Vec<Vec<u8>>)
    ensures
        bytes_of(out@) == path_components(p@),
{
    let mut out: Vec<Vec<u8>> = Vec::new();
    let mut piece: Vec<u8> = Vec::new();
    let mut index: usize = 0;
    let mut i: usize = 0;
    proof {
        assert(p@.take(0) =~= Seq::<u8>::empty());
        assert(pieces(p@.take(0)).drop_last() =~= Seq::<Seq<u8>>::empty());
        assert(bytes_of(out@) =~= Seq::<Seq<u8>>::empty());
    }
    while i < p.len()
        invariant
            i <= p@.len(),
            index <= i,
            pieces(p@.take(i as int)).len() == index + 1,
            piece@ == pieces(p@.take(i as int)).last(),
            bytes_of(out@) == kept_pieces(pieces(p@.take(i as int)).drop_last()),
        decreases p@.len() - i,
    {
        let ghost before = pieces(p@.take(i as int));
        let ghost after = pieces(p@.take(i + 1));
        proof {
            assert(p@.take(i + 1).drop_last() =~= p@.take(i as int));
            lemma_pieces_len(p@.take(i + 1));
        }
        if p[i] == SEPARATOR {
            let finished = piece;
            piece = Vec::new();
            proof {
                assert(after.drop_last() =~= before);
            }
            keep_piece(&mut out, index, finished);
            index = index + 1;
        } else {
            piece.push(p[i]);
            proof {
                assert(after.drop_last() =~= before.drop_last());
            }
        }
        i = i + 1;
    }
    proof {
        assert(p@.take(p@.len() as int) =~= p@);
    }
    keep_piece(&mut out, index, piece);
    out
}

/// Whether `a` and `b` hold the same bytes.
pub fn same_bytes(a: &[u8], b: &[u8]) -> (same: bool)
    ensures
        same == (a@ == b@),
{
    if a.len() != b.len() {
        return false;
    }
    let mut i: usize = 0;
    while i < a.len()
        invariant
            a@.len() == b@.len(),
            i <= a@.len(),
            forall|j: int| 0 <= j < i ==> a@[j] == b@[j],
        decreases a@.len() - i,
    {
        if a[i] != b[i] {
            return false;
        }
        i = i + 1;
    }
    proof {
        assert(a@ =~= b@);
    }
    true
}

/// Whether `a` and `b` are equal as paths.
pub fn paths_equal(a: &[u8], b: &[u8]) -> (same: bool)
    ensures
        same == same_path(a@, b@),
{
    let a_rooted = a.len() > 0 && a[0] == SEPARATOR;
    let b_rooted = b.len() > 0 && b[0] == SEPARATOR;
    if a_rooted != b_rooted {
        return false;
    }
    let ac = components(a);
    let bc = components(b);
    if ac.len() != bc.len() {
        proof {
            assert(bytes_of(ac@).len() != bytes_of(bc@).len());
        }
        return false;
    }
    let mut i: usize = 0;
    while i < ac.len()
        invariant
            ac@.len() == bc@.len(),
            i <= ac@.len(),
            bytes_of(ac@) == path_components(a@),
            bytes_of(bc@) == path_components(b@),
            forall|j: int| 0 <= j < i ==> bytes_of(ac@)[j] == bytes_of(bc@)[j],
        decreases ac@.len() - i,
    {
        if !same_bytes(ac[i].as_slice(), bc[i].as_slice()) {
            proof {
                assert(bytes_of(ac@)[i as int] != bytes_of(bc@)[i as int]);
            }
            return false;
        }
        i = i + 1;
    }
    proof {
        assert(bytes_of(ac@) =~= bytes_of(bc@));
    }
    true
}

} // verus!
