//! Orientations of a pattern and the algebra of the array transformations
//! that realise them.
//!
//! A pattern stores its arrays already oriented; [`delta`] names the
//! transformation that moves the stored arrays from their current
//! orientation to a requested one, and [`apply_delta`] is the mathematical
//! meaning of that transformation on a rectangular array.

use vstd::prelude::*;

verus! {

/// The four orientations of a pattern: quarter turns and the half turn.
#[derive(Clone, Copy, Debug, PartialEq, Eq, Structural)]
pub enum Rotation {
    /// A quarter turn clockwise.
    Clockwise,
    /// A quarter turn counter-clockwise.
    Counter,
    /// The half turn.
    Mirror,
    /// The identity orientation.
    Identity,
}

/// The delta rotation that moves stored arrays from orientation `current`
/// to orientation `requested`.
pub open spec fn delta(current: Rotation, requested: Rotation) -> Rotation {
    match (current, requested) {
        (Rotation::Identity, new) => new,
        (Rotation::Clockwise, Rotation::Identity) => Rotation::Counter,
        (Rotation::Clockwise, Rotation::Clockwise) => Rotation::Identity,
        (Rotation::Clockwise, Rotation::Mirror) => Rotation::Clockwise,
        (Rotation::Clockwise, Rotation::Counter) => Rotation::Mirror,
        (Rotation::Mirror, Rotation::Identity) => Rotation::Mirror,
        (Rotation::Mirror, Rotation::Clockwise) => Rotation::Counter,
        (Rotation::Mirror, Rotation::Mirror) => Rotation::Identity,
        (Rotation::Mirror, Rotation::Counter) => Rotation::Clockwise,
        (Rotation::Counter, Rotation::Identity) => Rotation::Clockwise,
        (Rotation::Counter, Rotation::Clockwise) => Rotation::Mirror,
        (Rotation::Counter, Rotation::Mirror) => Rotation::Counter,
        (Rotation::Counter, Rotation::Counter) => Rotation::Identity,
    }
}

/// Computes [`delta`].
pub fn delta_of(current: Rotation, requested: Rotation) -> (d: Rotation)
    ensures
        d == delta(current, requested),
{
    match (current, requested) {
        (Rotation::Identity, new) => new,
        (Rotation::Clockwise, Rotation::Identity) => Rotation::Counter,
        (Rotation::Clockwise, Rotation::Clockwise) => Rotation::Identity,
        (Rotation::Clockwise, Rotation::Mirror) => Rotation::Clockwise,
        (Rotation::Clockwise, Rotation::Counter) => Rotation::Mirror,
        (Rotation::Mirror, Rotation::Identity) => Rotation::Mirror,
        (Rotation::Mirror, Rotation::Clockwise) => Rotation::Counter,
        (Rotation::Mirror, Rotation::Mirror) => Rotation::Identity,
        (Rotation::Mirror, Rotation::Counter) => Rotation::Clockwise,
        (Rotation::Counter, Rotation::Identity) => Rotation::Clockwise,
        (Rotation::Counter, Rotation::Clockwise) => Rotation::Mirror,
        (Rotation::Counter, Rotation::Mirror) => Rotation::Counter,
        (Rotation::Counter, Rotation::Counter) => Rotation::Identity,
    }
}

/// A non-empty rectangular array: at least one row, at least one column,
/// and all rows of equal length.
pub open spec fn rect(a: Seq<Seq<char>>) -> bool {
    &&& a.len() > 0
    &&& a[0].len() > 0
    &&& forall|y: int| 0 <= y < a.len() ==> #[trigger] a[y].len() == a[0].len()
}

/// Reverses the outer axis (the order of the rows).
pub open spec fn flip_rows(a: Seq<Seq<char>>) -> Seq<Seq<char>> {
    Seq::new(a.len(), |y: int| a[a.len() - 1 - y])
}

/// Reverses the inner axis (each row).
pub open spec fn flip_cols(a: Seq<Seq<char>>) -> Seq<Seq<char>> {
    Seq::new(a.len(), |y: int| Seq::new(a[y].len(), |x: int| a[y][a[y].len() - 1 - x]))
}

/// Swaps the two axes.
pub open spec fn transpose(a: Seq<Seq<char>>) -> Seq<Seq<char>> {
    Seq::new(a[0].len(), |y: int| Seq::new(a.len(), |x: int| a[x][y]))
}

/// A quarter turn clockwise: swap axes, then invert the inner axis.
pub open spec fn rot_cw(a: Seq<Seq<char>>) -> Seq<Seq<char>> {
    flip_cols(transpose(a))
}

/// A quarter turn counter-clockwise: swap axes, then invert the outer axis.
pub open spec fn rot_ccw(a: Seq<Seq<char>>) -> Seq<Seq<char>> {
    flip_rows(transpose(a))
}

/// The half turn: invert both axes.
pub open spec fn rot_mirror(a: Seq<Seq<char>>) -> Seq<Seq<char>> {
    flip_rows(flip_cols(a))
}

/// The array transformation named by a delta rotation.
pub open spec fn apply_delta(a: Seq<Seq<char>>, d: Rotation) -> Seq<Seq<char>> {
    match d {
        Rotation::Clockwise => rot_cw(a),
        Rotation::Counter => rot_ccw(a),
        Rotation::Mirror => rot_mirror(a),
        Rotation::Identity => a,
    }
}

/// Cell-level reading of a clockwise turn on a rectangular array.
pub proof fn lemma_cw_cells(a: Seq<Seq<char>>)
    requires
        rect(a),
    ensures
        rot_cw(a).len() == a[0].len(),
        forall|y: int| 0 <= y < a[0].len() ==> #[trigger] rot_cw(a)[y].len() == a.len(),
        forall|y: int, x: int|
            0 <= y < a[0].len() && 0 <= x < a.len() ==> #[trigger] rot_cw(a)[y][x] == a[a.len()
                - 1 - x][y],
        rect(rot_cw(a)),
{
}

/// Cell-level reading of a counter-clockwise turn on a rectangular array.
pub proof fn lemma_ccw_cells(a: Seq<Seq<char>>)
    requires
        rect(a),
    ensures
        rot_ccw(a).len() == a[0].len(),
        forall|y: int| 0 <= y < a[0].len() ==> #[trigger] rot_ccw(a)[y].len() == a.len(),
        forall|y: int, x: int|
            0 <= y < a[0].len() && 0 <= x < a.len() ==> #[trigger] rot_ccw(a)[y][x] == a[x][a[0].len()
                - 1 - y],
        rect(rot_ccw(a)),
{
}

/// Cell-level reading of the half turn on a rectangular array.
pub proof fn lemma_mirror_cells(a: Seq<Seq<char>>)
    requires
        rect(a),
    ensures
        rot_mirror(a).len() == a.len(),
        forall|y: int| 0 <= y < a.len() ==> #[trigger] rot_mirror(a)[y].len() == a[0].len(),
        forall|y: int, x: int|
            0 <= y < a.len() && 0 <= x < a[0].len() ==> #[trigger] rot_mirror(a)[y][x] == a[a.len()
                - 1 - y][a[0].len() - 1 - x],
        rect(rot_mirror(a)),
{
}

/// A delta rotation of a rectangular array is rectangular again.
pub proof fn lemma_delta_rect(a: Seq<Seq<char>>, d: Rotation)
    requires
        rect(a),
    ensures
        rect(apply_delta(a, d)),
{
    match d {
        Rotation::Clockwise => lemma_cw_cells(a),
        Rotation::Counter => lemma_ccw_cells(a),
        Rotation::Mirror => lemma_mirror_cells(a),
        Rotation::Identity => {},
    }
}

/// Two clockwise quarter turns make the half turn.
pub proof fn lemma_cw_cw_is_mirror(a: Seq<Seq<char>>)
    requires
        rect(a),
    ensures
        rot_cw(rot_cw(a)) == rot_mirror(a),
{
    lemma_cw_cells(a);
    let b = rot_cw(a);
    lemma_cw_cells(b);
    lemma_mirror_cells(a);
    assert(rot_cw(b) =~~= rot_mirror(a));
}

/// The half turn is an involution on the stored arrays.
pub proof fn lemma_mirror_involution(a: Seq<Seq<char>>)
    requires
        rect(a),
    ensures
        rot_mirror(rot_mirror(a)) == a,
{
    lemma_mirror_cells(a);
    let b = rot_mirror(a);
    lemma_mirror_cells(b);
    assert(rot_mirror(b) =~~= a);
}

/// The clockwise quarter turn has order four on the stored arrays.
pub proof fn lemma_clockwise_order_four(a: Seq<Seq<char>>)
    requires
        rect(a),
    ensures
        rot_cw(rot_cw(rot_cw(rot_cw(a)))) == a,
{
    lemma_cw_cw_is_mirror(a);
    lemma_mirror_cells(a);
    lemma_cw_cw_is_mirror(rot_mirror(a));
    lemma_mirror_involution(a);
}

} // verus!
