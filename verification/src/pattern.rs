//! The `find` / `replace` pair of oriented symbol arrays.
//!
//! A pattern is value-typed: rotating it builds a fresh pattern whose stored
//! arrays already reflect the requested orientation, and whose `current` tag
//! records it.  The stored pattern is never mutated during a search.

use vstd::prelude::*;

use crate::error::ConstructionError;
use crate::rotation::Rotation;
use crate::rotation::apply_delta;
use crate::rotation::delta;
use crate::rotation::delta_of;
use crate::rotation::lemma_ccw_cells;
use crate::rotation::lemma_clockwise_order_four;
use crate::rotation::lemma_cw_cells;
use crate::rotation::lemma_delta_rect;
use crate::rotation::lemma_mirror_cells;
use crate::rotation::lemma_mirror_involution;
use crate::rotation::rect;
use crate::rotation::rot_ccw;
use crate::rotation::rot_cw;
use crate::rotation::rot_mirror;

verus! {

/// The mathematical content of a pattern: the two oriented arrays and the
/// orientation tag that they already reflect.
#[verifier::ext_equal]
pub ghost struct PatternView {
    pub find: Seq<Seq<char>>,
    pub replace: Seq<Seq<char>>,
    pub current: Rotation,
}

impl PatternView {
    /// Both arrays are rectangular and share their dimensions.
    pub open spec fn wf(self) -> bool {
        &&& rect(self.find)
        &&& rect(self.replace)
        &&& self.replace.len() == self.find.len()
        &&& self.replace[0].len() == self.find[0].len()
    }

    /// Rows of the arrays.
    pub open spec fn height(self) -> int {
        self.find.len() as int
    }

    /// Columns of the arrays.
    pub open spec fn width(self) -> int {
        self.find[0].len() as int
    }

    /// The pattern oriented to `requested`: both arrays transformed by the
    /// delta from `current` to `requested`, and the tag updated.
    pub open spec fn rotate(self, requested: Rotation) -> PatternView {
        PatternView {
            find: apply_delta(self.find, delta(self.current, requested)),
            replace: apply_delta(self.replace, delta(self.current, requested)),
            current: requested,
        }
    }
}

/// The arrays of symbols to find matches and apply replacements.
#[derive(Debug)]
pub struct Pattern {
    pub find: Vec<Vec<char>>,
    pub replace: Vec<Vec<char>>,
    pub current: Rotation,
}

impl View for Pattern {
    type V = PatternView;

    open spec fn view(&self) -> PatternView {
        PatternView {
            find: self.find.deep_view(),
            replace: self.replace.deep_view(),
            current: self.current,
        }
    }
}

impl DeepView for Pattern {
    type V = PatternView;

    open spec fn deep_view(&self) -> PatternView {
        self.view()
    }
}

/// Number of rows of an array, as its deep view sees it.
pub(crate) fn nrows(a: &Vec<Vec<char>>) -> (n: usize)
    ensures
        n == a.deep_view().len(),
{
    a.len()
}

/// Length of row `y` of an array, as its deep view sees it.
pub(crate) fn ncols_at(a: &Vec<Vec<char>>, y: usize) -> (n: usize)
    requires
        y < a.deep_view().len(),
    ensures
        n == a.deep_view()[y as int].len(),
{
    proof {
        assert(a.deep_view()[y as int] == a@[y as int].deep_view());
    }
    let row: &Vec<char> = &a[y];
    row.len()
}

/// Reads one cell of an array, as its deep view sees it.
pub(crate) fn cell(a: &Vec<Vec<char>>, y: usize, x: usize) -> (c: char)
    requires
        y < a.deep_view().len(),
        x < a.deep_view()[y as int].len(),
    ensures
        c == a.deep_view()[y as int][x as int],
{
    proof {
        assert(a.deep_view()[y as int] == a@[y as int].deep_view());
        assert(a@[y as int].deep_view()[x as int] == a@[y as int]@[x as int]);
    }
    let row: &Vec<char> = &a[y];
    row[x]
}

/// Appends a row to an array, extending its deep view by the row's view.
pub(crate) fn push_row(out: &mut Vec<Vec<char>>, row: Vec<char>)
    ensures
        final(out).deep_view() == old(out).deep_view().push(row@),
{
    let ghost orow = row@;
    let ghost before = out.deep_view();
    out.push(row);
    proof {
        assert(out.deep_view() =~~= before.push(orow));
    }
}

/// Copies a symbol array cell by cell.
pub(crate) fn clone_grid(a: &Vec<Vec<char>>) -> (r: Vec<Vec<char>>)
    ensures
        r.deep_view() == a.deep_view(),
{
    let ghost av = a.deep_view();
    let h = nrows(a);
    let mut out: Vec<Vec<char>> = Vec::new();
    let mut y: usize = 0;
    while y < h
        invariant
            y <= h,
            h == av.len(),
            av == a.deep_view(),
            out.deep_view() == av.take(y as int),
        decreases h - y,
    {
        let w = ncols_at(a, y);
        let mut row: Vec<char> = Vec::new();
        let mut x: usize = 0;
        while x < w
            invariant
                x <= w,
                y < h,
                h == av.len(),
                w == av[y as int].len(),
                av == a.deep_view(),
                row@ == av[y as int].take(x as int),
            decreases w - x,
        {
            row.push(cell(a, y, x));
            proof {
                assert(row@ =~= av[y as int].take(x as int + 1));
            }
            x += 1;
        }
        proof {
            assert(row@ =~= av[y as int]);
        }
        push_row(&mut out, row);
        proof {
            assert(out.deep_view() =~= av.take(y as int + 1));
        }
        y += 1;
    }
    proof {
        assert(out.deep_view() =~= av);
    }
    out
}

/// Decides whether two symbol arrays hold the same rows of the same cells.
pub(crate) fn grids_equal(a: &Vec<Vec<char>>, b: &Vec<Vec<char>>) -> (r: bool)
    ensures
        r <==> a.deep_view() == b.deep_view(),
{
    let ghost av = a.deep_view();
    let ghost bv = b.deep_view();
    let ha = nrows(a);
    let hb = nrows(b);
    if ha != hb {
        return false;
    }
    let mut y: usize = 0;
    while y < ha
        invariant
            y <= ha,
            ha == av.len(),
            ha == bv.len(),
            av == a.deep_view(),
            bv == b.deep_view(),
            forall|i: int| 0 <= i < y ==> #[trigger] av[i] == bv[i],
        decreases ha - y,
    {
        let wa = ncols_at(a, y);
        let wb = ncols_at(b, y);
        if wa != wb {
            return false;
        }
        let mut x: usize = 0;
        while x < wa
            invariant
                x <= wa,
                y < ha,
                ha == av.len(),
                ha == bv.len(),
                wa == av[y as int].len(),
                wa == bv[y as int].len(),
                av == a.deep_view(),
                bv == b.deep_view(),
                forall|j: int| 0 <= j < x ==> av[y as int][j] == bv[y as int][j],
            decreases wa - x,
        {
            if cell(a, y, x) != cell(b, y, x) {
                return false;
            }
            x += 1;
        }
        proof {
            assert(av[y as int] =~= bv[y as int]);
        }
        y += 1;
    }
    proof {
        assert(av =~~= bv);
    }
    true
}

/// Decides whether an array is non-empty rectangular.
fn is_rect(a: &Vec<Vec<char>>) -> (r: bool)
    ensures
        r == rect(a.deep_view()),
{
    let ghost av = a.deep_view();
    let h = nrows(a);
    if h == 0 {
        return false;
    }
    let w = ncols_at(a, 0);
    if w == 0 {
        return false;
    }
    let mut y: usize = 0;
    while y < h
        invariant
            y <= h,
            h == av.len(),
            h > 0,
            w == av[0].len(),
            w > 0,
            av == a.deep_view(),
            forall|i: int| 0 <= i < y ==> #[trigger] av[i].len() == w,
        decreases h - y,
    {
        if ncols_at(a, y) != w {
            return false;
        }
        y += 1;
    }
    true
}

/// Rotates an array a quarter turn clockwise.
fn grid_cw(a: &Vec<Vec<char>>) -> (r: Vec<Vec<char>>)
    requires
        rect(a.deep_view()),
    ensures
        r.deep_view() == rot_cw(a.deep_view()),
{
    let ghost av = a.deep_view();
    proof {
        lemma_cw_cells(av);
    }
    let h = nrows(a);
    let w = ncols_at(a, 0);
    let mut out: Vec<Vec<char>> = Vec::new();
    let mut y: usize = 0;
    while y < w
        invariant
            y <= w,
            h == av.len(),
            w == av[0].len(),
            rect(av),
            av == a.deep_view(),
            rot_cw(av).len() == w,
            forall|i: int| 0 <= i < w ==> #[trigger] rot_cw(av)[i].len() == h,
            forall|i: int, j: int|
                0 <= i < w && 0 <= j < h ==> #[trigger] rot_cw(av)[i][j] == av[h - 1 - j][i],
            out.deep_view() == rot_cw(av).take(y as int),
        decreases w - y,
    {
        let mut row: Vec<char> = Vec::new();
        let mut x: usize = 0;
        while x < h
            invariant
                x <= h,
                y < w,
                h == av.len(),
                w == av[0].len(),
                rect(av),
                av == a.deep_view(),
                forall|i: int, j: int|
                    0 <= i < w && 0 <= j < h ==> #[trigger] rot_cw(av)[i][j] == av[h - 1 - j][i],
                row@ == rot_cw(av)[y as int].take(x as int),
                rot_cw(av)[y as int].len() == h,
            decreases h - x,
        {
            row.push(cell(a, h - 1 - x, y));
            proof {
                assert(row@ =~= rot_cw(av)[y as int].take(x as int + 1));
            }
            x += 1;
        }
        proof {
            assert(row@ =~= rot_cw(av)[y as int]);
        }
        push_row(&mut out, row);
        proof {
            assert(out.deep_view() =~= rot_cw(av).take(y as int + 1));
        }
        y += 1;
    }
    proof {
        assert(out.deep_view() =~= rot_cw(av));
    }
    out
}

/// Rotates an array a quarter turn counter-clockwise.
fn grid_ccw(a: &Vec<Vec<char>>) -> (r: Vec<Vec<char>>)
    requires
        rect(a.deep_view()),
    ensures
        r.deep_view() == rot_ccw(a.deep_view()),
{
    let ghost av = a.deep_view();
    proof {
        lemma_ccw_cells(av);
    }
    let h = nrows(a);
    let w = ncols_at(a, 0);
    let mut out: Vec<Vec<char>> = Vec::new();
    let mut y: usize = 0;
    while y < w
        invariant
            y <= w,
            h == av.len(),
            w == av[0].len(),
            rect(av),
            av == a.deep_view(),
            rot_ccw(av).len() == w,
            forall|i: int| 0 <= i < w ==> #[trigger] rot_ccw(av)[i].len() == h,
            forall|i: int, j: int|
                0 <= i < w && 0 <= j < h ==> #[trigger] rot_ccw(av)[i][j] == av[j][w - 1 - i],
            out.deep_view() == rot_ccw(av).take(y as int),
        decreases w - y,
    {
        let mut row: Vec<char> = Vec::new();
        let mut x: usize = 0;
        while x < h
            invariant
                x <= h,
                y < w,
                h == av.len(),
                w == av[0].len(),
                rect(av),
                av == a.deep_view(),
                forall|i: int, j: int|
                    0 <= i < w && 0 <= j < h ==> #[trigger] rot_ccw(av)[i][j] == av[j][w - 1 - i],
                row@ == rot_ccw(av)[y as int].take(x as int),
                rot_ccw(av)[y as int].len() == h,
            decreases h - x,
        {
            row.push(cell(a, x, w - 1 - y));
            proof {
                assert(row@ =~= rot_ccw(av)[y as int].take(x as int + 1));
            }
            x += 1;
        }
        proof {
            assert(row@ =~= rot_ccw(av)[y as int]);
        }
        push_row(&mut out, row);
        proof {
            assert(out.deep_view() =~= rot_ccw(av).take(y as int + 1));
        }
        y += 1;
    }
    proof {
        assert(out.deep_view() =~= rot_ccw(av));
    }
    out
}

/// Rotates an array a half turn.
fn grid_mirror(a: &Vec<Vec<char>>) -> (r: Vec<Vec<char>>)
    requires
        rect(a.deep_view()),
    ensures
        r.deep_view() == rot_mirror(a.deep_view()),
{
    let ghost av = a.deep_view();
    proof {
        lemma_mirror_cells(av);
    }
    let h = nrows(a);
    let w = ncols_at(a, 0);
    let mut out: Vec<Vec<char>> = Vec::new();
    let mut y: usize = 0;
    while y < h
        invariant
            y <= h,
            h == av.len(),
            w == av[0].len(),
            rect(av),
            av == a.deep_view(),
            rot_mirror(av).len() == h,
            forall|i: int| 0 <= i < h ==> #[trigger] rot_mirror(av)[i].len() == w,
            forall|i: int, j: int|
                0 <= i < h && 0 <= j < w ==> #[trigger] rot_mirror(av)[i][j] == av[h - 1 - i][w - 1
                    - j],
            out.deep_view() == rot_mirror(av).take(y as int),
        decreases h - y,
    {
        let mut row: Vec<char> = Vec::new();
        let mut x: usize = 0;
        while x < w
            invariant
                x <= w,
                y < h,
                h == av.len(),
                w == av[0].len(),
                rect(av),
                av == a.deep_view(),
                forall|i: int, j: int|
                    0 <= i < h && 0 <= j < w ==> #[trigger] rot_mirror(av)[i][j] == av[h - 1 - i][w
                        - 1 - j],
                row@ == rot_mirror(av)[y as int].take(x as int),
                rot_mirror(av)[y as int].len() == w,
            decreases w - x,
        {
            row.push(cell(a, h - 1 - y, w - 1 - x));
            proof {
                assert(row@ =~= rot_mirror(av)[y as int].take(x as int + 1));
            }
            x += 1;
        }
        proof {
            assert(row@ =~= rot_mirror(av)[y as int]);
        }
        push_row(&mut out, row);
        proof {
            assert(out.deep_view() =~= rot_mirror(av).take(y as int + 1));
        }
        y += 1;
    }
    proof {
        assert(out.deep_view() =~= rot_mirror(av));
    }
    out
}

impl Pattern {
    /// Builds a pattern in the identity orientation from two equal-shaped,
    /// non-empty rectangular arrays.
    pub fn new(find: Vec<Vec<char>>, replace: Vec<Vec<char>>) -> (r: Result<
        Pattern,
        ConstructionError,
    >)
        ensures
            match r {
                Ok(p) => {
                    &&& p@.wf()
                    &&& p@.find == find.deep_view()
                    &&& p@.replace == replace.deep_view()
                    &&& p@.current == Rotation::Identity
                },
                Err(ConstructionError::EmptyPattern) => {
                    ||| find.deep_view().len() == 0
                    ||| replace.deep_view().len() == 0
                    ||| find.deep_view().len() > 0 && find.deep_view()[0].len() == 0
                    ||| replace.deep_view().len() > 0 && replace.deep_view()[0].len() == 0
                },
                Err(ConstructionError::ShapeMismatch) => !(PatternView {
                    find: find.deep_view(),
                    replace: replace.deep_view(),
                    current: Rotation::Identity,
                }).wf(),
                Err(_) => false,
            },
            r is Ok <==> (PatternView {
                find: find.deep_view(),
                replace: replace.deep_view(),
                current: Rotation::Identity,
            }).wf(),
    {
        if nrows(&find) == 0 || nrows(&replace) == 0 {
            return Err(ConstructionError::EmptyPattern);
        }
        if ncols_at(&find, 0) == 0 || ncols_at(&replace, 0) == 0 {
            return Err(ConstructionError::EmptyPattern);
        }
        if !is_rect(&find) || !is_rect(&replace) {
            return Err(ConstructionError::ShapeMismatch);
        }
        if nrows(&find) != nrows(&replace) || ncols_at(&find, 0) != ncols_at(&replace, 0) {
            return Err(ConstructionError::ShapeMismatch);
        }
        Ok(Pattern { find, replace, current: Rotation::Identity })
    }

    /// Returns this pattern oriented to `requested`, per the delta algebra:
    /// both stored arrays are transformed together and the tag is updated.
    pub fn rotate(&self, requested: Rotation) -> (p: Pattern)
        requires
            self@.wf(),
        ensures
            p@ == self@.rotate(requested),
            p@.wf(),
    {
        let d = delta_of(self.current, requested);
        proof {
            lemma_rotated_dims(self@.find, self@.replace, d);
        }
        let (f, r) = match d {
            Rotation::Clockwise => (grid_cw(&self.find), grid_cw(&self.replace)),
            Rotation::Counter => (grid_ccw(&self.find), grid_ccw(&self.replace)),
            Rotation::Mirror => (grid_mirror(&self.find), grid_mirror(&self.replace)),
            Rotation::Identity => (clone_grid(&self.find), clone_grid(&self.replace)),
        };
        let p = Pattern { find: f, replace: r, current: requested };
        proof {
            assert(p@ =~~= self@.rotate(requested));
        }
        p
    }
}

/// Arrays of equal dimensions keep equal dimensions under the same delta.
proof fn lemma_rotated_dims(f: Seq<Seq<char>>, r: Seq<Seq<char>>, d: Rotation)
    requires
        rect(f),
        rect(r),
        r.len() == f.len(),
        r[0].len() == f[0].len(),
    ensures
        apply_delta(r, d).len() == apply_delta(f, d).len(),
        apply_delta(r, d)[0].len() == apply_delta(f, d)[0].len(),
        rect(apply_delta(f, d)),
        rect(apply_delta(r, d)),
{
    lemma_delta_rect(f, d);
    lemma_delta_rect(r, d);
    match d {
        Rotation::Clockwise => {
            lemma_cw_cells(f);
            lemma_cw_cells(r);
        },
        Rotation::Counter => {
            lemma_ccw_cells(f);
            lemma_ccw_cells(r);
        },
        Rotation::Mirror => {
            lemma_mirror_cells(f);
            lemma_mirror_cells(r);
        },
        Rotation::Identity => {},
    }
}

impl Clone for Pattern {
    /// The copy has the same view: same arrays, same orientation tag.
    fn clone(&self) -> (r: Self)
        ensures
            r@ == self@,
    {
        let p = Pattern {
            find: clone_grid(&self.find),
            replace: clone_grid(&self.replace),
            current: self.current,
        };
        proof {
            assert(p@ =~~= self@);
        }
        p
    }
}

/// The four rotations form the symmetry group of the square: from the
/// identity orientation, rotating to `Mirror` and then back to `Identity`
/// applies the half turn twice, and the cycle through `Clockwise`,
/// `Mirror`, `Counter` and `Identity` applies the quarter turn four
/// times; either way the stored arrays return to where they began.
pub proof fn lemma_rotation_group(p: PatternView)
    requires
        p.wf(),
        p.current == Rotation::Identity,
    ensures
        p.rotate(Rotation::Mirror).rotate(Rotation::Identity) == p,
        p.rotate(Rotation::Clockwise).rotate(Rotation::Mirror).rotate(Rotation::Counter).rotate(
            Rotation::Identity,
        ) == p,
{
    lemma_mirror_involution(p.find);
    lemma_mirror_involution(p.replace);
    lemma_clockwise_order_four(p.find);
    lemma_clockwise_order_four(p.replace);
    assert(p.rotate(Rotation::Mirror).rotate(Rotation::Identity) =~~= p);
    assert(p.rotate(Rotation::Clockwise).rotate(Rotation::Mirror).rotate(Rotation::Counter).rotate(
        Rotation::Identity,
    ) =~~= p);
}

/// Rotating preserves well-formedness: both arrays stay rectangular and
/// keep equal dimensions.
pub proof fn lemma_rotate_wf(p: PatternView, requested: Rotation)
    requires
        p.wf(),
    ensures
        p.rotate(requested).wf(),
{
    lemma_rotated_dims(p.find, p.replace, delta(p.current, requested));
}

/// Rotating a pattern to an orientation it already has changes nothing:
/// the delta from an orientation to itself is the identity, so a second
/// `rotate` to the same orientation returns the same pattern.
pub proof fn lemma_rotate_idempotent(p: PatternView, requested: Rotation)
    ensures
        p.rotate(requested).rotate(requested) == p.rotate(requested),
{
    assert(delta(requested, requested) == Rotation::Identity);
}

} // verus!
