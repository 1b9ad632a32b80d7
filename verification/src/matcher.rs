//! Enumeration of every `(position, rotation)` placement where a pattern's
//! `find` array matches the grid, under a rule's symmetry set.
//!
//! The output order is row-major by position with rotations innermost, and
//! a rotation whose `find` array equals the unrotated one is skipped so a
//! shape symmetric under a rotation is not reported twice.

use vstd::prelude::*;

use crate::grid::Grid;
use crate::grid::fits_at;
use crate::grid::replace_cells_ok;
use crate::pattern::Pattern;
use crate::pattern::PatternView;
use crate::pattern::grids_equal;
use crate::rotation::Rotation;
use crate::rotation::delta;
use crate::rotation::lemma_ccw_cells;
use crate::rotation::lemma_cw_cells;
use crate::rotation::lemma_mirror_cells;

verus! {

/// Which rotations of a rule's pattern are enumerated against the grid.
#[derive(Clone, Copy, Debug, PartialEq, Eq, Structural)]
pub enum Symmetry {
    /// All four rotations.
    Default,
    /// An explicit set of axes: `x` adds the identity and the half turn,
    /// `y` adds the two quarter turns; an empty set means identity only.
    Axes { x: bool, y: bool },
}

/// The rotation set a symmetry selects, in enumeration order.
pub open spec fn rotations_for(s: Symmetry) -> Seq<Rotation> {
    match s {
        Symmetry::Default => seq![
            Rotation::Identity,
            Rotation::Clockwise,
            Rotation::Mirror,
            Rotation::Counter,
        ],
        Symmetry::Axes { x, y } => {
            let base = (if x {
                seq![Rotation::Identity, Rotation::Mirror]
            } else {
                Seq::empty()
            }) + (if y {
                seq![Rotation::Clockwise, Rotation::Counter]
            } else {
                Seq::empty()
            });
            if base.len() == 0 {
                seq![Rotation::Identity]
            } else {
                base
            }
        },
    }
}

/// Computes [`rotations_for`].
pub fn rotation_set(s: Symmetry) -> (v: Vec<Rotation>)
    ensures
        v@ == rotations_for(s),
{
    let mut v: Vec<Rotation> = Vec::new();
    match s {
        Symmetry::Default => {
            v.push(Rotation::Identity);
            v.push(Rotation::Clockwise);
            v.push(Rotation::Mirror);
            v.push(Rotation::Counter);
        },
        Symmetry::Axes { x, y } => {
            if x {
                v.push(Rotation::Identity);
                v.push(Rotation::Mirror);
            }
            if y {
                v.push(Rotation::Clockwise);
                v.push(Rotation::Counter);
            }
            if v.len() == 0 {
                v.push(Rotation::Identity);
            }
        },
    }
    proof {
        assert(v@ =~= rotations_for(s));
    }
    v
}

/// One discovered application site: an already-rotated pattern and the
/// grid position of its top left corner.
#[derive(Debug)]
pub struct Match {
    /// The rotated pattern that fits there.
    pub pattern: Pattern,
    /// Column of the top left corner.
    pub x: usize,
    /// Row of the top left corner.
    pub y: usize,
}

/// The mathematical content of a match.
#[verifier::ext_equal]
pub ghost struct MatchView {
    pub pattern: PatternView,
    pub x: int,
    pub y: int,
}

impl View for Match {
    type V = MatchView;

    open spec fn view(&self) -> MatchView {
        MatchView { pattern: self.pattern@, x: self.x as int, y: self.y as int }
    }
}

impl DeepView for Match {
    type V = MatchView;

    open spec fn deep_view(&self) -> MatchView {
        self@
    }
}

impl Clone for Match {
    /// The copy has the same view: same rotated pattern, same position.
    fn clone(&self) -> (r: Self)
        ensures
            r@ == self@,
    {
        let r = Match { pattern: self.pattern.clone(), x: self.x, y: self.y };
        proof {
            assert(r@ =~~= self@);
        }
        r
    }
}

/// Appends a match to a list, extending the list's deep view by its view.
pub(crate) fn push_match(res: &mut Vec<Match>, m: Match)
    ensures
        final(res).deep_view() == old(res).deep_view().push(m@),
{
    let ghost mv = m@;
    res.push(m);
    proof {
        assert(res.deep_view() =~~= old(res).deep_view().push(mv));
    }
}

/// The matches that the rotations `rots` contribute at position `(x, y)`,
/// in rotation order: a rotation is skipped when it is not the identity
/// yet leaves the `find` array equal to the unrotated one, and otherwise
/// contributes one match exactly when its `find` array fits there.
pub open spec fn matches_at_pos(
    g: Seq<Seq<char>>,
    p: PatternView,
    rots: Seq<Rotation>,
    x: int,
    y: int,
) -> Seq<MatchView>
    decreases rots.len(),
{
    if rots.len() == 0 {
        Seq::empty()
    } else {
        let rot = rots[0];
        let q = p.rotate(rot);
        let rest = matches_at_pos(g, p, rots.drop_first(), x, y);
        if rot != Rotation::Identity && q.find == p.find {
            rest
        } else if fits_at(g, x, y, q.find) {
            seq![MatchView { pattern: q, x: x, y: y }] + rest
        } else {
            rest
        }
    }
}

/// The matches contributed by row `y` from column `x` rightward.
pub open spec fn matches_in_row(
    g: Seq<Seq<char>>,
    p: PatternView,
    rots: Seq<Rotation>,
    y: int,
    x: int,
) -> Seq<MatchView>
    decreases g[0].len() - x,
{
    if x < 0 || x >= g[0].len() {
        Seq::empty()
    } else {
        matches_at_pos(g, p, rots, x, y) + matches_in_row(g, p, rots, y, x + 1)
    }
}

/// The matches contributed by the rows from `y` downward.
pub open spec fn matches_from_row(
    g: Seq<Seq<char>>,
    p: PatternView,
    rots: Seq<Rotation>,
    y: int,
) -> Seq<MatchView>
    decreases g.len() - y,
{
    if y < 0 || y >= g.len() {
        Seq::empty()
    } else {
        matches_in_row(g, p, rots, y, 0) + matches_from_row(g, p, rots, y + 1)
    }
}

/// Every match of `p` on `g` under the symmetry `s`: row-major by
/// position, rotations innermost, in the order of [`rotations_for`].
pub open spec fn find_matches_spec(g: Seq<Seq<char>>, p: PatternView, s: Symmetry) -> Seq<
    MatchView,
> {
    matches_from_row(g, p, rotations_for(s), 0)
}

impl Grid {
    /// Enumerates every placement where a rotation of `pattern` selected
    /// by `symmetry` fits this grid.
    pub fn find_matches(&self, pattern: &Pattern, symmetry: Symmetry) -> (res: Vec<Match>)
        requires
            self.wf(),
            pattern@.wf(),
        ensures
            res.deep_view() == find_matches_spec(self@, pattern@, symmetry),
    {
        let ghost gv = self@;
        let ghost pv = pattern@;
        let rots = rotation_set(symmetry);
        let ghost rv = rots@;
        let ghost total = matches_from_row(gv, pv, rv, 0);
        let h = self.height();
        let w = self.width();
        let mut res: Vec<Match> = Vec::new();
        let mut y: usize = 0;
        while y < h
            invariant
                y <= h,
                h == gv.len(),
                w == gv[0].len(),
                gv == self@,
                pv == pattern@,
                rv == rots@,
                self.wf(),
                pattern@.wf(),
                total == matches_from_row(gv, pv, rv, 0),
                res.deep_view() + matches_from_row(gv, pv, rv, y as int) == total,
            decreases h - y,
        {
            proof {
                assert(matches_from_row(gv, pv, rv, y as int) == matches_in_row(gv, pv, rv, y as int, 0)
                    + matches_from_row(gv, pv, rv, y as int + 1));
                assert(res.deep_view() + (matches_in_row(gv, pv, rv, y as int, 0)
                    + matches_from_row(gv, pv, rv, y as int + 1)) =~= res.deep_view()
                    + matches_in_row(gv, pv, rv, y as int, 0) + matches_from_row(
                    gv,
                    pv,
                    rv,
                    y as int + 1,
                ));
            }
            let mut x: usize = 0;
            while x < w
                invariant
                    x <= w,
                    y < h,
                    h == gv.len(),
                    w == gv[0].len(),
                    gv == self@,
                    pv == pattern@,
                    rv == rots@,
                    self.wf(),
                    pattern@.wf(),
                    total == matches_from_row(gv, pv, rv, 0),
                    res.deep_view() + matches_in_row(gv, pv, rv, y as int, x as int)
                        + matches_from_row(gv, pv, rv, y as int + 1) == total,
                decreases w - x,
            {
                proof {
                    assert(rv.skip(0) =~= rv);
                    assert(matches_in_row(gv, pv, rv, y as int, x as int) == matches_at_pos(
                        gv,
                        pv,
                        rv,
                        x as int,
                        y as int,
                    ) + matches_in_row(gv, pv, rv, y as int, x as int + 1));
                    assert(res.deep_view() + (matches_at_pos(gv, pv, rv, x as int, y as int)
                        + matches_in_row(gv, pv, rv, y as int, x as int + 1)) + matches_from_row(
                        gv,
                        pv,
                        rv,
                        y as int + 1,
                    ) =~= res.deep_view() + matches_at_pos(gv, pv, rv, x as int, y as int)
                        + matches_in_row(gv, pv, rv, y as int, x as int + 1) + matches_from_row(
                        gv,
                        pv,
                        rv,
                        y as int + 1,
                    ));
                }
                let mut k: usize = 0;
                while k < rots.len()
                    invariant
                        k <= rv.len(),
                        x < w,
                        y < h,
                        h == gv.len(),
                        w == gv[0].len(),
                        gv == self@,
                        pv == pattern@,
                        rv == rots@,
                        self.wf(),
                        pattern@.wf(),
                        total == matches_from_row(gv, pv, rv, 0),
                        res.deep_view() + matches_at_pos(gv, pv, rv.skip(k as int), x as int, y as int)
                            + matches_in_row(gv, pv, rv, y as int, x as int + 1)
                            + matches_from_row(gv, pv, rv, y as int + 1) == total,
                    decreases rv.len() - k,
                {
                    let ghost sfx = rv.skip(k as int);
                    proof {
                        assert(sfx.len() > 0);
                        assert(sfx[0] == rv[k as int]);
                        assert(sfx.drop_first() =~= rv.skip(k as int + 1));
                    }
                    let rot = rots[k];
                    let q = pattern.rotate(rot);
                    let mut skip_this = false;
                    if rot != Rotation::Identity {
                        if grids_equal(&q.find, &pattern.find) {
                            skip_this = true;
                        }
                    }
                    if !skip_this {
                        if self.check_pattern(x, y, &q) {
                            let m = Match { pattern: q, x, y };
                            proof {
                                assert(m@ =~~= (MatchView {
                                    pattern: pv.rotate(rv[k as int]),
                                    x: x as int,
                                    y: y as int,
                                }));
                                assert(matches_at_pos(gv, pv, sfx, x as int, y as int) == seq![m@]
                                    + matches_at_pos(gv, pv, rv.skip(k as int + 1), x as int, y as int));
                            }
                            let ghost before = res.deep_view();
                            push_match(&mut res, m);
                            proof {
                                assert(res.deep_view() + matches_at_pos(
                                    gv,
                                    pv,
                                    rv.skip(k as int + 1),
                                    x as int,
                                    y as int,
                                ) =~= before + matches_at_pos(gv, pv, sfx, x as int, y as int));
                            }
                        } else {
                            proof {
                                assert(matches_at_pos(gv, pv, sfx, x as int, y as int)
                                    == matches_at_pos(gv, pv, rv.skip(k as int + 1), x as int, y as int));
                            }
                        }
                    } else {
                        proof {
                            assert(matches_at_pos(gv, pv, sfx, x as int, y as int) == matches_at_pos(
                                gv,
                                pv,
                                rv.skip(k as int + 1),
                                x as int,
                                y as int,
                            ));
                        }
                    }
                    k += 1;
                }
                proof {
                    assert(rv.skip(rv.len() as int).len() == 0);
                    assert(matches_at_pos(gv, pv, rv.skip(rv.len() as int), x as int, y as int)
                        =~= Seq::<MatchView>::empty());
                    assert(res.deep_view() + Seq::<MatchView>::empty() =~= res.deep_view());
                }
                x += 1;
            }
            proof {
                assert(matches_in_row(gv, pv, rv, y as int, w as int) =~= Seq::<MatchView>::empty());
                assert(res.deep_view() + Seq::<MatchView>::empty() =~= res.deep_view());
            }
            y += 1;
        }
        proof {
            assert(matches_from_row(gv, pv, rv, h as int) =~= Seq::<MatchView>::empty());
            assert(res.deep_view() + Seq::<MatchView>::empty() =~= res.deep_view());
        }
        res
    }
}

/// Every match that the rotations contribute at a position fits the grid
/// and carries a well-formed rotated pattern.
proof fn lemma_at_pos_sound(g: Seq<Seq<char>>, p: PatternView, rots: Seq<Rotation>, x: int, y: int)
    requires
        p.wf(),
    ensures
        forall|i: int|
            0 <= i < matches_at_pos(g, p, rots, x, y).len() ==> {
                let m = #[trigger] matches_at_pos(g, p, rots, x, y)[i];
                fits_at(g, m.x, m.y, m.pattern.find) && m.pattern.wf()
            },
    decreases rots.len(),
{
    if rots.len() > 0 {
        crate::pattern::lemma_rotate_wf(p, rots[0]);
        lemma_at_pos_sound(g, p, rots.drop_first(), x, y);
    }
}

/// Every match that a row contributes fits the grid and carries a
/// well-formed rotated pattern.
proof fn lemma_in_row_sound(g: Seq<Seq<char>>, p: PatternView, rots: Seq<Rotation>, y: int, x: int)
    requires
        p.wf(),
    ensures
        forall|i: int|
            0 <= i < matches_in_row(g, p, rots, y, x).len() ==> {
                let m = #[trigger] matches_in_row(g, p, rots, y, x)[i];
                fits_at(g, m.x, m.y, m.pattern.find) && m.pattern.wf()
            },
    decreases g[0].len() - x,
{
    if 0 <= x < g[0].len() {
        lemma_at_pos_sound(g, p, rots, x, y);
        lemma_in_row_sound(g, p, rots, y, x + 1);
    }
}

/// Every match that the rows from `y` downward contribute fits the grid
/// and carries a well-formed rotated pattern.
proof fn lemma_from_row_sound(
    g: Seq<Seq<char>>,
    p: PatternView,
    rots: Seq<Rotation>,
    y: int,
)
    requires
        p.wf(),
    ensures
        forall|i: int|
            0 <= i < matches_from_row(g, p, rots, y).len() ==> {
                let m = #[trigger] matches_from_row(g, p, rots, y)[i];
                fits_at(g, m.x, m.y, m.pattern.find) && m.pattern.wf()
            },
    decreases g.len() - y,
{
    if 0 <= y < g.len() {
        lemma_in_row_sound(g, p, rots, y, 0);
        lemma_from_row_sound(g, p, rots, y + 1);
    }
}

/// A rotation only permutes the `replace` cells: the rotated array holds
/// no symbol outside the wildcard and the set the unrotated one draws on.
proof fn lemma_rotate_replace_ok(p: PatternView, rot: Rotation, alpha: Seq<char>)
    requires
        p.wf(),
        replace_cells_ok(p.replace, alpha),
    ensures
        replace_cells_ok(p.rotate(rot).replace, alpha),
{
    let q = p.rotate(rot).replace;
    match delta(p.current, rot) {
        Rotation::Clockwise => lemma_cw_cells(p.replace),
        Rotation::Counter => lemma_ccw_cells(p.replace),
        Rotation::Mirror => lemma_mirror_cells(p.replace),
        Rotation::Identity => {},
    }
    assert forall|r: int, c: int|
        0 <= r < q.len() && 0 <= c < q[r].len() implies (#[trigger] q[r][c]) == '*'
        || alpha.contains(q[r][c]) by {
        match delta(p.current, rot) {
            Rotation::Clockwise => {
                assert(q[r][c] == p.replace[p.replace.len() - 1 - c][r]);
            },
            Rotation::Counter => {
                assert(q[r][c] == p.replace[c][p.replace[0].len() - 1 - r]);
            },
            Rotation::Mirror => {
                assert(q[r][c] == p.replace[p.replace.len() - 1 - r][p.replace[0].len() - 1 - c]);
            },
            Rotation::Identity => {},
        }
    }
}

/// Replace-cell closure of the matches at one position.
proof fn lemma_at_pos_replace_ok(
    g: Seq<Seq<char>>,
    p: PatternView,
    rots: Seq<Rotation>,
    x: int,
    y: int,
    alpha: Seq<char>,
)
    requires
        p.wf(),
        replace_cells_ok(p.replace, alpha),
    ensures
        forall|i: int|
            0 <= i < matches_at_pos(g, p, rots, x, y).len() ==> replace_cells_ok(
                (#[trigger] matches_at_pos(g, p, rots, x, y)[i]).pattern.replace,
                alpha,
            ),
    decreases rots.len(),
{
    if rots.len() > 0 {
        lemma_rotate_replace_ok(p, rots[0], alpha);
        lemma_at_pos_replace_ok(g, p, rots.drop_first(), x, y, alpha);
    }
}

/// Replace-cell closure of the matches of one row.
proof fn lemma_in_row_replace_ok(
    g: Seq<Seq<char>>,
    p: PatternView,
    rots: Seq<Rotation>,
    y: int,
    x: int,
    alpha: Seq<char>,
)
    requires
        p.wf(),
        replace_cells_ok(p.replace, alpha),
    ensures
        forall|i: int|
            0 <= i < matches_in_row(g, p, rots, y, x).len() ==> replace_cells_ok(
                (#[trigger] matches_in_row(g, p, rots, y, x)[i]).pattern.replace,
                alpha,
            ),
    decreases g[0].len() - x,
{
    if 0 <= x < g[0].len() {
        lemma_at_pos_replace_ok(g, p, rots, x, y, alpha);
        lemma_in_row_replace_ok(g, p, rots, y, x + 1, alpha);
    }
}

/// Replace-cell closure of the matches of the rows from `y` downward.
proof fn lemma_from_row_replace_ok(
    g: Seq<Seq<char>>,
    p: PatternView,
    rots: Seq<Rotation>,
    y: int,
    alpha: Seq<char>,
)
    requires
        p.wf(),
        replace_cells_ok(p.replace, alpha),
    ensures
        forall|i: int|
            0 <= i < matches_from_row(g, p, rots, y).len() ==> replace_cells_ok(
                (#[trigger] matches_from_row(g, p, rots, y)[i]).pattern.replace,
                alpha,
            ),
    decreases g.len() - y,
{
    if 0 <= y < g.len() {
        lemma_in_row_replace_ok(g, p, rots, y, 0, alpha);
        lemma_from_row_replace_ok(g, p, rots, y + 1, alpha);
    }
}

/// Every reported match writes only what the unrotated pattern allows:
/// its rotated `replace` array holds wildcards and alphabet symbols alone
/// whenever the unrotated one does.
pub proof fn lemma_matches_replace_ok(
    g: Seq<Seq<char>>,
    p: PatternView,
    s: Symmetry,
    alpha: Seq<char>,
)
    requires
        p.wf(),
        replace_cells_ok(p.replace, alpha),
    ensures
        forall|i: int|
            0 <= i < find_matches_spec(g, p, s).len() ==> replace_cells_ok(
                (#[trigger] find_matches_spec(g, p, s)[i]).pattern.replace,
                alpha,
            ),
{
    lemma_from_row_replace_ok(g, p, rotations_for(s), 0, alpha);
}

/// Match soundness: every match returned by the matcher fits the grid at
/// its reported position, immediately after the search, and carries a
/// well-formed rotated pattern.
pub proof fn lemma_matches_sound(g: Seq<Seq<char>>, p: PatternView, s: Symmetry)
    requires
        p.wf(),
    ensures
        forall|i: int|
            0 <= i < find_matches_spec(g, p, s).len() ==> {
                let m = #[trigger] find_matches_spec(g, p, s)[i];
                fits_at(g, m.x, m.y, m.pattern.find) && m.pattern.wf()
            },
{
    lemma_from_row_sound(g, p, rotations_for(s), 0);
}

/// The rotations contribute their match at a position whenever it fits
/// and is not suppressed as a duplicate of the unrotated shape.
proof fn lemma_at_pos_complete(
    g: Seq<Seq<char>>,
    p: PatternView,
    rots: Seq<Rotation>,
    x: int,
    y: int,
    rot: Rotation,
)
    requires
        rots.contains(rot),
        fits_at(g, x, y, p.rotate(rot).find),
        rot == Rotation::Identity || p.rotate(rot).find != p.find,
    ensures
        matches_at_pos(g, p, rots, x, y).contains(
            MatchView { pattern: p.rotate(rot), x: x, y: y },
        ),
    decreases rots.len(),
{
    let m = MatchView { pattern: p.rotate(rot), x: x, y: y };
    let rest = matches_at_pos(g, p, rots.drop_first(), x, y);
    if rots[0] == rot {
        let whole = seq![m] + rest;
        assert(whole[0] == m);
    } else {
        assert(rots.drop_first().contains(rot)) by {
            let i = choose|i: int| 0 <= i < rots.len() && rots[i] == rot;
            assert(rots.drop_first()[i - 1] == rot);
        }
        lemma_at_pos_complete(g, p, rots.drop_first(), x, y, rot);
        let j = choose|j: int| 0 <= j < rest.len() && rest[j] == m;
        let q0 = p.rotate(rots[0]);
        if rots[0] != Rotation::Identity && q0.find == p.find {
            assert(matches_at_pos(g, p, rots, x, y)[j] == m);
        } else if fits_at(g, x, y, q0.find) {
            assert((seq![MatchView { pattern: q0, x: x, y: y }] + rest)[j + 1] == m);
        } else {
            assert(matches_at_pos(g, p, rots, x, y)[j] == m);
        }
    }
}

/// Concatenation keeps every member of either part.
proof fn lemma_concat_contains(a: Seq<MatchView>, b: Seq<MatchView>, m: MatchView)
    requires
        a.contains(m) || b.contains(m),
    ensures
        (a + b).contains(m),
{
    if a.contains(m) {
        let i = choose|i: int| 0 <= i < a.len() && a[i] == m;
        assert((a + b)[i] == m);
    } else {
        let i = choose|i: int| 0 <= i < b.len() && b[i] == m;
        assert((a + b)[a.len() + i] == m);
    }
}

/// A row contributes every unsuppressed fitting placement at or right of
/// the starting column.
proof fn lemma_in_row_complete(
    g: Seq<Seq<char>>,
    p: PatternView,
    rots: Seq<Rotation>,
    y: int,
    x0: int,
    x: int,
    rot: Rotation,
)
    requires
        0 <= x0 <= x < g[0].len(),
        rots.contains(rot),
        fits_at(g, x, y, p.rotate(rot).find),
        rot == Rotation::Identity || p.rotate(rot).find != p.find,
    ensures
        matches_in_row(g, p, rots, y, x0).contains(
            MatchView { pattern: p.rotate(rot), x: x, y: y },
        ),
    decreases x - x0,
{
    let m = MatchView { pattern: p.rotate(rot), x: x, y: y };
    if x0 == x {
        lemma_at_pos_complete(g, p, rots, x, y, rot);
        lemma_concat_contains(
            matches_at_pos(g, p, rots, x0, y),
            matches_in_row(g, p, rots, y, x0 + 1),
            m,
        );
    } else {
        lemma_in_row_complete(g, p, rots, y, x0 + 1, x, rot);
        lemma_concat_contains(
            matches_at_pos(g, p, rots, x0, y),
            matches_in_row(g, p, rots, y, x0 + 1),
            m,
        );
    }
}

/// The rows from `y0` downward contribute every unsuppressed fitting
/// placement at or below `y0`.
proof fn lemma_from_row_complete(
    g: Seq<Seq<char>>,
    p: PatternView,
    rots: Seq<Rotation>,
    y0: int,
    x: int,
    y: int,
    rot: Rotation,
)
    requires
        0 <= y0 <= y < g.len(),
        0 <= x < g[0].len(),
        rots.contains(rot),
        fits_at(g, x, y, p.rotate(rot).find),
        rot == Rotation::Identity || p.rotate(rot).find != p.find,
    ensures
        matches_from_row(g, p, rots, y0).contains(
            MatchView { pattern: p.rotate(rot), x: x, y: y },
        ),
    decreases y - y0,
{
    let m = MatchView { pattern: p.rotate(rot), x: x, y: y };
    if y0 == y {
        lemma_in_row_complete(g, p, rots, y, 0, x, rot);
        lemma_concat_contains(
            matches_in_row(g, p, rots, y0, 0),
            matches_from_row(g, p, rots, y0 + 1),
            m,
        );
    } else {
        lemma_from_row_complete(g, p, rots, y0 + 1, x, y, rot);
        lemma_concat_contains(
            matches_in_row(g, p, rots, y0, 0),
            matches_from_row(g, p, rots, y0 + 1),
            m,
        );
    }
}

/// Match completeness: for every position and every rotation of the
/// symmetry set, if the rotated pattern's `find` array fits there, and the
/// rotation is the identity or changes the `find` array, then the matcher
/// reports that placement.
pub proof fn lemma_matches_complete(
    g: Seq<Seq<char>>,
    p: PatternView,
    s: Symmetry,
    x: int,
    y: int,
    rot: Rotation,
)
    requires
        0 <= y < g.len(),
        0 <= x < g[0].len(),
        rotations_for(s).contains(rot),
        fits_at(g, x, y, p.rotate(rot).find),
        rot == Rotation::Identity || p.rotate(rot).find != p.find,
    ensures
        find_matches_spec(g, p, s).contains(MatchView { pattern: p.rotate(rot), x: x, y: y }),
{
    lemma_from_row_complete(g, p, rotations_for(s), 0, x, y, rot);
}

} // verus!
