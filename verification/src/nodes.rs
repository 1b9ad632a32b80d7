//! The rule-tree interpreter.
//!
//! A [`Rules`] tree composes rewrite rules into control nodes, each giving
//! its own meaning to one `apply` step: `Rule` applies one random match of
//! one rule; `One` draws uniformly from the merged matches of a rule set;
//! `All` drains every match of one child per step, in waves; `Markov`
//! fires the first child that can; `Sequence` stays on a child until it is
//! exhausted; `Steps` caps how many productive steps its child may take.
//! A step returns true while there is more work to do.

use vstd::prelude::*;

use crate::grid::Grid;
use crate::grid::fits_at;
use crate::grid::write_at;
use crate::grid::replace_cells_ok;
use crate::matcher::Match;
use crate::matcher::MatchView;
use crate::matcher::find_matches_spec;
use crate::matcher::lemma_matches_replace_ok;
use crate::matcher::lemma_matches_sound;
use crate::rng::Rng;
use crate::rule::Rule;
use crate::rule::RuleView;
use crate::rule::picked_match;
use crate::rule::rule_symbols_ok;
use crate::rule::seeded_grid;

verus! {

/// A tree of rewrite rules composed by control nodes.
#[derive(Debug)]
pub enum Rules {
    /// One rewrite rule, applied once per step.
    Rule(Rule),
    /// Draws one match uniformly from the merged matches of every rule.
    One(Vec<Rule>),
    /// Applies every match of the child at the cursor, then advances; a
    /// wave over all children repeats while any match was found.  The two
    /// integers are the cursor and the count of matches seen this wave.
    All(Vec<Rule>, usize, usize),
    /// Steps the first child whose step succeeds, in declaration order.
    Markov(Vec<Rules>),
    /// Steps the child at the cursor until it is exhausted, then advances.
    Sequence(Vec<Rules>, usize),
    /// Caps the child at a budget of productive steps; the two integers
    /// are the remaining budget and the full budget.
    Steps(usize, usize, Box<Rules>),
}

impl Rules {
    /// Every rule and child is well-formed, cursors stay within their
    /// lists, and a budget's remainder never exceeds the budget.
    pub open spec fn wf(self) -> bool
        decreases self,
    {
        match self {
            Rules::Rule(r) => r@.wf(),
            Rules::One(rs) => forall|i: int|
                0 <= i < rs.deep_view().len() ==> (#[trigger] rs.deep_view()[i]).wf(),
            Rules::All(rs, cursor, count) => cursor <= rs.deep_view().len() && forall|i: int|
                0 <= i < rs.deep_view().len() ==> (#[trigger] rs.deep_view()[i]).wf(),
            Rules::Markov(kids) => forall|i: int|
                0 <= i < kids@.len() ==> (#[trigger] kids@[i]).wf(),
            Rules::Sequence(kids, cursor) => cursor <= kids@.len() && forall|i: int|
                0 <= i < kids@.len() ==> (#[trigger] kids@[i]).wf(),
            Rules::Steps(remaining, budget, child) => remaining <= budget && child.wf(),
        }
    }
}

/// The rules with their one-shot origins consumed.
pub open spec fn cleared_rules(rs: Seq<RuleView>) -> Seq<RuleView> {
    rs.map_values(|r: RuleView| r.cleared())
}

/// The grid after one match is pressed onto it: written where its fit
/// still holds, untouched otherwise.
pub open spec fn apply_match(g: Seq<Seq<char>>, m: MatchView) -> Seq<Seq<char>> {
    if fits_at(g, m.x, m.y, m.pattern.find) {
        write_at(g, m.x, m.y, m.pattern.replace)
    } else {
        g
    }
}

/// The gather phase of `One` from rule `j` on: each rule in order stamps
/// its pending origin on the center, then contributes its matches on the
/// grid as seeded so far.  Yields the seeded grid and the merged list.
pub open spec fn gather(g: Seq<Seq<char>>, rs: Seq<RuleView>, j: int) -> (
    Seq<Seq<char>>,
    Seq<MatchView>,
)
    decreases rs.len() - j,
{
    if j < 0 || j >= rs.len() {
        (g, Seq::empty())
    } else {
        let g1 = seeded_grid(g, rs[j].origin);
        let ms = find_matches_spec(g1, rs[j].pattern, rs[j].symmetry);
        let rest = gather(g1, rs, j + 1);
        (rest.0, ms + rest.1)
    }
}

/// One drawing from the merged list: entry `i` was chosen and pressed
/// onto the grid.
pub open spec fn one_applied(
    ms: Seq<MatchView>,
    g: Seq<Seq<char>>,
    i: int,
    gout: Seq<Seq<char>>,
) -> bool {
    &&& 0 <= i < ms.len()
    &&& gout == apply_match(g, ms[i])
}

/// The matches were pressed onto the grid one at a time, in some order,
/// each re-checked against the grid as written so far.
pub open spec fn drained(g: Seq<Seq<char>>, ms: Seq<MatchView>, gout: Seq<Seq<char>>) -> bool
    decreases ms.len(),
{
    if ms.len() == 0 {
        gout == g
    } else {
        exists|i: int|
            #![auto]
            0 <= i < ms.len() && drained(apply_match(g, ms[i]), ms.remove(i), gout)
    }
}

/// No rule still carries a pending one-shot origin.
pub open spec fn no_origins(rs: Seq<RuleView>) -> bool {
    forall|j: int| 0 <= j < rs.len() ==> (#[trigger] rs[j]).origin is None
}

/// The running invariant of an `All` wave: while the wave's count is
/// still zero no write has happened this wave, so every child the cursor
/// has passed had, and still has, no match on the grid.
pub open spec fn all_wave_inv(
    rs: Seq<RuleView>,
    cursor: int,
    count: int,
    g: Seq<Seq<char>>,
) -> bool {
    count == 0 ==> forall|j: int|
        0 <= j < cursor && j < rs.len() ==> find_matches_spec(
            g,
            (#[trigger] rs[j]).pattern,
            rs[j].symmetry,
        ).len() == 0
}

/// Every rule of the tree writes only symbols of the alphabet `alpha`:
/// its origins and its non-wildcard `replace` cells all belong to it.
pub open spec fn symbols_ok(n: Rules, alpha: Seq<char>) -> bool
    decreases n,
{
    match n {
        Rules::Rule(r) => rule_symbols_ok(r@, alpha),
        Rules::One(rs) => forall|i: int|
            0 <= i < rs.deep_view().len() ==> rule_symbols_ok(#[trigger] rs.deep_view()[i], alpha),
        Rules::All(rs, cursor, count) => forall|i: int|
            0 <= i < rs.deep_view().len() ==> rule_symbols_ok(#[trigger] rs.deep_view()[i], alpha),
        Rules::Markov(kids) => forall|i: int|
            0 <= i < kids@.len() ==> symbols_ok(#[trigger] kids@[i], alpha),
        Rules::Sequence(kids, cursor) => forall|i: int|
            0 <= i < kids@.len() ==> symbols_ok(#[trigger] kids@[i], alpha),
        Rules::Steps(remaining, budget, child) => symbols_ok(*child, alpha),
    }
}

/// One step of a single rewrite rule: a pending origin is stamped and
/// consumed, then, if any match exists on the unseeded grid, one is drawn,
/// re-checked on the seeded grid and written exactly when it still fits.
pub open spec fn rule_step(
    r0: RuleView,
    g0: Seq<Seq<char>>,
    r1: RuleView,
    g1: Seq<Seq<char>>,
    res: bool,
) -> bool {
    let ms = find_matches_spec(g0, r0.pattern, r0.symmetry);
    let gs = seeded_grid(g0, r0.origin);
    &&& r1 == r0.cleared()
    &&& if ms.len() == 0 {
        !res && g1 == gs
    } else {
        exists|i: int| picked_match(ms, gs, i, ms.remove(i), g1, res)
    }
}

/// One step of a `One` node: origins are stamped in rule order during the
/// gather, and one entry of the merged match list is drawn and pressed on.
pub open spec fn one_step(
    rs0: Seq<RuleView>,
    g0: Seq<Seq<char>>,
    rs1: Seq<RuleView>,
    g1: Seq<Seq<char>>,
    res: bool,
) -> bool {
    let gs = gather(g0, rs0, 0).0;
    let merged = gather(g0, rs0, 0).1;
    &&& rs1 == cleared_rules(rs0)
    &&& if merged.len() == 0 {
        !res && g1 == gs
    } else {
        res && exists|i: int| one_applied(merged, gs, i, g1)
    }
}

/// One step of an `All` node: the child at the cursor is seeded and
/// drained, or the wave wraps.
pub open spec fn all_step(
    rs0: Seq<RuleView>,
    cur0: int,
    cnt0: int,
    g0: Seq<Seq<char>>,
    rs1: Seq<RuleView>,
    cur1: int,
    cnt1: int,
    g1: Seq<Seq<char>>,
    res: bool,
) -> bool {
    if cur0 < rs0.len() {
        let gs = seeded_grid(g0, rs0[cur0].origin);
        let ms = find_matches_spec(gs, rs0[cur0].pattern, rs0[cur0].symmetry);
        &&& rs1 == rs0.update(cur0, rs0[cur0].cleared())
        &&& cur1 == cur0 + 1
        &&& if ms.len() == 0 {
            &&& cnt1 == cnt0
            &&& g1 == gs
            &&& res == (cur0 + 1 < rs0.len() || cnt0 > 0)
        } else {
            &&& cnt1 > 0
            &&& cnt1 == (if cnt0 + ms.len() <= usize::MAX {
                cnt0 + ms.len()
            } else {
                usize::MAX as int
            })
            &&& drained(gs, ms, g1)
            &&& res
        }
    } else {
        &&& rs1 == rs0
        &&& g1 == g0
        &&& if cnt0 > 0 {
            res && cur1 == 0 && cnt1 == 0
        } else {
            !res && cur1 == cur0 && cnt1 == cnt0
        }
    }
}
/// The first `k` children of a `Markov` node were each stepped once, in
/// declaration order, and every one of them failed; some trace `gs` of
/// intermediate grids threads the steps from `g0` to `g1`, and `kids1`
/// holds the stepped children's end states.
pub open spec fn markov_tried(
    kids0: Seq<Rules>,
    g0: Seq<Seq<char>>,
    kids1: Seq<Rules>,
    g1: Seq<Seq<char>>,
    k: int,
) -> bool
    decreases kids0, 0int,
{
    exists|gs: Seq<Seq<Seq<char>>>|
        #![trigger gs.len()]
        {
            &&& gs.len() == k + 1
            &&& gs[0] == g0
            &&& gs[k] == g1
            &&& kids1.len() == kids0.len()
            &&& 0 <= k <= kids0.len()
            &&& forall|j: int|
                0 <= j < k ==> step_rel(kids0[j], #[trigger] gs[j], kids1[j], gs[j + 1], false)
        }
}

/// The children before `i` were each stepped once, in declaration order,
/// and failed; child `i` was then stepped and fired, ending on `g1`.
pub open spec fn markov_fired(
    kids0: Seq<Rules>,
    g0: Seq<Seq<char>>,
    kids1: Seq<Rules>,
    g1: Seq<Seq<char>>,
    i: int,
) -> bool
    decreases kids0, 0int,
{
    exists|gs: Seq<Seq<Seq<char>>>|
        #![trigger gs.len()]
        {
            &&& gs.len() == i + 1
            &&& gs[0] == g0
            &&& kids1.len() == kids0.len()
            &&& 0 <= i < kids0.len()
            &&& forall|j: int|
                0 <= j < i ==> step_rel(kids0[j], #[trigger] gs[j], kids1[j], gs[j + 1], false)
            &&& step_rel(kids0[i], gs[i], kids1[i], g1, true)
        }
}

/// One step of a `Markov` node: the children are tried in declaration
/// order, and either some child fired — its predecessors all failed first
/// and its successors were never stepped — or every child failed.
pub open spec fn markov_step(
    kids0: Seq<Rules>,
    g0: Seq<Seq<char>>,
    kids1: Seq<Rules>,
    g1: Seq<Seq<char>>,
    res: bool,
) -> bool
    decreases kids0, 1int,
{
    &&& kids1.len() == kids0.len()
    &&& if res {
        exists|i: int|
            #![trigger kids1[i]]
            {
                &&& markov_fired(kids0, g0, kids1, g1, i)
                &&& forall|j: int| i < j < kids0.len() ==> kids1[j] == kids0[j]
            }
    } else {
        markov_tried(kids0, g0, kids1, g1, kids0.len() as int)
    }
}

/// What one call of `apply` does to a node, as a relation between the
/// node and grid before and after and the reported result — exact for
/// every node kind, up to the random draws.  The clauses of `apply`
/// state this relation variant by variant; composite nodes describe the
/// steps of their children through it.
pub open spec fn step_rel(
    n0: Rules,
    g0: Seq<Seq<char>>,
    n1: Rules,
    g1: Seq<Seq<char>>,
    res: bool,
) -> bool
    decreases n0, 0int, 0int,
{
    match n0 {
        Rules::Rule(r0) => n1 matches Rules::Rule(r1) && rule_step(r0@, g0, r1@, g1, res),
        Rules::One(rs0) => n1 matches Rules::One(rs1) && one_step(
            rs0.deep_view(),
            g0,
            rs1.deep_view(),
            g1,
            res,
        ),
        Rules::All(rs0, c0, k0) => n1 matches Rules::All(rs1, c1, k1) && all_step(
            rs0.deep_view(),
            c0 as int,
            k0 as int,
            g0,
            rs1.deep_view(),
            c1 as int,
            k1 as int,
            g1,
            res,
        ),
        Rules::Markov(kids0) => n1 matches Rules::Markov(kids1) && markov_step(
            kids0@,
            g0,
            kids1@,
            g1,
            res,
        ),
        Rules::Sequence(kids0, cur0) => n1 matches Rules::Sequence(kids1, cur1) && kids1@.len()
            == kids0@.len() && if cur0 >= kids0@.len() {
            &&& !res
            &&& cur1 == cur0
            &&& g1 == g0
            &&& kids1@ == kids0@
        } else {
            &&& forall|j: int| 0 <= j < kids0@.len() && j != cur0 ==> kids1@[j] == kids0@[j]
            &&& (cur1 == cur0 || cur1 == cur0 + 1)
            &&& (cur1 == cur0 ==> res && step_rel(
                kids0@[cur0 as int],
                g0,
                kids1@[cur0 as int],
                g1,
                true,
            ))
            &&& (cur1 == cur0 + 1 ==> step_rel(
                kids0@[cur0 as int],
                g0,
                kids1@[cur0 as int],
                g1,
                false,
            ) && res == (cur1 < kids0@.len()))
        },
        Rules::Steps(rem0, bud0, child0) => n1 matches Rules::Steps(rem1, bud1, child1) && bud1
            == bud0 && if rem0 == 0 {
            &&& !res
            &&& rem1 == bud0
            &&& g1 == g0
            &&& *child1 == *child0
        } else {
            &&& (res ==> rem1 == rem0 - 1 && step_rel(*child0, g0, *child1, g1, true))
            &&& (!res ==> rem1 == bud0 && step_rel(*child0, g0, *child1, g1, false))
        },
    }
}

/// Borrows rule `j` of a list, as the list's deep view sees it.
fn rule_at(rs: &Vec<Rule>, j: usize) -> (r: &Rule)
    requires
        j < rs.deep_view().len(),
    ensures
        r@ == rs.deep_view()[j as int],
{
    proof {
        assert(rs.deep_view()[j as int] == rs@[j as int]@);
    }
    &rs[j]
}

/// Consumes the one-shot origin of rule `j` of a list.
fn clear_origin(rs: &mut Vec<Rule>, j: usize)
    requires
        j < old(rs).deep_view().len(),
    ensures
        final(rs).deep_view() == old(rs).deep_view().update(
            j as int,
            old(rs).deep_view()[j as int].cleared(),
        ),
{
    proof {
        assert(rs.deep_view()[j as int] == rs@[j as int]@);
    }
    rs[j].origin = None;
    proof {
        assert(rs.deep_view() =~~= old(rs).deep_view().update(
            j as int,
            old(rs).deep_view()[j as int].cleared(),
        ));
    }
}

/// Borrows match `i` of a list, as the list's deep view sees it.
fn match_at(ms: &Vec<Match>, i: usize) -> (m: &Match)
    requires
        i < ms.deep_view().len(),
    ensures
        m@ == ms.deep_view()[i as int],
{
    proof {
        assert(ms.deep_view()[i as int] == ms@[i as int]@);
    }
    &ms[i]
}

/// One step of a single rewrite rule, as [`rule_step`] describes.
fn step_rule_leaf(rule: &mut Rule, grid: &mut Grid, rng: &mut Rng) -> (res: bool)
    requires
        old(rule)@.wf(),
        old(grid).wf(),
        rule_symbols_ok(old(rule)@, old(grid).alpha()),
    ensures
        final(rule)@.wf(),
        final(grid).wf(),
        final(grid).alpha() == old(grid).alpha(),
        final(grid)@.len() == old(grid)@.len(),
        final(grid)@[0].len() == old(grid)@[0].len(),
        rule_symbols_ok(final(rule)@, old(grid).alpha()),
        rule_step(old(rule)@, old(grid)@, final(rule)@, final(grid)@, res),
{
    proof {
        lemma_matches_sound(grid@, rule@.pattern, rule@.symmetry);
        lemma_matches_replace_ok(grid@, rule@.pattern, rule@.symmetry, grid.alpha());
    }
    let mut ms = grid.find_matches(&rule.pattern, rule.symmetry);
    rule.apply(grid, rng, &mut ms)
}

/// One step of a `One` node, as [`one_step`] describes.
fn step_one(rules: &mut Vec<Rule>, grid: &mut Grid, rng: &mut Rng) -> (res: bool)
    requires
        old(grid).wf(),
        forall|i: int|
            0 <= i < old(rules).deep_view().len() ==> (#[trigger] old(rules).deep_view()[i]).wf(),
        forall|i: int|
            0 <= i < old(rules).deep_view().len() ==> rule_symbols_ok(
                #[trigger] old(rules).deep_view()[i],
                old(grid).alpha(),
            ),
    ensures
        final(grid).wf(),
        final(grid).alpha() == old(grid).alpha(),
        final(grid)@.len() == old(grid)@.len(),
        final(grid)@[0].len() == old(grid)@[0].len(),
        forall|i: int|
            0 <= i < final(rules).deep_view().len() ==> (#[trigger] final(rules).deep_view()[i]).wf(),
        forall|i: int|
            0 <= i < final(rules).deep_view().len() ==> rule_symbols_ok(
                #[trigger] final(rules).deep_view()[i],
                old(grid).alpha(),
            ),
        one_step(
            old(rules).deep_view(),
            old(grid)@,
            final(rules).deep_view(),
            final(grid)@,
            res,
        ),
{
        let ghost g0 = grid@;
        let ghost rs0 = rules.deep_view();
        let ghost alpha0 = old(grid).alpha();
        let n = rules.len();
        let mut merged: Vec<Match> = Vec::new();
        let mut j: usize = 0;
        while j < n
            invariant
                j <= n,
                n == rs0.len(),
                rules.deep_view().len() == n,
                grid.wf(),
                grid.alpha() == alpha0,
                alpha0 == old(grid).alpha(),
                grid@.len() == g0.len(),
                grid@[0].len() == g0[0].len(),
                g0.len() > 0,
                forall|i: int| 0 <= i < rs0.len() ==> (#[trigger] rs0[i]).wf(),
                forall|i: int|
                    0 <= i < rs0.len() ==> rule_symbols_ok(#[trigger] rs0[i], alpha0),
                forall|i: int|
                    j <= i < n ==> (#[trigger] rules.deep_view()[i]) == rs0[i],
                forall|i: int|
                    0 <= i < j ==> (#[trigger] rules.deep_view()[i]) == rs0[i].cleared(),
                gather(g0, rs0, 0).0 == gather(grid@, rs0, j as int).0,
                gather(g0, rs0, 0).1 == merged.deep_view() + gather(
                    grid@,
                    rs0,
                    j as int,
                ).1,
                forall|k: int|
                    0 <= k < merged.deep_view().len() ==> (#[trigger] merged.deep_view()[k]).pattern.wf(),
                forall|k: int|
                    0 <= k < merged.deep_view().len() ==> replace_cells_ok(
                        (#[trigger] merged.deep_view()[k]).pattern.replace,
                        alpha0,
                    ),
            decreases n - j,
        {
            let ghost gpre = grid@;
            let oj = rule_at(rules, j).origin;
            if let Some(s) = oj {
                proof {
                    assert(rule_symbols_ok(rs0[j as int], alpha0));
                }
                grid.set_origin(s);
                clear_origin(rules, j);
            }
            proof {
                assert(grid@ == seeded_grid(gpre, rs0[j as int].origin));
                assert(rules.deep_view()[j as int].pattern == rs0[j as int].pattern);
                assert(rules.deep_view()[j as int].symmetry == rs0[j as int].symmetry);
                lemma_matches_sound(grid@, rs0[j as int].pattern, rs0[j as int].symmetry);
                lemma_matches_replace_ok(
                    grid@,
                    rs0[j as int].pattern,
                    rs0[j as int].symmetry,
                    alpha0,
                );
            }
            let rj = rule_at(rules, j);
            let ms = grid.find_matches(&rj.pattern, rj.symmetry);
            let ghost merged0 = merged.deep_view();
            let ghost msv = ms.deep_view();
            let mut k: usize = 0;
            while k < ms.len()
                invariant
                    k <= ms.len(),
                    msv == ms.deep_view(),
                    merged.deep_view() == merged0 + msv.take(k as int),
                decreases ms.len() - k,
            {
                let m = match_at(&ms, k).clone();
                crate::matcher::push_match(&mut merged, m);
                proof {
                    assert(merged.deep_view() =~= merged0 + msv.take(k as int + 1));
                }
                k += 1;
            }
            proof {
                assert(merged.deep_view() =~= merged0 + msv);
                assert(gather(gpre, rs0, j as int).0 == gather(grid@, rs0, j as int + 1).0);
                assert(gather(gpre, rs0, j as int).1 == msv + gather(
                    grid@,
                    rs0,
                    j as int + 1,
                ).1);
                assert((merged0 + msv) + gather(grid@, rs0, j as int + 1).1 =~= merged0 + (
                msv + gather(grid@, rs0, j as int + 1).1));
            }
            j += 1;
        }
        proof {
            assert(gather(grid@, rs0, n as int).1 =~= Seq::<MatchView>::empty());
            assert(merged.deep_view() + Seq::<MatchView>::empty() =~= merged.deep_view());
            assert(rules.deep_view() =~= cleared_rules(rs0));
            assert forall|i: int|
                0 <= i < rules.deep_view().len() implies (#[trigger] rules.deep_view()[i]).wf() by {
                assert(rules.deep_view()[i] == rs0[i].cleared());
                assert(rs0[i].wf());
            };
            assert forall|i: int|
                0 <= i < rules.deep_view().len() implies rule_symbols_ok(
                #[trigger] rules.deep_view()[i],
                alpha0,
            ) by {
                assert(rules.deep_view()[i] == rs0[i].cleared());
                assert(rule_symbols_ok(rs0[i], alpha0));
            };
        }
        if merged.len() == 0 {
            proof {
                assert(one_step(rs0, g0, rules.deep_view(), grid@, false));
            }
            return false;
        }
        let i = rng.index(merged.len());
        let ghost mergedv = merged.deep_view();
        let chosen = match_at(&merged, i);
        if grid.check_pattern(chosen.x, chosen.y, &chosen.pattern) {
            grid.replace_pattern(chosen.x, chosen.y, &chosen.pattern);
        }
        proof {
            assert(one_applied(mergedv, gather(g0, rs0, 0).0, i as int, grid@));
            assert(one_step(rs0, g0, rules.deep_view(), grid@, true));
        }
        true
}

/// One step of an `All` node, as [`all_step`] describes; while no match
/// has been seen this wave, the wave invariant is carried along, and an
/// origin-free node that gives up has exhausted every one of its rules.
fn step_all(
    rules: &mut Vec<Rule>,
    cursor: &mut usize,
    count: &mut usize,
    grid: &mut Grid,
    rng: &mut Rng,
) -> (res: bool)
    requires
        old(grid).wf(),
        *old(cursor) <= old(rules).deep_view().len(),
        forall|i: int|
            0 <= i < old(rules).deep_view().len() ==> (#[trigger] old(rules).deep_view()[i]).wf(),
        forall|i: int|
            0 <= i < old(rules).deep_view().len() ==> rule_symbols_ok(
                #[trigger] old(rules).deep_view()[i],
                old(grid).alpha(),
            ),
    ensures
        final(grid).wf(),
        final(grid).alpha() == old(grid).alpha(),
        final(grid)@.len() == old(grid)@.len(),
        final(grid)@[0].len() == old(grid)@[0].len(),
        *final(cursor) <= final(rules).deep_view().len(),
        forall|i: int|
            0 <= i < final(rules).deep_view().len() ==> (#[trigger] final(rules).deep_view()[i]).wf(),
        forall|i: int|
            0 <= i < final(rules).deep_view().len() ==> rule_symbols_ok(
                #[trigger] final(rules).deep_view()[i],
                old(grid).alpha(),
            ),
        all_step(
            old(rules).deep_view(),
            *old(cursor) as int,
            *old(count) as int,
            old(grid)@,
            final(rules).deep_view(),
            *final(cursor) as int,
            *final(count) as int,
            final(grid)@,
            res,
        ),
        (no_origins(old(rules).deep_view()) && all_wave_inv(
            old(rules).deep_view(),
            *old(cursor) as int,
            *old(count) as int,
            old(grid)@,
        )) ==> {
            &&& final(rules).deep_view() == old(rules).deep_view()
            &&& no_origins(final(rules).deep_view())
            &&& all_wave_inv(
                final(rules).deep_view(),
                *final(cursor) as int,
                *final(count) as int,
                final(grid)@,
            )
            &&& (!res ==> final(grid)@ == old(grid)@ && forall|j: int|
                0 <= j < final(rules).deep_view().len() ==> find_matches_spec(
                    final(grid)@,
                    (#[trigger] final(rules).deep_view()[j]).pattern,
                    final(rules).deep_view()[j].symmetry,
                ).len() == 0)
        },
{
        let ghost g0 = grid@;
        let ghost rs0 = rules.deep_view();
        let ghost alpha0 = old(grid).alpha();
        let ghost cnt0g = *count as int;
        let ghost cur0 = *cursor as int;
        let n = rules.len();
        if *cursor < n {
            let oj = rule_at(rules, *cursor).origin;
            if let Some(s) = oj {
                proof {
                    assert(rule_symbols_ok(rs0[cur0], alpha0));
                }
                grid.set_origin(s);
                clear_origin(rules, *cursor);
            }
            proof {
                assert(grid@ == seeded_grid(g0, rs0[cur0].origin));
                assert(rules.deep_view() =~~= rs0.update(cur0, rs0[cur0].cleared()));
                lemma_matches_sound(grid@, rs0[cur0].pattern, rs0[cur0].symmetry);
                lemma_matches_replace_ok(grid@, rs0[cur0].pattern, rs0[cur0].symmetry, alpha0);
                assert(rule_symbols_ok(rules.deep_view()[cur0], alpha0));
            }
            let rc = rule_at(rules, *cursor);
            let mut ms = grid.find_matches(&rc.pattern, rc.symmetry);
            let ghost g1 = grid@;
            let ghost ms0 = ms.deep_view();
            if ms.len() == 0 {
                *cursor += 1;
                let res = if *cursor == n {
                    *count > 0
                } else {
                    true
                };
                proof {
                    assert(all_step(
                        rs0,
                        cur0,
                        cnt0g,
                        g0,
                        rules.deep_view(),
                        *cursor as int,
                        *count as int,
                        grid@,
                        res,
                    ));
                }
                res
            } else {
                let add = ms.len();
                if *count <= usize::MAX - add {
                    *count += add;
                } else {
                    *count = usize::MAX;
                }
                while ms.len() > 0
                    invariant
                        grid.wf(),
                        grid.alpha() == alpha0,
                        alpha0 == old(grid).alpha(),
                        grid@.len() == g0.len(),
                        grid@[0].len() == g0[0].len(),
                        g0.len() > 0,
                        forall|k: int|
                            0 <= k < ms.deep_view().len() ==> (#[trigger] ms.deep_view()[k]).pattern.wf(),
                        forall|k: int|
                            0 <= k < ms.deep_view().len() ==> replace_cells_ok(
                                (#[trigger] ms.deep_view()[k]).pattern.replace,
                                alpha0,
                            ),
                        forall|gf: Seq<Seq<char>>|
                            #[trigger] drained(grid@, ms.deep_view(), gf) ==> drained(
                                g1,
                                ms0,
                                gf,
                            ),
                    decreases ms.len(),
                {
                    let ghost gpre = grid@;
                    let ghost mspre = ms.deep_view();
                    let i = rng.index(ms.len());
                    let m = ms.remove(i);
                    proof {
                        assert(ms.deep_view() =~~= mspre.remove(i as int));
                        assert(m@ == mspre[i as int]);
                    }
                    if grid.check_pattern(m.x, m.y, &m.pattern) {
                        grid.replace_pattern(m.x, m.y, &m.pattern);
                    }
                    proof {
                        assert(grid@ == apply_match(gpre, mspre[i as int]));
                        assert forall|gf: Seq<Seq<char>>|
                            #[trigger] drained(grid@, ms.deep_view(), gf) implies drained(
                            g1,
                            ms0,
                            gf,
                        ) by {
                            assert(drained(gpre, mspre, gf));
                        };
                    }
                }
                proof {
                    assert(drained(grid@, ms.deep_view(), grid@));
                    assert(drained(g1, ms0, grid@));
                }
                *cursor += 1;
                proof {
                    assert(all_step(
                        rs0,
                        cur0,
                        cnt0g,
                        g0,
                        rules.deep_view(),
                        *cursor as int,
                        *count as int,
                        grid@,
                        true,
                    ));
                }
                true
            }
        } else {
            if *count > 0 {
                *cursor = 0;
                *count = 0;
                proof {
                    assert(all_step(rs0, cur0, cnt0g, g0, rules.deep_view(), 0, 0, grid@, true));
                }
                true
            } else {
                proof {
                    assert(all_step(
                        rs0,
                        cur0,
                        cnt0g,
                        g0,
                        rules.deep_view(),
                        cur0,
                        cnt0g,
                        grid@,
                        false,
                    ));
                }
                false
            }
        }
}

impl Rules {
    /// One step of the tree on the grid: true means work was done and the
    /// node wants to be called again; false means it is exhausted.
    pub fn apply(&mut self, grid: &mut Grid, rng: &mut Rng) -> (res: bool)
        requires
            old(self).wf(),
            old(grid).wf(),
            symbols_ok(*old(self), old(grid).alpha()),
        ensures
            final(self).wf(),
            final(grid).wf(),
            final(grid).alpha() == old(grid).alpha(),
            final(grid)@.len() == old(grid)@.len(),
            final(grid)@[0].len() == old(grid)@[0].len(),
            symbols_ok(*final(self), old(grid).alpha()),
            (*old(self)) matches Rules::Rule(r0) ==> ((*final(self)) matches Rules::Rule(r1)
                && rule_step(r0@, old(grid)@, r1@, final(grid)@, res)),
            (*old(self)) matches Rules::One(rs0) ==> ((*final(self)) matches Rules::One(rs1)
                && one_step(rs0.deep_view(), old(grid)@, rs1.deep_view(), final(grid)@, res)),
            (*old(self)) matches Rules::All(rs0, cur0, cnt0) ==> ((*final(self)) matches Rules::All(
                rs1,
                cur1,
                cnt1,
            ) && all_step(
                rs0.deep_view(),
                cur0 as int,
                cnt0 as int,
                old(grid)@,
                rs1.deep_view(),
                cur1 as int,
                cnt1 as int,
                final(grid)@,
                res,
            )),
            (*old(self)) matches Rules::Markov(kids0) ==> ((*final(self)) matches Rules::Markov(
                kids1,
            ) && markov_step(kids0@, old(grid)@, kids1@, final(grid)@, res)),
            (*old(self)) matches Rules::Sequence(kids0, cur0) ==> ((*final(self)) matches Rules::Sequence(
                kids1,
                cur1,
            ) && kids1@.len() == kids0@.len() && (if cur0 >= kids0@.len() {
                &&& !res
                &&& cur1 == cur0
                &&& final(grid)@ == old(grid)@
                &&& kids1@ == kids0@
            } else {
                &&& forall|j: int| 0 <= j < kids0@.len() && j != cur0 ==> kids1@[j] == kids0@[j]
                &&& (cur1 == cur0 || cur1 == cur0 + 1)
                &&& (cur1 == cur0 ==> res && step_rel(
                    kids0@[cur0 as int],
                    old(grid)@,
                    kids1@[cur0 as int],
                    final(grid)@,
                    true,
                ))
                &&& (cur1 == cur0 + 1 ==> step_rel(
                    kids0@[cur0 as int],
                    old(grid)@,
                    kids1@[cur0 as int],
                    final(grid)@,
                    false,
                ) && res == (cur1 < kids0@.len()))
            })),
            (*old(self)) matches Rules::Steps(rem0, bud0, child0) ==> ((*final(self)) matches Rules::Steps(
                rem1,
                bud1,
                child1,
            ) && bud1 == bud0 && (if rem0 == 0 {
                &&& !res
                &&& rem1 == bud0
                &&& final(grid)@ == old(grid)@
                &&& *child1 == *child0
            } else {
                &&& (res ==> rem1 == rem0 - 1 && step_rel(
                    *child0,
                    old(grid)@,
                    *child1,
                    final(grid)@,
                    true,
                ))
                &&& (!res ==> rem1 == bud0 && step_rel(
                    *child0,
                    old(grid)@,
                    *child1,
                    final(grid)@,
                    false,
                ))
            })),
            (*old(self)) matches Rules::All(rs0, cur0, cnt0) ==> ((no_origins(rs0.deep_view())
                && all_wave_inv(rs0.deep_view(), cur0 as int, cnt0 as int, old(grid)@))
                ==> ((*final(self)) matches Rules::All(rs1, cur1, cnt1) && {
                &&& rs1.deep_view() == rs0.deep_view()
                &&& no_origins(rs1.deep_view())
                &&& all_wave_inv(rs1.deep_view(), cur1 as int, cnt1 as int, final(grid)@)
                &&& (!res ==> final(grid)@ == old(grid)@ && forall|j: int|
                    0 <= j < rs1.deep_view().len() ==> find_matches_spec(
                        final(grid)@,
                        (#[trigger] rs1.deep_view()[j]).pattern,
                        rs1.deep_view()[j].symmetry,
                    ).len() == 0)
            })),
        decreases *old(self),
    {
        let res = match self {
            Rules::Rule(rule) => {
                let ghost r0full = *rule;
                let res = step_rule_leaf(rule, grid, rng);
                proof {
                    assert(*old(self) == Rules::Rule(r0full));
                    assert(rule_step(r0full@, old(grid)@, rule@, grid@, res));
                }
                res
            },
            Rules::One(rules) => {
                let ghost rs0 = rules.deep_view();
                let res = step_one(rules, grid, rng);
                proof {
                    assert((*old(self)) matches Rules::One(rr) && rr.deep_view() == rs0);
                    assert(one_step(rs0, old(grid)@, rules.deep_view(), grid@, res));
                }
                res
            },
            Rules::All(rules, cursor, count) => {
                let ghost rs0 = rules.deep_view();
                let ghost c0 = *cursor;
                let ghost k0 = *count;
                let res = step_all(rules, cursor, count, grid, rng);
                proof {
                    assert((*old(self)) matches Rules::All(rr, cc, kk) && rr.deep_view() == rs0
                        && cc == c0 && kk == k0);
                    assert(all_step(
                        rs0,
                        c0 as int,
                        k0 as int,
                        old(grid)@,
                        rules.deep_view(),
                        *cursor as int,
                        *count as int,
                        grid@,
                        res,
                    ));
                }
                res
            },
            Rules::Markov(kids) => {
                let ghost kids0 = kids@;
                let ghost g0v = grid@;
                let ghost alpha0 = old(grid).alpha();
                let n = kids.len();
                let mut i: usize = 0;
                let mut fired = false;
                let ghost mut trace: Seq<Seq<Seq<char>>> = seq![g0v];
                while i < n && !fired
                    invariant
                        i <= n,
                        n == kids0.len(),
                        kids@.len() == n,
                        grid.wf(),
                        grid.alpha() == alpha0,
                        alpha0 == old(grid).alpha(),
                        g0v == old(grid)@,
                        grid@.len() == old(grid)@.len(),
                        grid@[0].len() == old(grid)@[0].len(),
                        forall|j: int| 0 <= j < n ==> (#[trigger] kids@[j]).wf(),
                        forall|j: int| 0 <= j < n ==> symbols_ok(#[trigger] kids@[j], alpha0),
                        forall|j: int| i <= j < n ==> (#[trigger] kids@[j]) == kids0[j],
                        (*old(self)) matches Rules::Markov(k00) && k00@ == kids0,
                        trace.len() >= 1,
                        trace[0] == g0v,
                        !fired ==> trace.len() == i + 1 && trace[i as int] == grid@,
                        !fired ==> forall|j: int|
                            0 <= j < i ==> step_rel(
                                kids0[j],
                                trace[j],
                                #[trigger] kids@[j],
                                trace[j + 1],
                                false,
                            ),
                        fired ==> i >= 1 && trace.len() == i && step_rel(
                            kids0[i - 1],
                            trace[i - 1],
                            kids@[i - 1],
                            grid@,
                            true,
                        ),
                        fired ==> forall|j: int|
                            0 <= j < i - 1 ==> step_rel(
                                kids0[j],
                                trace[j],
                                #[trigger] kids@[j],
                                trace[j + 1],
                                false,
                            ),
                    decreases n - i,
                {
                    let ghost gpre = grid@;
                    fired = kids[i].apply(grid, rng);
                    proof {
                        assert(step_rel(kids0[i as int], gpre, kids@[i as int], grid@, fired));
                        if !fired {
                            trace = trace.push(grid@);
                        }
                    }
                    i += 1;
                }
                proof {
                    assert((*old(self)) matches Rules::Markov(k00) && k00@ == kids0);
                    if fired {
                        assert(trace.len() == i);
                        assert(step_rel(kids0[i - 1], trace[i - 1], kids@[i - 1], grid@, true));
                        assert(markov_fired(kids0, g0v, kids@, grid@, i - 1));
                    } else {
                        assert(i == n && trace.len() == n + 1 && trace[n as int] == grid@);
                        assert(markov_tried(kids0, g0v, kids@, grid@, n as int));
                    }
                    assert(markov_step(kids0, g0v, kids@, grid@, fired));
                }
                fired
            },
            Rules::Sequence(kids, cursor) => {
                let ghost kids0 = kids@;
                let ghost g0v = grid@;
                let ghost alpha0 = old(grid).alpha();
                let n = kids.len();
                if *cursor >= n {
                    return false;
                }
                let ghost cpre = *cursor as int;
                proof {
                    assert((*old(self)) matches Rules::Sequence(k00, c00) && k00@ == kids0 && c00
                        == *cursor);
                }
                let fired = kids[*cursor].apply(grid, rng);
                proof {
                    assert(step_rel(kids0[cpre], g0v, kids@[cpre], grid@, fired));
                }
                if fired {
                    true
                } else {
                    *cursor += 1;
                    *cursor < n
                }
            },
            Rules::Steps(remaining, budget, child) => {
                let ghost c0 = **child;
                let ghost g0v = grid@;
                proof {
                    assert((*old(self)) matches Rules::Steps(r00, b00, c00) && r00 == *remaining
                        && b00 == *budget && *c00 == c0);
                }
                if *remaining > 0 {
                    let fired = child.apply(grid, rng);
                    proof {
                        assert(step_rel(c0, g0v, **child, grid@, fired));
                    }
                    if fired {
                        *remaining -= 1;
                        true
                    } else {
                        *remaining = *budget;
                        false
                    }
                } else {
                    *remaining = *budget;
                    false
                }
            },
        };
        res
    }
}

/// Seeding changes nothing when no rule carries a pending origin.
proof fn lemma_gather_no_origins(g: Seq<Seq<char>>, rs: Seq<RuleView>, j: int)
    requires
        no_origins(rs),
    ensures
        gather(g, rs, j).0 == g,
    decreases rs.len() - j,
{
    if 0 <= j < rs.len() {
        lemma_gather_no_origins(g, rs, j + 1);
    }
}

/// Clearing origins that are already consumed changes nothing.
proof fn lemma_cleared_no_origins(rs: Seq<RuleView>)
    requires
        no_origins(rs),
    ensures
        cleared_rules(rs) == rs,
{
    assert(cleared_rules(rs) =~= rs);
}

/// The grids of a failing chain over origin-free `One` children are all
/// one grid: a failing `One` step writes nothing.
proof fn lemma_one_chain_constant(
    kids0: Seq<Rules>,
    kids1: Seq<Rules>,
    gs: Seq<Seq<Seq<char>>>,
    k: int,
    j: int,
)
    requires
        0 <= j <= k <= kids0.len(),
        kids1.len() == kids0.len(),
        gs.len() == k + 1,
        forall|i: int|
            0 <= i < k ==> step_rel(kids0[i], #[trigger] gs[i], kids1[i], gs[i + 1], false),
        forall|i: int|
            0 <= i < k ==> ((#[trigger] kids0[i]) matches Rules::One(rs) && no_origins(
                rs.deep_view(),
            )),
    ensures
        gs[j] == gs[0],
    decreases j,
{
    if j > 0 {
        lemma_one_chain_constant(kids0, kids1, gs, k, j - 1);
        assert(kids0[j - 1] matches Rules::One(rs) && no_origins(rs.deep_view()));
        assert(step_rel(kids0[j - 1], gs[j - 1], kids1[j - 1], gs[j], false));
        match kids0[j - 1] {
            Rules::One(rs) => {
                lemma_gather_no_origins(gs[j - 1], rs.deep_view(), 0);
            },
            _ => {},
        }
    }
}

/// Exhaustion of a `Markov` node over origin-free `One` children: when a
/// step finds every child failing, the grid is untouched and every
/// child's merged match list on that very grid is empty — so no rule of
/// any child has a placement left.
pub proof fn lemma_markov_exhausts_one_children(
    kids0: Seq<Rules>,
    g0: Seq<Seq<char>>,
    kids1: Seq<Rules>,
    g1: Seq<Seq<char>>,
)
    requires
        markov_tried(kids0, g0, kids1, g1, kids0.len() as int),
        forall|j: int|
            0 <= j < kids0.len() ==> ((#[trigger] kids0[j]) matches Rules::One(rs) && no_origins(
                rs.deep_view(),
            )),
    ensures
        g1 == g0,
        forall|j: int|
            0 <= j < kids0.len() ==> ((#[trigger] kids0[j]) matches Rules::One(rs) ==> gather(
                g1,
                rs.deep_view(),
                0,
            ).1.len() == 0),
{
    let k = kids0.len() as int;
    let gs = choose|gs: Seq<Seq<Seq<char>>>|
        #![trigger gs.len()]
        {
            &&& gs.len() == k + 1
            &&& gs[0] == g0
            &&& gs[k] == g1
            &&& kids1.len() == kids0.len()
            &&& 0 <= k <= kids0.len()
            &&& forall|j: int|
                0 <= j < k ==> step_rel(kids0[j], #[trigger] gs[j], kids1[j], gs[j + 1], false)
        };
    lemma_one_chain_constant(kids0, kids1, gs, k, k);
    assert forall|j: int|
        0 <= j < kids0.len() implies ((#[trigger] kids0[j]) matches Rules::One(rs) ==> gather(
        g1,
        rs.deep_view(),
        0,
    ).1.len() == 0) by {
        lemma_one_chain_constant(kids0, kids1, gs, k, j);
        lemma_one_chain_constant(kids0, kids1, gs, k, j + 1);
        assert(step_rel(kids0[j], gs[j], kids1[j], gs[j + 1], false));
        match kids0[j] {
            Rules::One(rs) => {
                lemma_gather_no_origins(gs[j], rs.deep_view(), 0);
            },
            _ => {},
        }
    }
}

/// Drives a rule tree: calls `apply` until the root reports exhaustion
/// or the step budget runs out, and returns how many calls reported work.
///
/// The count reflects the run: a zero count within budget means the very
/// first call already reported exhaustion, and a positive count means a
/// step of the initial tree once reported work.  When the budget was not
/// exhausted the tree itself gave up, and a root whose origins are
/// already consumed then leaves the grid exhausted: a `Rule` root has no
/// match left, a `One` root gathers an empty merged list, and an `All`
/// root that started on a consistent wave leaves no rule of the node with
/// any match at all.
pub fn run_to_exhaustion(root: &mut Rules, grid: &mut Grid, rng: &mut Rng, max_steps: u64) -> (steps:
    u64)
    requires
        old(root).wf(),
        old(grid).wf(),
        symbols_ok(*old(root), old(grid).alpha()),
    ensures
        final(root).wf(),
        final(grid).wf(),
        final(grid).alpha() == old(grid).alpha(),
        final(grid)@.len() == old(grid)@.len(),
        final(grid)@[0].len() == old(grid)@[0].len(),
        steps <= max_steps,
        (*old(root)) matches Rules::Rule(r0) ==> ((r0@.origin is None && steps < max_steps)
            ==> find_matches_spec(final(grid)@, r0@.pattern, r0@.symmetry).len() == 0),
        (*old(root)) matches Rules::Rule(r0) ==> ((r0@.origin is None && max_steps > 0
            && find_matches_spec(old(grid)@, r0@.pattern, r0@.symmetry).len() > 0) ==> steps >= 1),
        (*old(root)) matches Rules::Rule(r0) ==> ((r0@.origin is None && steps > 0)
            ==> find_matches_spec(old(grid)@, r0@.pattern, r0@.symmetry).len() > 0),
        (*old(root)) matches Rules::One(rs0) ==> ((no_origins(rs0.deep_view()) && steps < max_steps)
            ==> gather(final(grid)@, rs0.deep_view(), 0).1.len() == 0),
        (*old(root)) matches Rules::One(rs0) ==> ((no_origins(rs0.deep_view()) && max_steps > 0
            && gather(old(grid)@, rs0.deep_view(), 0).1.len() > 0) ==> steps >= 1),
        (*old(root)) matches Rules::One(rs0) ==> ((no_origins(rs0.deep_view()) && steps > 0)
            ==> gather(old(grid)@, rs0.deep_view(), 0).1.len() > 0),
        (*old(root)) matches Rules::All(rs0, cur0, cnt0) ==> ((steps < max_steps && no_origins(
            rs0.deep_view(),
        ) && all_wave_inv(rs0.deep_view(), cur0 as int, cnt0 as int, old(grid)@)) ==> forall|j: int|
            0 <= j < rs0.deep_view().len() ==> find_matches_spec(
                final(grid)@,
                (#[trigger] rs0.deep_view()[j]).pattern,
                rs0.deep_view()[j].symmetry,
            ).len() == 0),
{
    let mut steps: u64 = 0;
    let mut more = true;
    while more && steps < max_steps
        invariant
            root.wf(),
            grid.wf(),
            grid.alpha() == old(grid).alpha(),
            grid@.len() == old(grid)@.len(),
            grid@[0].len() == old(grid)@[0].len(),
            symbols_ok(*root, old(grid).alpha()),
            steps <= max_steps,
            steps == 0 && more ==> *root == *old(root) && grid@ == old(grid)@,
            (*old(root)) matches Rules::Rule(r0) ==> ((r0@.origin is None && steps > 0)
                ==> find_matches_spec(old(grid)@, r0@.pattern, r0@.symmetry).len() > 0),
            (*old(root)) matches Rules::One(rs0) ==> ((no_origins(rs0.deep_view()) && steps > 0)
                ==> gather(old(grid)@, rs0.deep_view(), 0).1.len() > 0),
            (*old(root)) matches Rules::Rule(r0) ==> (r0@.origin is None ==> ((*root) matches Rules::Rule(
                rc,
            ) && {
                &&& rc@.pattern == r0@.pattern
                &&& rc@.symmetry == r0@.symmetry
                &&& rc@.origin is None
                &&& (!more ==> find_matches_spec(grid@, r0@.pattern, r0@.symmetry).len() == 0)
                &&& (!more && steps == 0 ==> grid@ == old(grid)@)
            })),
            (*old(root)) matches Rules::One(rs0) ==> (no_origins(rs0.deep_view()) ==> ((*root) matches Rules::One(
                rsc,
            ) && {
                &&& rsc.deep_view() == rs0.deep_view()
                &&& (!more ==> gather(grid@, rs0.deep_view(), 0).1.len() == 0)
                &&& (!more && steps == 0 ==> grid@ == old(grid)@)
            })),
            (*old(root)) matches Rules::All(rs0, cur0, cnt0) ==> ((no_origins(rs0.deep_view())
                && all_wave_inv(rs0.deep_view(), cur0 as int, cnt0 as int, old(grid)@)) ==> ((*root) matches Rules::All(
                rsc,
                curc,
                cntc,
            ) && {
                &&& rsc.deep_view() == rs0.deep_view()
                &&& no_origins(rsc.deep_view())
                &&& all_wave_inv(rsc.deep_view(), curc as int, cntc as int, grid@)
                &&& (!more ==> forall|j: int|
                    0 <= j < rsc.deep_view().len() ==> find_matches_spec(
                        grid@,
                        (#[trigger] rsc.deep_view()[j]).pattern,
                        rsc.deep_view()[j].symmetry,
                    ).len() == 0)
            })),
        decreases max_steps - steps, (if more {
            1int
        } else {
            0int
        }),
    {
        let ghost gpre = grid@;
        more = root.apply(grid, rng);
        proof {
            match *old(root) {
                Rules::Rule(r0) => {
                    if r0@.origin is None {
                        lemma_matches_sound(gpre, r0@.pattern, r0@.symmetry);
                    }
                },
                Rules::One(rs0) => {
                    if no_origins(rs0.deep_view()) {
                        lemma_gather_no_origins(gpre, rs0.deep_view(), 0);
                        lemma_cleared_no_origins(rs0.deep_view());
                    }
                },
                _ => {},
            }
        }
        if more {
            steps += 1;
        }
    }
    proof {
        match *old(root) {
            Rules::Rule(r0) => {
                if r0@.origin is None {
                    lemma_matches_sound(old(grid)@, r0@.pattern, r0@.symmetry);
                }
            },
            _ => {},
        }
    }
    steps
}

} // verus!
