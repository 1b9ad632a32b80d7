//! A rewrite rule: a pattern, an optional one-shot origin seed symbol, and
//! a symmetry selector.
//!
//! The origin symbol is stamped on the grid center exactly once, the first
//! time the rule is reached in a run; afterwards the field is empty.

use vstd::prelude::*;

use crate::grid::Grid;
use crate::grid::fits_at;
use crate::grid::replace_cells_ok;
use crate::grid::set_origin_spec;
use crate::grid::write_at;
use crate::matcher::Match;
use crate::matcher::MatchView;
use crate::matcher::Symmetry;
use crate::pattern::Pattern;
use crate::pattern::PatternView;
use crate::rng::Rng;

verus! {

/// The mathematical content of a rule.
#[verifier::ext_equal]
pub ghost struct RuleView {
    pub pattern: PatternView,
    pub origin: Option<char>,
    pub symmetry: Symmetry,
}

impl RuleView {
    /// The pattern is well-formed and a pending origin is a real symbol,
    /// never the wildcard.
    pub open spec fn wf(self) -> bool {
        &&& self.pattern.wf()
        &&& self.origin matches Some(s) ==> self.origin->0 != '*'
    }

    /// The same rule with its one-shot origin consumed.
    pub open spec fn cleared(self) -> RuleView {
        RuleView { pattern: self.pattern, origin: None, symmetry: self.symmetry }
    }
}

/// The rule writes only alphabet symbols: a pending origin belongs to
/// the alphabet, and every `replace` cell is the wildcard or an alphabet
/// symbol.
pub open spec fn rule_symbols_ok(r: RuleView, alpha: Seq<char>) -> bool {
    &&& r.origin matches Some(s) ==> alpha.contains(r.origin->0)
    &&& replace_cells_ok(r.pattern.replace, alpha)
}

/// The grid after stamping a pending origin symbol, if any, on the center.
pub open spec fn seeded_grid(g: Seq<Seq<char>>, origin: Option<char>) -> Seq<Seq<char>> {
    match origin {
        Some(s) => set_origin_spec(g, s),
        None => g,
    }
}

/// One drawing of match `i` from the list `before` against the grid `g`:
/// the match is removed, its fit re-checked on `g`, and written exactly
/// when it still fits.
pub open spec fn picked_match(
    before: Seq<MatchView>,
    g: Seq<Seq<char>>,
    i: int,
    after: Seq<MatchView>,
    gout: Seq<Seq<char>>,
    applied: bool,
) -> bool {
    &&& 0 <= i < before.len()
    &&& after == before.remove(i)
    &&& applied == fits_at(g, before[i].x, before[i].y, before[i].pattern.find)
    &&& gout == (if fits_at(g, before[i].x, before[i].y, before[i].pattern.find) {
        write_at(g, before[i].x, before[i].y, before[i].pattern.replace)
    } else {
        g
    })
}

/// A rewrite rule.
#[derive(Debug)]
pub struct Rule {
    /// The find / replace pair.
    pub pattern: Pattern,
    /// A symbol to stamp on the grid center once, before the rule's first
    /// enumeration; consumed by the first step that reaches the rule.
    pub origin: Option<char>,
    /// The rotations under which the pattern is enumerated.
    pub symmetry: Symmetry,
}

impl View for Rule {
    type V = RuleView;

    open spec fn view(&self) -> RuleView {
        RuleView { pattern: self.pattern@, origin: self.origin, symmetry: self.symmetry }
    }
}

impl DeepView for Rule {
    type V = RuleView;

    open spec fn deep_view(&self) -> RuleView {
        self@
    }
}

impl Clone for Rule {
    /// The copy has the same view: same pattern, origin and symmetry.
    fn clone(&self) -> (r: Self)
        ensures
            r@ == self@,
    {
        let r = Rule { pattern: self.pattern.clone(), origin: self.origin, symmetry: self.symmetry };
        proof {
            assert(r@ =~~= self@);
        }
        r
    }
}

impl Rule {
    /// Builds a rule.  The origin, when given, must be a real symbol: the
    /// wildcard is reserved and cannot be stamped on a grid.
    pub fn new(pattern: Pattern, origin: Option<char>, symmetry: Symmetry) -> (r: Rule)
        requires
            pattern@.wf(),
            origin matches Some(s) ==> origin->0 != '*',
        ensures
            r@ == (RuleView { pattern: pattern@, origin: origin, symmetry: symmetry }),
            r@.wf(),
    {
        Rule { pattern, origin, symmetry }
    }

    /// Applies one of the discovered matches, chosen uniformly.
    ///
    /// A pending origin is stamped and consumed first.  With no matches
    /// the call reports failure.  Otherwise one match is drawn and removed,
    /// its fit is re-checked against the current grid (an enclosing node
    /// may have invalidated it by earlier writes), and only a match that
    /// still fits is written.
    pub fn apply(&mut self, grid: &mut Grid, rng: &mut Rng, matches: &mut Vec<Match>) -> (applied:
        bool)
        requires
            old(self)@.wf(),
            old(grid).wf(),
            rule_symbols_ok(old(self)@, old(grid).alpha()),
            forall|i: int|
                0 <= i < old(matches)@.len() ==> (#[trigger] old(
                    matches,
                ).deep_view()[i]).pattern.wf(),
            forall|i: int|
                0 <= i < old(matches)@.len() ==> replace_cells_ok(
                    (#[trigger] old(matches).deep_view()[i]).pattern.replace,
                    old(grid).alpha(),
                ),
        ensures
            final(self)@ == old(self)@.cleared(),
            final(grid).wf(),
            final(grid).alpha() == old(grid).alpha(),
            final(grid)@.len() == old(grid)@.len(),
            final(grid)@[0].len() == old(grid)@[0].len(),
            ({
                let g1 = seeded_grid(old(grid)@, old(self)@.origin);
                if old(matches)@.len() == 0 {
                    &&& !applied
                    &&& final(grid)@ == g1
                    &&& final(matches).deep_view() == old(matches).deep_view()
                } else {
                    exists|i: int|
                        picked_match(
                            old(matches).deep_view(),
                            g1,
                            i,
                            final(matches).deep_view(),
                            final(grid)@,
                            applied,
                        )
                }
            }),
    {
        if let Some(s) = self.origin {
            grid.set_origin(s);
            self.origin = None;
        }
        if matches.len() == 0 {
            return false;
        }
        let i = rng.index(matches.len());
        let ghost before = matches.deep_view();
        let m = matches.remove(i);
        proof {
            assert(matches.deep_view() =~~= before.remove(i as int));
            assert(m@ == before[i as int]);
        }
        let ghost g1 = seeded_grid(old(grid)@, old(self)@.origin);
        if grid.check_pattern(m.x, m.y, &m.pattern) {
            grid.replace_pattern(m.x, m.y, &m.pattern);
            proof {
                lemma_write_keeps_dims(g1, m@);
                assert(picked_match(before, g1, i as int, matches.deep_view(), grid@, true));
            }
            true
        } else {
            proof {
                assert(picked_match(before, g1, i as int, matches.deep_view(), grid@, false));
            }
            false
        }
    }
}

/// Writing keeps the grid's dimensions.
proof fn lemma_write_keeps_dims(g: Seq<Seq<char>>, m: MatchView)
    requires
        g.len() > 0,
    ensures
        write_at(g, m.x, m.y, m.pattern.replace).len() == g.len(),
        write_at(g, m.x, m.y, m.pattern.replace)[0].len() == g[0].len(),
{
}

} // verus!
