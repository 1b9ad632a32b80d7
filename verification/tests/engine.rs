//! End-to-end scenarios for the rule-tree interpreter.

use jammars::Grid;
use jammars::Pattern;
use jammars::Rng;
use jammars::Rotation;
use jammars::Rule;
use jammars::Rules;
use jammars::Symmetry;

fn rows(rs: &[&str]) -> Vec<Vec<char>> {
    let mut v: Vec<Vec<char>> = Vec::new();
    for r in rs {
        v.push(r.chars().collect());
    }
    v
}

fn pat(find: &[&str], replace: &[&str]) -> Pattern {
    Pattern::new(rows(find), rows(replace)).unwrap()
}

fn cell_at(g: &Grid, x: usize, y: usize) -> char {
    g.get(x, y).unwrap()
}

fn count_symbol(g: &Grid, sym: char) -> usize {
    let mut n = 0;
    for y in 0..g.height() {
        for x in 0..g.width() {
            if cell_at(g, x, y) == sym {
                n += 1;
            }
        }
    }
    n
}

#[test]
fn tile_seed_growth() {
    let mut grid = Grid::new(5, 5, "BRG").unwrap();
    let rule = Rule::new(
        pat(&["RBB"], &["GGR"]),
        Some('R'),
        Symmetry::Axes { x: true, y: false },
    );
    let mut root = Rules::One(vec![rule]);
    let mut rng = Rng::seeded(7);

    // The first step stamps the origin on the center and rewrites a run.
    let first = root.apply(&mut grid, &mut rng);
    assert!(first);

    let mut steps = 1;
    while root.apply(&mut grid, &mut rng) {
        steps += 1;
        assert!(steps <= 25);
    }

    // The center seed is never overwritten back to the background.
    assert_ne!(cell_at(&grid, 2, 2), 'B');
    // Exhaustion means no horizontal placement of the pattern is left.
    let probe = pat(&["RBB"], &["GGR"]);
    let ms = grid.find_matches(&probe, Symmetry::Axes { x: true, y: false });
    assert_eq!(ms.len(), 0);
}

#[test]
fn mirror_dedup() {
    let grid = Grid::new(3, 3, "BW").unwrap();
    let probe = pat(&["BBB"], &["WWW"]);
    let ms = grid.find_matches(&probe, Symmetry::Default);

    // The half turn of a uniform row equals the row itself, so the Mirror
    // rotation is suppressed; the two quarter turns both stay.
    assert_eq!(ms.len(), 9);
    let mut identity = 0;
    let mut clockwise = 0;
    let mut counter = 0;
    for m in &ms {
        match m.pattern.current {
            Rotation::Identity => identity += 1,
            Rotation::Clockwise => clockwise += 1,
            Rotation::Counter => counter += 1,
            Rotation::Mirror => panic!("a mirrored duplicate was not suppressed"),
        }
    }
    assert_eq!(identity, 3);
    assert_eq!(clockwise, 3);
    assert_eq!(counter, 3);
}

#[test]
fn sequence_termination() {
    let mut grid = Grid::new(2, 2, "BWR").unwrap();
    let first = Rules::One(vec![Rule::new(pat(&["B"], &["W"]), None, Symmetry::Default)]);
    let second = Rules::One(vec![Rule::new(pat(&["W"], &["R"]), None, Symmetry::Default)]);
    let mut root = Rules::Sequence(vec![first, second], 0);
    let mut rng = Rng::seeded(11);

    let mut productive = 0;
    while root.apply(&mut grid, &mut rng) {
        productive += 1;
        assert!(productive <= 9);
    }

    // Four rewrites per child plus one cursor-advance step report work;
    // the second advance reaches the end and reports exhaustion.
    assert_eq!(productive, 9);
    assert_eq!(count_symbol(&grid, 'R'), 4);
}

#[test]
fn steps_cap() {
    let mut grid = Grid::new(10, 10, "BW").unwrap();
    let child = Rules::One(vec![Rule::new(pat(&["B"], &["W"]), None, Symmetry::Default)]);
    let mut root = Rules::Steps(3, 3, Box::new(child));
    let mut rng = Rng::seeded(3);

    assert!(root.apply(&mut grid, &mut rng));
    assert!(root.apply(&mut grid, &mut rng));
    assert!(root.apply(&mut grid, &mut rng));
    // The budget is spent: the node defers even though matches remain.
    assert!(!root.apply(&mut grid, &mut rng));
    assert_eq!(count_symbol(&grid, 'W'), 3);
    assert_eq!(count_symbol(&grid, 'B'), 97);
}

#[test]
fn markov_priority() {
    let mut grid = Grid::new(8, 1, "BRU").unwrap();
    assert!(grid.set(0, 0, 'R'));
    let spread = Rules::One(vec![Rule::new(pat(&["RBB"], &["RBR"]), None, Symmetry::Default)]);
    let decay = Rules::One(vec![Rule::new(pat(&["R"], &["U"]), None, Symmetry::Default)]);
    let mut root = Rules::Markov(vec![spread, decay]);
    let mut rng = Rng::seeded(5);

    let mut steps = 0;
    while root.apply(&mut grid, &mut rng) {
        steps += 1;
        assert!(steps <= 100);
    }

    // While any R B B run existed the decay rule never fired, so the
    // spread reached every other cell before any R turned to U.
    for x in 0..8 {
        let expect = if x % 2 == 0 { 'U' } else { 'B' };
        assert_eq!(cell_at(&grid, x, 0), expect);
    }
    let probe = pat(&["RBB"], &["RBR"]);
    assert_eq!(grid.find_matches(&probe, Symmetry::Default).len(), 0);
}

#[test]
fn replace_wildcard_preservation() {
    let mut grid = Grid::new(2, 1, "ABC").unwrap();
    assert!(grid.set(1, 0, 'B'));
    let p = pat(&["AB"], &["*C"]);
    assert!(grid.check_pattern(0, 0, &p));
    grid.replace_pattern(0, 0, &p);
    // Only the second cell is overwritten; the wildcard preserves the first.
    assert_eq!(cell_at(&grid, 0, 0), 'A');
    assert_eq!(cell_at(&grid, 1, 0), 'C');
}

#[test]
fn all_exhaustion_leaves_no_match() {
    let mut grid = Grid::new(2, 2, "BWR").unwrap();
    let r1 = Rule::new(pat(&["B"], &["W"]), None, Symmetry::Default);
    let r2 = Rule::new(pat(&["W"], &["R"]), None, Symmetry::Default);
    let mut root = Rules::All(vec![r1, r2], 0, 0);
    let mut rng = Rng::seeded(9);

    let mut steps = 0;
    while root.apply(&mut grid, &mut rng) {
        steps += 1;
        assert!(steps <= 100);
    }

    // Exhaustion of `All` means an entire wave found nothing: no child
    // has any match left on the final grid.
    assert_eq!(grid.find_matches(&pat(&["B"], &["W"]), Symmetry::Default).len(), 0);
    assert_eq!(grid.find_matches(&pat(&["W"], &["R"]), Symmetry::Default).len(), 0);
    assert_eq!(count_symbol(&grid, 'R'), 4);
}

#[test]
fn one_weights_by_matches() {
    // Only the second rule has matches, so every drawn match is its own.
    let mut grid = Grid::new(3, 1, "BWX").unwrap();
    let never = Rule::new(pat(&["X"], &["W"]), None, Symmetry::Default);
    let always = Rule::new(pat(&["B"], &["W"]), None, Symmetry::Default);
    let mut root = Rules::One(vec![never, always]);
    let mut rng = Rng::seeded(21);

    for converted in 1..=3 {
        assert!(root.apply(&mut grid, &mut rng));
        assert_eq!(count_symbol(&grid, 'W'), converted);
    }
    assert!(!root.apply(&mut grid, &mut rng));
}

#[test]
fn rule_leaf_steps_once() {
    let mut grid = Grid::new(2, 1, "BW").unwrap();
    let mut root = Rules::Rule(Rule::new(pat(&["B"], &["W"]), None, Symmetry::Default));
    let mut rng = Rng::seeded(2);

    assert!(root.apply(&mut grid, &mut rng));
    assert_eq!(count_symbol(&grid, 'W'), 1);
    assert!(root.apply(&mut grid, &mut rng));
    assert_eq!(count_symbol(&grid, 'W'), 2);
    assert!(!root.apply(&mut grid, &mut rng));
}

#[test]
fn run_to_exhaustion_driver() {
    let mut grid = Grid::new(4, 1, "BW").unwrap();
    let mut root = Rules::One(vec![Rule::new(pat(&["B"], &["W"]), None, Symmetry::Default)]);
    let mut rng = Rng::seeded(13);
    let steps = jammars::run_to_exhaustion(&mut root, &mut grid, &mut rng, 100);
    assert_eq!(steps, 4);
    assert_eq!(count_symbol(&grid, 'W'), 4);
}

#[test]
fn origin_seeded_once() {
    let mut grid = Grid::new(3, 3, "BR").unwrap();
    // A rule that can never rewrite still stamps its origin once.
    let rule = Rule::new(pat(&["RR"], &["RR"]), Some('R'), Symmetry::Default);
    let mut root = Rules::One(vec![rule]);
    let mut rng = Rng::seeded(17);

    // One match exists right after seeding: none, since R R needs two.
    assert!(!root.apply(&mut grid, &mut rng));
    assert_eq!(cell_at(&grid, 1, 1), 'R');
    assert_eq!(count_symbol(&grid, 'R'), 1);
}
