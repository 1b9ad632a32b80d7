//! Unit tests for grids, patterns, rotation algebra, matching and errors.

use jammars::ConstructionError;
use jammars::Grid;
use jammars::Pattern;
use jammars::Rng;
use jammars::Rotation;
use jammars::Symmetry;
use jammars::alphabet_color;

fn rows(rs: &[&str]) -> Vec<Vec<char>> {
    let mut v: Vec<Vec<char>> = Vec::new();
    for r in rs {
        v.push(r.chars().collect());
    }
    v
}

fn pat(find: &[&str], replace: &[&str]) -> Pattern {
    Pattern::new(rows(find), rows(replace)).unwrap()
}

#[test]
fn grid_construction_uppercases() {
    let g = Grid::new(3, 2, "bw").unwrap();
    assert_eq!(g.width(), 3);
    assert_eq!(g.height(), 2);
    for y in 0..2 {
        for x in 0..3 {
            assert_eq!(g.get(x, y), Some('B'));
        }
    }
}

#[test]
fn grid_construction_errors() {
    assert_eq!(Grid::new(3, 3, "").unwrap_err(), ConstructionError::EmptyAlphabet);
    assert_eq!(Grid::new(3, 3, "A*B").unwrap_err(), ConstructionError::WildcardInAlphabet);
    assert_eq!(Grid::new(0, 3, "AB").unwrap_err(), ConstructionError::ZeroGridDimension);
    assert_eq!(Grid::new(3, 0, "AB").unwrap_err(), ConstructionError::ZeroGridDimension);
}

#[test]
fn grid_get_set_bounds() {
    let mut g = Grid::new(3, 3, "BW").unwrap();
    assert_eq!(g.get(3, 0), None);
    assert_eq!(g.get(0, 3), None);
    assert!(!g.set(3, 0, 'W'));
    assert!(!g.set(0, 0, '*'));
    // A symbol outside the alphabet never reaches a cell.
    assert!(!g.set(0, 0, 'Z'));
    assert!(g.set(0, 0, 'W'));
    assert_eq!(g.get(0, 0), Some('W'));
}

#[test]
fn grid_set_origin_center() {
    let mut g = Grid::new(5, 4, "BW").unwrap();
    g.set_origin('W');
    assert_eq!(g.get(2, 2), Some('W'));
    assert_eq!(g.get(2, 1), Some('B'));
}

#[test]
fn pattern_construction_errors() {
    let empty: Vec<Vec<char>> = Vec::new();
    assert_eq!(
        Pattern::new(empty, rows(&["AB"])).unwrap_err(),
        ConstructionError::EmptyPattern
    );
    assert_eq!(
        Pattern::new(rows(&[""]), rows(&[""])).unwrap_err(),
        ConstructionError::EmptyPattern
    );
    assert_eq!(
        Pattern::new(rows(&["AB"]), rows(&["ABC"])).unwrap_err(),
        ConstructionError::ShapeMismatch
    );
    assert_eq!(
        Pattern::new(rows(&["AB", "C"]), rows(&["AB", "CD"])).unwrap_err(),
        ConstructionError::ShapeMismatch
    );
}

#[test]
fn wildcard_find_never_fails() {
    let g = Grid::new(3, 3, "BW").unwrap();
    let blank = pat(&["**", "**"], &["**", "**"]);
    for y in 0..2 {
        for x in 0..2 {
            assert!(g.check_pattern(x, y, &blank));
        }
    }
    // Out of bounds still fails, wildcards or not.
    assert!(!g.check_pattern(2, 2, &blank));
}

#[test]
fn wildcard_write_preserves() {
    let mut g = Grid::new(2, 2, "BWR").unwrap();
    assert!(g.set(0, 0, 'W'));
    let p = pat(&["**", "**"], &["*R", "R*"]);
    g.replace_pattern(0, 0, &p);
    assert_eq!(g.get(0, 0), Some('W'));
    assert_eq!(g.get(1, 0), Some('R'));
    assert_eq!(g.get(0, 1), Some('R'));
    assert_eq!(g.get(1, 1), Some('B'));
}

#[test]
fn rotation_rotates_both_arrays() {
    let p = pat(&["AB", "CD"], &["EF", "GH"]);
    let q = p.rotate(Rotation::Clockwise);
    assert_eq!(q.current, Rotation::Clockwise);
    assert_eq!(q.find, rows(&["CA", "DB"]));
    assert_eq!(q.replace, rows(&["GE", "HF"]));
}

#[test]
fn rotation_idempotent() {
    let p = pat(&["ABC"], &["DEF"]);
    for r in [Rotation::Identity, Rotation::Clockwise, Rotation::Mirror, Rotation::Counter] {
        let once = p.rotate(r);
        let twice = once.rotate(r);
        assert_eq!(once.find, twice.find);
        assert_eq!(once.replace, twice.replace);
        assert_eq!(once.current, twice.current);
    }
}

#[test]
fn rotation_mirror_involution() {
    let p = pat(&["AB", "CD"], &["EF", "GH"]);
    let there = p.rotate(Rotation::Mirror);
    assert_eq!(there.find, rows(&["DC", "BA"]));
    let back = there.rotate(Rotation::Identity);
    assert_eq!(back.find, p.find);
    assert_eq!(back.replace, p.replace);
    assert_eq!(back.current, Rotation::Identity);
}

#[test]
fn rotation_clockwise_order_four() {
    let p = pat(&["AB", "CD"], &["EF", "GH"]);
    // Each hop applies one more clockwise quarter turn per the delta table.
    let q = p
        .rotate(Rotation::Clockwise)
        .rotate(Rotation::Mirror)
        .rotate(Rotation::Counter)
        .rotate(Rotation::Identity);
    assert_eq!(q.find, p.find);
    assert_eq!(q.replace, p.replace);
    assert_eq!(q.current, Rotation::Identity);
}

#[test]
fn matches_are_sound() {
    let mut g = Grid::new(4, 3, "BWR").unwrap();
    assert!(g.set(1, 1, 'W'));
    assert!(g.set(2, 1, 'W'));
    let probe = pat(&["WW"], &["RR"]);
    let ms = g.find_matches(&probe, Symmetry::Default);
    assert!(ms.len() > 0);
    for m in &ms {
        assert!(g.check_pattern(m.x, m.y, &m.pattern));
    }
}

#[test]
fn matches_are_complete() {
    let mut g = Grid::new(3, 3, "BW").unwrap();
    assert!(g.set(1, 0, 'W'));
    assert!(g.set(1, 1, 'W'));
    assert!(g.set(1, 2, 'W'));
    // The vertical W column matches the horizontal probe under a quarter
    // turn anchored at (1, 0).
    let probe = pat(&["WWW"], &["BBB"]);
    let ms = g.find_matches(&probe, Symmetry::Default);
    let mut found = false;
    for m in &ms {
        if m.x == 1 && m.y == 0 && m.pattern.current == Rotation::Clockwise {
            found = true;
        }
    }
    assert!(found);
}

#[test]
fn symmetry_axis_sets() {
    let g = Grid::new(3, 3, "BW").unwrap();
    let probe = pat(&["BB"], &["WW"]);
    // x-axis only: identity and half turn; the half turn of B B is a
    // duplicate, so only identity placements remain.
    let ms = g.find_matches(&probe, Symmetry::Axes { x: true, y: false });
    for m in &ms {
        assert_eq!(m.pattern.current, Rotation::Identity);
    }
    assert_eq!(ms.len(), 6);
    // y-axis only: the two quarter turns, which agree on B B, both listed.
    let ms = g.find_matches(&probe, Symmetry::Axes { x: false, y: true });
    assert_eq!(ms.len(), 12);
    // No axis: identity only.
    let ms = g.find_matches(&probe, Symmetry::Axes { x: false, y: false });
    assert_eq!(ms.len(), 6);
}

#[test]
fn palette_colors() {
    assert_eq!(alphabet_color('B'), [0x00, 0x00, 0x00]);
    assert_eq!(alphabet_color('R'), [0xFF, 0x00, 0x4D]);
    assert_eq!(alphabet_color('U'), [0x29, 0xAD, 0xFF]);
    assert_eq!(alphabet_color('9'), [0xFF, 0xFF, 0xFF]);
}

#[test]
fn rng_indices_in_range() {
    let mut rng = Rng::seeded(42);
    assert_eq!(rng.index(1), 0);
    for n in 1..64 {
        let i = rng.index(n);
        assert!(i < n);
    }
}

#[test]
fn rng_is_deterministic() {
    let mut a = Rng::seeded(1234);
    let mut b = Rng::seeded(1234);
    for n in 2..34 {
        assert_eq!(a.index(n), b.index(n));
    }
}

#[test]
fn cells_lists_row_major() {
    let mut g = Grid::new(3, 2, "BW").unwrap();
    assert!(g.set(2, 1, 'W'));
    let cells = g.cells();
    assert_eq!(cells.len(), 6);
    assert_eq!(cells[0], (0, 0, 'B'));
    assert_eq!(cells[3], (0, 1, 'B'));
    assert_eq!(cells[5], (2, 1, 'W'));
}

#[test]
fn pattern_clone_is_equal() {
    let p = pat(&["AB"], &["C*"]);
    let q = p.clone();
    assert_eq!(p.find, q.find);
    assert_eq!(p.replace, q.replace);
    assert_eq!(p.current, q.current);
}
