//! The rectangular grid of symbols and its two primitive operations:
//! testing whether a pattern's `find` array fits at a position, and writing
//! a pattern's `replace` array there while honoring wildcards.
//!
//! Every cell always holds an alphabet symbol, never the wildcard; both
//! primitives tolerate out-of-bounds positions (a failed fit, a partial
//! no-op write).

use vstd::prelude::*;

use crate::error::ConstructionError;
use crate::pattern::Pattern;
use crate::pattern::cell;
use crate::pattern::ncols_at;
use crate::pattern::nrows;
use crate::pattern::push_row;
use crate::rotation::rect;

verus! {

/// True when a pattern array of this `find` shape, anchored with its top
/// left corner on `(x, y)`, lies inside the grid and every non-wildcard
/// `find` cell equals the grid cell under it.
pub open spec fn fits_at(g: Seq<Seq<char>>, x: int, y: int, find: Seq<Seq<char>>) -> bool {
    &&& 0 <= x
    &&& 0 <= y
    &&& y + find.len() <= g.len()
    &&& x + find[0].len() <= g[0].len()
    &&& forall|r: int, c: int|
        0 <= r < find.len() && 0 <= c < find[0].len() ==> (#[trigger] find[r][c]) == '*' || g[y
            + r][x + c] == find[r][c]
}

/// The grid after writing a `replace` array at `(x, y)`: every in-bounds
/// cell under a non-wildcard `replace` cell takes that symbol, every other
/// cell keeps its old one.
pub open spec fn write_at(g: Seq<Seq<char>>, x: int, y: int, rep: Seq<Seq<char>>) -> Seq<
    Seq<char>,
> {
    Seq::new(
        g.len(),
        |gy: int|
            Seq::new(
                g[gy].len(),
                |gx: int|
                    if y <= gy < y + rep.len() && x <= gx < x + rep[0].len() && rep[gy - y][gx - x]
                        != '*' {
                        rep[gy - y][gx - x]
                    } else {
                        g[gy][gx]
                    },
            ),
    )
}

/// The grid with the symbol `sym` stamped on its center cell.
pub open spec fn set_origin_spec(g: Seq<Seq<char>>, sym: char) -> Seq<Seq<char>> {
    let cy = g.len() as int / 2;
    let cx = g[0].len() as int / 2;
    g.update(cy, g[cy].update(cx, sym))
}

/// Every cell of the grid holds a symbol of the alphabet.
pub open spec fn cells_in_alpha(g: Seq<Seq<char>>, alpha: Seq<char>) -> bool {
    forall|y: int, x: int|
        0 <= y < g.len() && 0 <= x < g[y].len() ==> alpha.contains(#[trigger] g[y][x])
}

/// Every cell of a `replace` array is the wildcard or an alphabet symbol:
/// writing it cannot put a foreign symbol on a grid.
pub open spec fn replace_cells_ok(rep: Seq<Seq<char>>, alpha: Seq<char>) -> bool {
    forall|r: int, c: int|
        0 <= r < rep.len() && 0 <= c < rep[r].len() ==> (#[trigger] rep[r][c]) == '*'
            || alpha.contains(rep[r][c])
}

/// The upper-case form of an ASCII letter; any other symbol is unchanged.
pub open spec fn upper_char(c: char) -> char {
    match c {
        'a' => 'A',
        'b' => 'B',
        'c' => 'C',
        'd' => 'D',
        'e' => 'E',
        'f' => 'F',
        'g' => 'G',
        'h' => 'H',
        'i' => 'I',
        'j' => 'J',
        'k' => 'K',
        'l' => 'L',
        'm' => 'M',
        'n' => 'N',
        'o' => 'O',
        'p' => 'P',
        'q' => 'Q',
        'r' => 'R',
        's' => 'S',
        't' => 'T',
        'u' => 'U',
        'v' => 'V',
        'w' => 'W',
        'x' => 'X',
        'y' => 'Y',
        'z' => 'Z',
        _ => c,
    }
}

/// Computes [`upper_char`].
fn to_upper(c: char) -> (r: char)
    ensures
        r == upper_char(c),
{
    match c {
        'a' => 'A',
        'b' => 'B',
        'c' => 'C',
        'd' => 'D',
        'e' => 'E',
        'f' => 'F',
        'g' => 'G',
        'h' => 'H',
        'i' => 'I',
        'j' => 'J',
        'k' => 'K',
        'l' => 'L',
        'm' => 'M',
        'n' => 'N',
        'o' => 'O',
        'p' => 'P',
        'q' => 'Q',
        'r' => 'R',
        's' => 'S',
        't' => 'T',
        'u' => 'U',
        'v' => 'V',
        'w' => 'W',
        'x' => 'X',
        'y' => 'Y',
        'z' => 'Z',
        _ => c,
    }
}

/// Overwrites one cell of a symbol array.
fn set_cell(a: &mut Vec<Vec<char>>, y: usize, x: usize, c: char)
    requires
        y < old(a).deep_view().len(),
        x < old(a).deep_view()[y as int].len(),
    ensures
        final(a).deep_view() == old(a).deep_view().update(
            y as int,
            old(a).deep_view()[y as int].update(x as int, c),
        ),
{
    proof {
        assert(a.deep_view()[y as int] == a@[y as int].deep_view());
    }
    a[y][x] = c;
    proof {
        assert(a.deep_view() =~~= old(a).deep_view().update(
            y as int,
            old(a).deep_view()[y as int].update(x as int, c),
        ));
    }
}

/// A rectangular grid of alphabet symbols.
#[derive(Debug)]
pub struct Grid {
    rows: Vec<Vec<char>>,
    alphabet: Vec<char>,
}

impl View for Grid {
    type V = Seq<Seq<char>>;

    closed spec fn view(&self) -> Seq<Seq<char>> {
        self.rows.deep_view()
    }
}

impl Grid {
    /// The grid's alphabet, in order.
    pub closed spec fn alpha(self) -> Seq<char> {
        self.alphabet@
    }

    /// A well-formed grid: rectangular, every cell an alphabet symbol,
    /// with a non-empty wildcard-free alphabet.
    pub open spec fn wf(self) -> bool {
        &&& rect(self@)
        &&& cells_in_alpha(self@, self.alpha())
        &&& self.alpha().len() > 0
        &&& forall|i: int| 0 <= i < self.alpha().len() ==> self.alpha()[i] != '*'
    }

    /// Decides whether a symbol belongs to the grid's alphabet.
    pub fn has_symbol(&self, sym: char) -> (r: bool)
        ensures
            r == self.alpha().contains(sym),
    {
        let mut i: usize = 0;
        while i < self.alphabet.len()
            invariant
                i <= self.alpha().len(),
                forall|j: int| 0 <= j < i ==> self.alpha()[j] != sym,
            decreases self.alphabet.len() - i,
        {
            if self.alphabet[i] == sym {
                proof {
                    assert(self.alpha()[i as int] == sym);
                }
                return true;
            }
            i += 1;
        }
        false
    }

    /// Columns of the grid.
    pub open spec fn spec_width(self) -> int {
        self@[0].len() as int
    }

    /// Rows of the grid.
    pub open spec fn spec_height(self) -> int {
        self@.len() as int
    }

    /// Builds a grid filled with the first symbol of the uppercased
    /// alphabet.  The alphabet must be non-empty and wildcard-free, and
    /// both dimensions must be positive.
    pub fn new(width: usize, height: usize, alphabet: &str) -> (r: Result<Grid, ConstructionError>)
        ensures
            match r {
                Ok(g) => {
                    &&& g.wf()
                    &&& g.alpha() == alphabet@.map_values(|c: char| upper_char(c))
                    &&& g.spec_height() == height
                    &&& g.spec_width() == width
                    &&& forall|y: int, x: int|
                        0 <= y < height && 0 <= x < width ==> (#[trigger] g@[y][x]) == upper_char(
                            alphabet@[0],
                        )
                },
                Err(ConstructionError::EmptyAlphabet) => alphabet@.len() == 0,
                Err(ConstructionError::WildcardInAlphabet) => exists|i: int|
                    0 <= i < alphabet@.len() && alphabet@[i] == '*',
                Err(ConstructionError::ZeroGridDimension) => width == 0 || height == 0,
                Err(_) => false,
            },
            r is Ok <==> (alphabet@.len() > 0 && (forall|i: int|
                0 <= i < alphabet@.len() ==> alphabet@[i] != '*') && width > 0 && height > 0),
    {
        let n = alphabet.unicode_len();
        if n == 0 {
            return Err(ConstructionError::EmptyAlphabet);
        }
        let mut alpha: Vec<char> = Vec::new();
        let mut i: usize = 0;
        while i < n
            invariant
                i <= n,
                n == alphabet@.len(),
                alpha@.len() == i,
                forall|j: int| 0 <= j < i ==> alpha@[j] == upper_char(alphabet@[j]),
                forall|j: int| 0 <= j < i ==> alphabet@[j] != '*',
            decreases n - i,
        {
            let c = alphabet.get_char(i);
            if c == '*' {
                return Err(ConstructionError::WildcardInAlphabet);
            }
            alpha.push(to_upper(c));
            i += 1;
        }
        if width == 0 || height == 0 {
            return Err(ConstructionError::ZeroGridDimension);
        }
        let fill = alpha[0];
        proof {
            assert(alpha@ =~= alphabet@.map_values(|c: char| upper_char(c)));
            assert(upper_char(alphabet@[0]) != '*');
        }
        let mut rows: Vec<Vec<char>> = Vec::new();
        let mut y: usize = 0;
        while y < height
            invariant
                y <= height,
                rows.deep_view().len() == y,
                forall|i2: int| 0 <= i2 < y ==> #[trigger] rows.deep_view()[i2].len() == width,
                forall|i2: int, j2: int|
                    0 <= i2 < y && 0 <= j2 < width ==> #[trigger] rows.deep_view()[i2][j2] == fill,
            decreases height - y,
        {
            let mut row: Vec<char> = Vec::new();
            let mut x: usize = 0;
            while x < width
                invariant
                    x <= width,
                    row@.len() == x,
                    forall|j2: int| 0 <= j2 < x ==> row@[j2] == fill,
                decreases width - x,
            {
                row.push(fill);
                x += 1;
            }
            push_row(&mut rows, row);
            y += 1;
        }
        let g = Grid { rows, alphabet: alpha };
        proof {
            assert(rect(g@));
            assert(g.alpha().contains(g.alpha()[0]));
            assert(cells_in_alpha(g@, g.alpha()));
        }
        Ok(g)
    }

    /// The grid's width in cells.
    pub fn width(&self) -> (w: usize)
        requires
            self.wf(),
        ensures
            w == self.spec_width(),
    {
        ncols_at(&self.rows, 0)
    }

    /// The grid's height in cells.
    pub fn height(&self) -> (h: usize)
        ensures
            h == self.spec_height(),
    {
        nrows(&self.rows)
    }

    /// Reads the cell at `(x, y)`, or nothing when the position lies
    /// outside the grid.
    pub fn get(&self, x: usize, y: usize) -> (r: Option<char>)
        requires
            self.wf(),
        ensures
            x < self.spec_width() && y < self.spec_height() ==> r == Some(self@[y as int][x as int]),
            !(x < self.spec_width() && y < self.spec_height()) ==> r is None,
    {
        let h = self.height();
        let w = self.width();
        if y < h && x < w {
            Some(cell(&self.rows, y, x))
        } else {
            None
        }
    }

    /// Overwrites the cell at `(x, y)` with an alphabet symbol; returns
    /// whether anything was written.  Out-of-bounds positions and symbols
    /// outside the alphabet (the wildcard among them) are ignored.
    pub fn set(&mut self, x: usize, y: usize, sym: char) -> (r: bool)
        requires
            old(self).wf(),
        ensures
            final(self).wf(),
            final(self).alpha() == old(self).alpha(),
            r == (x < old(self).spec_width() && y < old(self).spec_height() && old(
                self,
            ).alpha().contains(sym)),
            r ==> final(self)@ == old(self)@.update(
                y as int,
                old(self)@[y as int].update(x as int, sym),
            ),
            !r ==> final(self)@ == old(self)@,
    {
        let h = self.height();
        let w = self.width();
        if y < h && x < w && self.has_symbol(sym) {
            set_cell(&mut self.rows, y, x, sym);
            proof {
                assert(rect(self@));
                assert forall|yy: int, xx: int|
                    0 <= yy < self@.len() && 0 <= xx < self@[yy].len() implies self.alpha().contains(
                    #[trigger] self@[yy][xx],
                ) by {
                    if !(yy == y && xx == x) {
                        assert(old(self).alpha().contains(old(self)@[yy][xx]));
                    }
                }
            }
            true
        } else {
            false
        }
    }

    /// Stamps `sym` on the center cell `(width / 2, height / 2)`.  The
    /// symbol must belong to the alphabet: every cell always does.
    pub fn set_origin(&mut self, sym: char)
        requires
            old(self).wf(),
            old(self).alpha().contains(sym),
        ensures
            final(self).wf(),
            final(self).alpha() == old(self).alpha(),
            final(self)@ == set_origin_spec(old(self)@, sym),
    {
        let h = self.height();
        let w = self.width();
        set_cell(&mut self.rows, h / 2, w / 2, sym);
        proof {
            assert(rect(self@));
            assert forall|yy: int, xx: int|
                0 <= yy < self@.len() && 0 <= xx < self@[yy].len() implies self.alpha().contains(
                #[trigger] self@[yy][xx],
            ) by {
                if !(yy == h / 2 && xx == w / 2) {
                    assert(old(self).alpha().contains(old(self)@[yy][xx]));
                }
            }
        }
    }

    /// Lists every cell as `(x, y, symbol)`, row-major: the entry for
    /// `(x, y)` stands at index `y * width + x`.
    pub fn cells(&self) -> (r: Vec<(usize, usize, char)>)
        requires
            self.wf(),
        ensures
            r@.len() == self.spec_height() * self.spec_width(),
            forall|y: int, x: int|
                0 <= y < self.spec_height() && 0 <= x < self.spec_width() ==> r@[y
                    * self.spec_width() + x] == (x as usize, y as usize, #[trigger] self@[y][x]),
    {
        let h = self.height();
        let w = self.width();
        let mut r: Vec<(usize, usize, char)> = Vec::new();
        let mut y: usize = 0;
        while y < h
            invariant
                y <= h,
                h == self@.len(),
                w == self@[0].len(),
                self.wf(),
                r@.len() == y * w,
                forall|y2: int, x2: int|
                    0 <= y2 < y && 0 <= x2 < w ==> r@[y2 * w + x2] == (
                    x2 as usize,
                    y2 as usize,
                    #[trigger] self@[y2][x2],
                ),
            decreases h - y,
        {
            let ghost base = (y * w) as int;
            let ghost rbase = r@;
            let mut x: usize = 0;
            while x < w
                invariant
                    x <= w,
                    y < h,
                    h == self@.len(),
                    w == self@[0].len(),
                    self.wf(),
                    base == y * w,
                    r@.len() == base + x,
                    r@.take(base) == rbase,
                    rbase.len() == base,
                    forall|x2: int|
                        0 <= x2 < x ==> r@[base + x2] == (
                        x2 as usize,
                        y as usize,
                        #[trigger] self@[y as int][x2],
                    ),
                decreases w - x,
            {
                let c = cell(&self.rows, y, x);
                r.push((x, y, c));
                proof {
                    assert(r@.take(base) =~= rbase);
                }
                x += 1;
            }
            proof {
                assert(y * w + w == (y + 1) * w) by (nonlinear_arith);
                assert forall|y2: int, x2: int|
                    0 <= y2 < y + 1 && 0 <= x2 < w implies r@[y2 * w + x2] == (
                    x2 as usize,
                    y2 as usize,
                    #[trigger] self@[y2][x2],
                ) by {
                    if y2 < y {
                        assert(0 <= y2 * w + x2 < y * w) by (nonlinear_arith)
                            requires
                                0 <= y2 < y,
                                0 <= x2 < w,
                        ;
                        assert(r@[y2 * w + x2] == r@.take(base)[y2 * w + x2]);
                        assert(rbase[y2 * w + x2] == (x2 as usize, y2 as usize, self@[y2][x2]));
                    } else {
                        assert(r@[base + x2] == (x2 as usize, y as usize, self@[y as int][x2]));
                    }
                }
            }
            y += 1;
        }
        r
    }

    /// Decides whether the pattern's `find` array fits at `(x, y)`: inside
    /// the grid, and cell for cell equal where `find` is not the wildcard.
    pub fn check_pattern(&self, x: usize, y: usize, pattern: &Pattern) -> (r: bool)
        requires
            self.wf(),
            pattern@.wf(),
        ensures
            r == fits_at(self@, x as int, y as int, pattern@.find),
    {
        let fh = nrows(&pattern.find);
        let fw = ncols_at(&pattern.find, 0);
        let h = self.height();
        let w = self.width();
        if fh > h || y > h - fh || fw > w || x > w - fw {
            return false;
        }
        let mut r: usize = 0;
        while r < fh
            invariant
                r <= fh,
                fh == pattern@.find.len(),
                fw == pattern@.find[0].len(),
                h == self@.len(),
                w == self@[0].len(),
                self.wf(),
                pattern@.wf(),
                y + fh <= h,
                x + fw <= w,
                forall|rr: int, cc: int|
                    0 <= rr < r && 0 <= cc < fw ==> (#[trigger] pattern@.find[rr][cc]) == '*'
                        || self@[y + rr][x + cc] == pattern@.find[rr][cc],
            decreases fh - r,
        {
            let mut c: usize = 0;
            while c < fw
                invariant
                    c <= fw,
                    r < fh,
                    fh == pattern@.find.len(),
                    fw == pattern@.find[0].len(),
                    h == self@.len(),
                    w == self@[0].len(),
                    self.wf(),
                    pattern@.wf(),
                    y + fh <= h,
                    x + fw <= w,
                    forall|rr: int, cc: int|
                        0 <= rr < r && 0 <= cc < fw ==> (#[trigger] pattern@.find[rr][cc]) == '*'
                            || self@[y + rr][x + cc] == pattern@.find[rr][cc],
                    forall|cc: int|
                        0 <= cc < c ==> (#[trigger] pattern@.find[r as int][cc]) == '*' || self@[y
                            + r as int][x + cc] == pattern@.find[r as int][cc],
                decreases fw - c,
            {
                let fc = cell(&pattern.find, r, c);
                if fc != '*' {
                    let gc = cell(&self.rows, y + r, x + c);
                    if gc != fc {
                        return false;
                    }
                }
                c += 1;
            }
            r += 1;
        }
        true
    }

    /// Writes the pattern's `replace` array at `(x, y)`: every in-bounds
    /// cell under a non-wildcard `replace` cell takes that symbol; wildcard
    /// cells and out-of-bounds cells are left untouched.  The array may
    /// hold only wildcards and alphabet symbols: the grid never holds a
    /// foreign one.
    pub fn replace_pattern(&mut self, x: usize, y: usize, pattern: &Pattern)
        requires
            old(self).wf(),
            pattern@.wf(),
            replace_cells_ok(pattern@.replace, old(self).alpha()),
        ensures
            final(self).wf(),
            final(self).alpha() == old(self).alpha(),
            final(self)@ == write_at(old(self)@, x as int, y as int, pattern@.replace),
    {
        let ghost g0 = old(self)@;
        let ghost rep = pattern@.replace;
        let rh = nrows(&pattern.replace);
        let rw = ncols_at(&pattern.replace, 0);
        let h = self.height();
        let w = self.width();
        proof {
            assert(self@ =~~= write_upto(g0, x as int, y as int, rep, 0, 0));
        }
        let mut r: usize = 0;
        while r < rh
            invariant
                r <= rh,
                rh == rep.len(),
                rw == rep[0].len(),
                rect(rep),
                h == g0.len(),
                w == g0[0].len(),
                rect(g0),
                pattern@.wf(),
                rep == pattern@.replace,
                replace_cells_ok(rep, old(self).alpha()),
                self.alpha() == old(self).alpha(),
                self.wf(),
                self@ == write_upto(g0, x as int, y as int, rep, r as int, 0),
            decreases rh - r,
        {
            let mut c: usize = 0;
            while c < rw
                invariant
                    c <= rw,
                    r < rh,
                    rh == rep.len(),
                    rw == rep[0].len(),
                    rect(rep),
                    h == g0.len(),
                    w == g0[0].len(),
                    rect(g0),
                    pattern@.wf(),
                    rep == pattern@.replace,
                    replace_cells_ok(rep, old(self).alpha()),
                    self.alpha() == old(self).alpha(),
                    self.wf(),
                    self@ == write_upto(g0, x as int, y as int, rep, r as int, c as int),
                decreases rw - c,
            {
                let rc = cell(&pattern.replace, r, c);
                let ghost before = self@;
                if rc != '*' && y < h && r <= h - 1 - y && x < w && c <= w - 1 - x {
                    set_cell(&mut self.rows, y + r, x + c, rc);
                    proof {
                        assert forall|yy: int, xx: int|
                            0 <= yy < self@.len() && 0 <= xx < self@[yy].len() implies self.alpha().contains(
                        #[trigger] self@[yy][xx]) by {
                            if yy == y + r && xx == x + c {
                                assert(rep[r as int][c as int] != '*');
                                assert(old(self).alpha().contains(rep[r as int][c as int]));
                            } else {
                                assert(old(self).alpha().contains(before[yy][xx]));
                            }
                        }
                        assert(rect(self@));
                    }
                }
                proof {
                    assert(self@ =~~= write_upto(g0, x as int, y as int, rep, r as int, c + 1 as int));
                }
                c += 1;
            }
            proof {
                assert(write_upto(g0, x as int, y as int, rep, r as int, rw as int) =~~= write_upto(
                    g0,
                    x as int,
                    y as int,
                    rep,
                    r as int + 1,
                    0,
                ));
            }
            r += 1;
        }
        proof {
            assert(self@ =~~= write_at(g0, x as int, y as int, rep));
        }
    }
}

/// The grid after writing only the `replace` cells that come before row
/// `r`, or on row `r` before column `c`, in row-major order.
spec fn write_upto(
    g: Seq<Seq<char>>,
    x: int,
    y: int,
    rep: Seq<Seq<char>>,
    r: int,
    c: int,
) -> Seq<Seq<char>> {
    Seq::new(
        g.len(),
        |gy: int|
            Seq::new(
                g[gy].len(),
                |gx: int|
                    if y <= gy < y + rep.len() && x <= gx < x + rep[0].len() && (gy - y < r || (gy
                        - y == r && gx - x < c)) && rep[gy - y][gx - x] != '*' {
                        rep[gy - y][gx - x]
                    } else {
                        g[gy][gx]
                    },
            ),
    )
}

/// A `find` cell that holds the wildcard never causes a fit to fail:
/// weakening any cells of a fitting `find` array to the wildcard leaves it
/// fitting at the same position.
pub proof fn lemma_wildcard_find(
    g: Seq<Seq<char>>,
    x: int,
    y: int,
    f1: Seq<Seq<char>>,
    f2: Seq<Seq<char>>,
)
    requires
        f2.len() == f1.len(),
        f2.len() > 0,
        f2[0].len() == f1[0].len(),
        forall|r: int, c: int|
            0 <= r < f2.len() && 0 <= c < f2[0].len() ==> (#[trigger] f2[r][c]) == '*' || f2[r][c]
                == f1[r][c],
        fits_at(g, x, y, f1),
    ensures
        fits_at(g, x, y, f2),
{
}

/// A `replace` cell that holds the wildcard preserves the grid cell under
/// it, and cells outside the written footprint are untouched.
pub proof fn lemma_write_preserves_wildcard_cells(
    g: Seq<Seq<char>>,
    x: int,
    y: int,
    rep: Seq<Seq<char>>,
)
    requires
        rect(g),
        rect(rep),
    ensures
        forall|r: int, c: int|
            0 <= r < rep.len() && 0 <= c < rep[0].len() && (#[trigger] rep[r][c]) == '*' && y + r
                < g.len() && x + c < g[0].len() && 0 <= y + r && 0 <= x + c ==> write_at(
                g,
                x,
                y,
                rep,
            )[y + r][x + c] == g[y + r][x + c],
        forall|gy: int, gx: int|
            0 <= gy < g.len() && 0 <= gx < g[gy].len() && !(y <= gy < y + rep.len() && x <= gx < x
                + rep[0].len()) ==> #[trigger] write_at(g, x, y, rep)[gy][gx] == g[gy][gx],
{
}

} // verus!
