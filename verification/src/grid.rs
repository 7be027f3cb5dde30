//! Rectangular regions of a character grid, and strategies for carving them
//! into smaller regions.

use vstd::prelude::*;

verus! {

/// Whether an operation works in the negative direction (up/left) or in the
/// positive direction (down/right). The exact meaning depends on where the
/// alignment is used.
#[derive(Debug, Clone, Copy, PartialEq, Eq, Structural, Hash)]
pub enum Alignment {
    Minus,
    Plus,
}

/// A grid: an axis-aligned rectangle of character cells, half-open on both
/// axes (`start <= end`; `start == end` means no space on that axis).
/// A grid can be split up into other grids.
#[derive(Debug, Clone, PartialEq, Eq, Structural, Hash)]
pub struct Grid {
    pub start_x: usize,
    pub start_y: usize,
    pub end_x: usize,
    pub end_y: usize,
}

impl Grid {
    /// Both axes are ordered: the start bound never exceeds the end bound.
    pub open spec fn wf(self) -> bool {
        self.start_x <= self.end_x && self.start_y <= self.end_y
    }

    /// Number of columns the grid spans.
    pub open spec fn spec_width(self) -> int {
        self.end_x - self.start_x
    }

    /// Number of rows the grid spans.
    pub open spec fn spec_height(self) -> int {
        self.end_y - self.start_y
    }

    fn new(start_x: usize, start_y: usize, end_x: usize, end_y: usize) -> (r: Grid)
        ensures
            r == (Grid { start_x, start_y, end_x, end_y }),
    {
        Grid { start_x, start_y, end_x, end_y }
    }
}

/// At most one axis of a [`SplitStrategy`] may carry a maximum size; this
/// records which one, if any, together with the edge the carved piece is
/// flush against.
#[derive(Debug, Clone, PartialEq, Eq, Structural, Hash)]
pub enum Maximum {
    Unset,
    X(usize, Alignment),
    Y(usize, Alignment),
}

impl Default for Maximum {
    fn default() -> (r: Self)
        ensures
            r == Maximum::Unset,
    {
        Maximum::Unset
    }
}

/// A recipe for carving a sub-grid out of a grid: optional strict minimum
/// sizes on each axis, and at most one maximum size with an alignment.
/// Built once, applied many times; stateless across calls.
#[derive(Debug, Clone, PartialEq, Eq, Hash)]
pub struct SplitStrategy {
    min_size_x: Option<usize>,
    min_size_y: Option<usize>,
    max_size: Maximum,
}

impl Default for SplitStrategy {
    fn default() -> (r: Self)
        ensures
            r.spec_min_x() is None,
            r.spec_min_y() is None,
            r.spec_max() is Unset,
    {
        SplitStrategy { min_size_x: None, min_size_y: None, max_size: Maximum::Unset }
    }
}

impl SplitStrategy {
    /// The configured minimum width, if any.
    pub closed spec fn spec_min_x(self) -> Option<usize> {
        self.min_size_x
    }

    /// The configured minimum height, if any.
    pub closed spec fn spec_min_y(self) -> Option<usize> {
        self.min_size_y
    }

    /// The configured maximum, if any.
    pub closed spec fn spec_max(self) -> Maximum {
        self.max_size
    }

    /// Creates an empty split strategy. An empty strategy simply takes up the
    /// entire grid when applied.
    pub fn new() -> (r: SplitStrategy)
        ensures
            r.spec_min_x() is None,
            r.spec_min_y() is None,
            r.spec_max() is Unset,
    {
        SplitStrategy { min_size_x: None, min_size_y: None, max_size: Maximum::Unset }
    }

    /// Sets a maximum width. The carved grid will span at most `v` columns,
    /// flush against the left (`Minus`) or right (`Plus`) edge.
    ///
    /// Setting two maximums is a programming error: a caller must not invoke
    /// this when a maximum is already present, and a maximum that is already
    /// set is never replaced.
    pub fn max_x(self, v: usize, a: Alignment) -> (r: Self)
        requires
            self.spec_max() is Unset,
        ensures
            r.spec_max() == Maximum::X(v, a),
            r.spec_min_x() == self.spec_min_x(),
            r.spec_min_y() == self.spec_min_y(),
    {
        if matches!(self.max_size, Maximum::Unset) {
            SplitStrategy { max_size: Maximum::X(v, a), ..self }
        } else {
            self
        }
    }

    /// Sets a maximum height. The carved grid will span at most `v` rows,
    /// flush against the top (`Minus`) or bottom (`Plus`) edge.
    ///
    /// Setting two maximums is a programming error: a caller must not invoke
    /// this when a maximum is already present, and a maximum that is already
    /// set is never replaced.
    pub fn max_y(self, v: usize, a: Alignment) -> (r: Self)
        requires
            self.spec_max() is Unset,
        ensures
            r.spec_max() == Maximum::Y(v, a),
            r.spec_min_x() == self.spec_min_x(),
            r.spec_min_y() == self.spec_min_y(),
    {
        if matches!(self.max_size, Maximum::Unset) {
            SplitStrategy { max_size: Maximum::Y(v, a), ..self }
        } else {
            self
        }
    }

    /// Sets a strict minimum width: a grid whose width does not exceed `v`
    /// refuses the split.
    pub fn min_x(self, v: usize) -> (r: Self)
        ensures
            r.spec_min_x() == Some(v),
            r.spec_min_y() == self.spec_min_y(),
            r.spec_max() == self.spec_max(),
    {
        SplitStrategy { min_size_x: Some(v), ..self }
    }

    /// Sets a strict minimum height: a grid whose height does not exceed `v`
    /// refuses the split.
    pub fn min_y(self, v: usize) -> (r: Self)
        ensures
            r.spec_min_y() == Some(v),
            r.spec_min_x() == self.spec_min_x(),
            r.spec_max() == self.spec_max(),
    {
        SplitStrategy { min_size_y: Some(v), ..self }
    }

    /// Applies the strategy to `grid`, carving out and returning a piece and
    /// shrinking `grid` in place to the remainder.
    fn apply(&self, grid: &mut Grid) -> (r: Option<Grid>)
        requires
            old(grid).wf(),
        ensures
            (r, *final(grid)) == split_spec(*old(grid), *self),
            final(grid).wf(),
            r is Some <==> can_split(*old(grid), *self),
            r matches Some(p) ==> p.wf(),
    {
        if grid.start_x == grid.end_x || grid.start_y == grid.end_y {
            // no space left
            return None;
        }
        if let Some(val) = self.min_size_y {
            // height at or below the strict minimum
            if grid.end_y - grid.start_y <= val {
                return None;
            }
        }
        if let Some(val) = self.min_size_x {
            // width at or below the strict minimum
            if grid.end_x - grid.start_x <= val {
                return None;
            }
        }
        match &self.max_size {
            Maximum::Unset => {
                // Takes up the entire grid; the remainder collapses to a
                // zero-area grid anchored at its own former end.
                let return_value = Some(Grid::new(grid.start_x, grid.start_y, grid.end_x, grid.end_y));
                grid.start_x = grid.end_x;
                grid.start_y = grid.end_y;
                return_value
            }
            Maximum::X(size, alignment) => {
                let size = *size;
                let avail = grid.end_x - grid.start_x;
                let size = if size < avail { size } else { avail };
                if matches!(alignment, Alignment::Minus) {
                    // Carves from the left edge.
                    let return_value = Some(Grid::new(grid.start_x, grid.start_y, grid.start_x + size, grid.end_y));
                    grid.start_x = grid.start_x + size;
                    return_value
                } else {
                    // Carves from the right edge.
                    let return_value = Some(Grid::new(grid.end_x - size, grid.start_y, grid.end_x, grid.end_y));
                    grid.end_x = grid.end_x - size;
                    return_value
                }
            }
            Maximum::Y(size, alignment) => {
                let size = *size;
                let avail = grid.end_y - grid.start_y;
                let size = if size < avail { size } else { avail };
                if matches!(alignment, Alignment::Minus) {
                    // Carves from the top edge.
                    let return_value = Some(Grid::new(grid.start_x, grid.start_y, grid.end_x, grid.start_y + size));
                    grid.start_y = grid.start_y + size;
                    return_value
                } else {
                    // Carves from the bottom edge.
                    let return_value = Some(Grid::new(grid.start_x, grid.end_y - size, grid.end_x, grid.end_y));
                    grid.end_y = grid.end_y - size;
                    return_value
                }
            }
        }
    }
}

/// Whether `s` applied to `g` yields a piece: `g` must have space on both
/// axes, and must strictly exceed each configured minimum.
pub open spec fn can_split(g: Grid, s: SplitStrategy) -> bool {
    &&& g.start_x != g.end_x
    &&& g.start_y != g.end_y
    &&& match s.spec_min_y() {
        Some(v) => g.spec_height() > v,
        None => true,
    }
    &&& match s.spec_min_x() {
        Some(v) => g.spec_width() > v,
        None => true,
    }
}

/// What applying `s` to `g` produces: the carved piece (`None` when the split
/// is refused) and the remainder that `g` becomes.
pub open spec fn split_spec(g: Grid, s: SplitStrategy) -> (Option<Grid>, Grid) {
    if !can_split(g, s) {
        (None, g)
    } else {
        match s.spec_max() {
            Maximum::Unset => (
                Some(g),
                Grid { start_x: g.end_x, start_y: g.end_y, end_x: g.end_x, end_y: g.end_y },
            ),
            Maximum::X(size, a) => {
                let size = if size <= g.spec_width() { size as int } else { g.spec_width() };
                if a is Minus {
                    (
                        Some(Grid { start_x: g.start_x, start_y: g.start_y, end_x: (g.start_x + size) as usize, end_y: g.end_y }),
                        Grid { start_x: (g.start_x + size) as usize, start_y: g.start_y, end_x: g.end_x, end_y: g.end_y },
                    )
                } else {
                    (
                        Some(Grid { start_x: (g.end_x - size) as usize, start_y: g.start_y, end_x: g.end_x, end_y: g.end_y }),
                        Grid { start_x: g.start_x, start_y: g.start_y, end_x: (g.end_x - size) as usize, end_y: g.end_y },
                    )
                }
            }
            Maximum::Y(size, a) => {
                let size = if size <= g.spec_height() { size as int } else { g.spec_height() };
                if a is Minus {
                    (
                        Some(Grid { start_x: g.start_x, start_y: g.start_y, end_x: g.end_x, end_y: (g.start_y + size) as usize }),
                        Grid { start_x: g.start_x, start_y: (g.start_y + size) as usize, end_x: g.end_x, end_y: g.end_y },
                    )
                } else {
                    (
                        Some(Grid { start_x: g.start_x, start_y: (g.end_y - size) as usize, end_x: g.end_x, end_y: g.end_y }),
                        Grid { start_x: g.start_x, start_y: g.start_y, end_x: g.end_x, end_y: (g.end_y - size) as usize },
                    )
                }
            }
        }
    }
}

/// What extending `a` by `b` produces: the fused grid when the two are
/// edge-adjacent and share the orthogonal span exactly, `None` otherwise.
pub open spec fn extend_spec(a: Grid, b: Grid) -> Option<Grid> {
    if a.start_x == b.start_x && a.end_x == b.end_x && a.end_y == b.start_y {
        Some(Grid { start_x: a.start_x, start_y: a.start_y, end_x: a.end_x, end_y: b.end_y })
    } else if a.start_x == b.start_x && a.end_x == b.end_x && a.start_y == b.end_y {
        Some(Grid { start_x: a.start_x, start_y: b.start_y, end_x: a.end_x, end_y: a.end_y })
    } else if a.start_y == b.start_y && a.end_y == b.end_y && a.end_x == b.start_x {
        Some(Grid { start_x: a.start_x, start_y: a.start_y, end_x: b.end_x, end_y: a.end_y })
    } else if a.start_y == b.start_y && a.end_y == b.end_y && a.start_x == b.end_x {
        Some(Grid { start_x: b.start_x, start_y: a.start_y, end_x: a.end_x, end_y: a.end_y })
    } else {
        None
    }
}

impl Grid {
    /// Splits the grid in two based on a [`SplitStrategy`], returning the
    /// carved piece and shrinking `self` to the remainder in place.
    ///
    /// Returns `None`, leaving `self` unchanged, exactly when the grid is
    /// already empty on some axis or does not strictly exceed a configured
    /// minimum.
    pub fn split(&mut self, strategy: &SplitStrategy) -> (r: Option<Grid>)
        requires
            old(self).wf(),
        ensures
            (r, *final(self)) == split_spec(*old(self), *strategy),
            final(self).wf(),
            r is Some <==> can_split(*old(self), *strategy),
            r matches Some(p) ==> p.wf(),
    {
        strategy.apply(self)
    }

    /// Extends the grid by `grid` if the two are edge-adjacent and share the
    /// orthogonal span exactly; otherwise returns `grid` back unchanged.
    pub fn extend(&mut self, grid: Grid) -> (r: Result<(), Grid>)
        ensures
            match extend_spec(*old(self), grid) {
                Some(m) => r is Ok && *final(self) == m,
                None => r == Err::<(), Grid>(grid) && *final(self) == *old(self),
            },
    {
        if self.start_x == grid.start_x && self.end_x == grid.end_x {
            if self.end_y == grid.start_y {
                self.end_y = grid.end_y;
                return Ok(());
            }
            if self.start_y == grid.end_y {
                self.start_y = grid.start_y;
                return Ok(());
            }
        }
        if self.start_y == grid.start_y && self.end_y == grid.end_y {
            if self.end_x == grid.start_x {
                self.end_x = grid.end_x;
                return Ok(());
            }
            if self.start_x == grid.end_x {
                self.start_x = grid.start_x;
                return Ok(());
            }
        }
        Err(grid)
    }
}

/// Where the divider of a section sits when the section is created: at the
/// top, at the bottom, halfway down, or at a given row offset.
#[derive(Debug, Clone, PartialEq, Eq, Structural, Hash)]
pub enum DividerStrategy {
    Beginning,
    End,
    Halfway,
    Pos(usize),
}

/// A frame stores the terminal's size in a convenient place. It is not stored
/// as a grid, since grids are altered when they are split: the frame can
/// always hand out a fresh full-size grid.
#[derive(Debug, Clone, PartialEq, Eq, Structural, Hash)]
pub struct Frame {
    grid: Grid,
}

impl View for Frame {
    type V = Grid;

    closed spec fn view(&self) -> Grid {
        self.grid
    }
}

impl Frame {
    /// Creates a new frame with the given bounds.
    pub fn new(x_min: usize, y_min: usize, x_max: usize, y_max: usize) -> (r: Frame)
        requires
            x_min <= x_max,
            y_min <= y_max,
        ensures
            r@ == (Grid { start_x: x_min, start_y: y_min, end_x: x_max, end_y: y_max }),
            r@.wf(),
    {
        Frame { grid: Grid { start_x: x_min, start_y: y_min, end_x: x_max, end_y: y_max } }
    }

    /// Produces a fresh grid that covers the entire frame.
    pub fn next_frame(&self) -> (r: Grid)
        ensures
            r == self@,
    {
        Grid {
            start_x: self.grid.start_x,
            start_y: self.grid.start_y,
            end_x: self.grid.end_x,
            end_y: self.grid.end_y,
        }
    }

    /// Replaces the stored bounds. Only future calls to `next_frame` are
    /// affected, never a grid already handed out.
    pub fn resize(&mut self, x_min: usize, y_min: usize, x_max: usize, y_max: usize)
        requires
            x_min <= x_max,
            y_min <= y_max,
        ensures
            final(self)@ == (Grid { start_x: x_min, start_y: y_min, end_x: x_max, end_y: y_max }),
            final(self)@.wf(),
    {
        self.grid = Grid { start_x: x_min, start_y: y_min, end_x: x_max, end_y: y_max };
    }
}

/// A grid with no space left on some axis refuses every split and stays
/// unchanged: once a grid is exhausted, splitting deterministically returns
/// nothing forever after.
pub proof fn lemma_split_exhausted(g: Grid, s: SplitStrategy)
    requires
        g.start_x == g.end_x || g.start_y == g.end_y,
    ensures
        split_spec(g, s).0 is None,
        split_spec(g, s).1 == g,
{
}

/// With no maximum and no minimum configured, a split of a non-empty grid
/// consumes everything: the piece equals the grid before the split, and the
/// remainder is zero-area, anchored at the grid's former end corner.
pub proof fn lemma_split_unconstrained(g: Grid, s: SplitStrategy)
    requires
        g.wf(),
        g.spec_width() > 0,
        g.spec_height() > 0,
        s.spec_max() is Unset,
        s.spec_min_x() is None,
        s.spec_min_y() is None,
    ensures
        split_spec(g, s).0 == Some(g),
        split_spec(g, s).1 == (Grid { start_x: g.end_x, start_y: g.end_y, end_x: g.end_x, end_y: g.end_y }),
{
}

/// With a maximum width `v` and no minimums, a split of a non-empty grid
/// carves a piece of width `min(v, width)`, flush against the left edge for
/// `Minus` and the right edge for `Plus`, spanning the grid's full height;
/// the remainder shrinks by exactly that width on the corresponding side.
pub proof fn lemma_split_max_x(g: Grid, s: SplitStrategy, v: usize, a: Alignment)
    requires
        g.wf(),
        g.spec_width() > 0,
        g.spec_height() > 0,
        s.spec_max() == Maximum::X(v, a),
        s.spec_min_x() is None,
        s.spec_min_y() is None,
    ensures
        ({
            let (piece, rest) = split_spec(g, s);
            let w = if v <= g.spec_width() { v as int } else { g.spec_width() };
            &&& piece matches Some(p)
            &&& p.spec_width() == w
            &&& p.start_y == g.start_y
            &&& p.end_y == g.end_y
            &&& rest.spec_width() == g.spec_width() - w
            &&& a is Minus ==> p.start_x == g.start_x && rest.end_x == g.end_x && rest.start_x == g.start_x + w
            &&& a is Plus ==> p.end_x == g.end_x && rest.start_x == g.start_x && rest.end_x == g.end_x - w
        }),
{
}

/// Minimum constraints are strict: a grid whose width equals the configured
/// minimum exactly is refused, and left unchanged.
pub proof fn lemma_min_x_strict(g: Grid, s: SplitStrategy, v: usize)
    requires
        g.wf(),
        s.spec_min_x() == Some(v),
        g.spec_width() == v,
    ensures
        split_spec(g, s).0 is None,
        split_spec(g, s).1 == g,
{
}

/// `extend` is the exact left inverse of a split with a maximum on one axis,
/// with no intervening use: extending the remainder by the carved piece
/// restores the original grid.
pub proof fn lemma_extend_inverts_split(g: Grid, s: SplitStrategy)
    requires
        g.wf(),
        s.spec_max() is X || s.spec_max() is Y,
        split_spec(g, s).0 is Some,
    ensures
        ({
            let (piece, rest) = split_spec(g, s);
            extend_spec(rest, piece->Some_0) == Some(g)
        }),
{
}

} // verus!
