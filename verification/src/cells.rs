//! The grid model and the neighbor-counting transition function.

use vstd::prelude::*;

verus! {

pub type Row = Vec<u8>;

pub type Grid = Vec<Row>;

/// The rule configuration: topology, growth ceiling, and the neighbor-count
/// thresholds that trigger growth or decay.
#[derive(Clone, Copy, Debug, PartialEq, Eq)]
pub struct CellOpts {
    /// When set, the four diagonal neighbors count too (Moore topology);
    /// otherwise only the four orthogonal neighbors do (von Neumann).
    pub corners: bool,
    /// The maximum life level any cell may hold.
    pub life: u8,
    /// `grow[n]` means a cell with exactly `n` live neighbors increments.
    pub grow: [bool; 9],
    /// `die[n]` means a cell with exactly `n` live neighbors decrements.
    pub die: [bool; 9],
}

/// The cell value at column `x`, row `y`, or `None` when either coordinate
/// falls outside the grid.
pub open spec fn cell_at(g: Seq<Seq<u8>>, x: int, y: int) -> Option<u8> {
    if 0 <= y < g.len() && 0 <= x < g[y].len() {
        Some(g[y][x])
    } else {
        None
    }
}

/// A cell is live when it lies inside the grid and its life level is nonzero.
pub open spec fn is_live(g: Seq<Seq<u8>>, x: int, y: int) -> bool {
    0 <= y < g.len() && 0 <= x < g[y].len() && g[y][x] != 0
}

/// Contributes 1 to a neighbor count when the cell at `(x, y)` is live.
pub open spec fn occ(g: Seq<Seq<u8>>, x: int, y: int) -> int {
    if is_live(g, x, y) {
        1int
    } else {
        0int
    }
}

/// The number of live neighbors of `(x, y)`: the four orthogonal positions
/// always, plus the four diagonal positions when `corners` is set.
/// Offsets that land outside the grid contribute nothing.
pub open spec fn neighbor_count(g: Seq<Seq<u8>>, x: int, y: int, corners: bool) -> int {
    occ(g, x, y - 1) + occ(g, x + 1, y) + occ(g, x, y + 1) + occ(g, x - 1, y) + if corners {
        occ(g, x + 1, y - 1) + occ(g, x + 1, y + 1) + occ(g, x - 1, y + 1) + occ(g, x - 1, y - 1)
    } else {
        0int
    }
}

/// The next-generation value of the cell at `(x, y)`: grow is evaluated
/// before die, growth saturates at `opts.life`, decay saturates at zero, and
/// a cell whose neighbor count triggers neither rule is copied unchanged.
pub open spec fn next_cell(g: Seq<Seq<u8>>, x: int, y: int, opts: CellOpts) -> u8 {
    let n = neighbor_count(g, x, y, opts.corners);
    let v = g[y][x];
    if opts.grow[n] {
        if v < opts.life {
            (v + 1) as u8
        } else {
            opts.life
        }
    } else if opts.die[n] {
        if v == 0 {
            0u8
        } else {
            (v - 1) as u8
        }
    } else {
        v
    }
}

/// One generation: every cell of the result is computed solely from the
/// frozen source grid `g`, and the shape of `g` is kept.
pub open spec fn step(g: Seq<Seq<u8>>, opts: CellOpts) -> Seq<Seq<u8>> {
    Seq::new(g.len(), |y: int| Seq::new(g[y].len(), |x: int| next_cell(g, x, y, opts)))
}

/// The grids have the same row count and, row by row, the same row length.
pub open spec fn same_shape(a: Seq<Seq<u8>>, b: Seq<Seq<u8>>) -> bool {
    a.len() == b.len() && forall|y: int| 0 <= y < a.len() ==> (#[trigger] a[y]).len() == b[y].len()
}

/// The grid has exactly `h` rows, each of length `w`.
pub open spec fn is_grid(g: Seq<Seq<u8>>, w: int, h: int) -> bool {
    g.len() == h && forall|y: int| 0 <= y < h ==> (#[trigger] g[y]).len() == w
}

/// Every cell's value is at most `life`.
pub open spec fn bounded(g: Seq<Seq<u8>>, life: u8) -> bool {
    forall|y: int, x: int|
        0 <= y < g.len() && 0 <= x < g[y].len() ==> (#[trigger] g[y][x]) <= life
}

/// A row brought to length `w`: existing cells are kept, cells past the old
/// length are dead, cells past `w` are dropped.
pub open spec fn resized_row(r: Seq<u8>, w: int) -> Seq<u8> {
    Seq::new(w as nat, |j: int| if j < r.len() { r[j] } else { 0u8 })
}

/// A grid brought to `w` columns by `h` rows: content is preserved anchored
/// at the top left, rows and columns beyond the old extent are dead, and
/// rows and columns beyond the target extent are dropped.
pub open spec fn resized(g: Seq<Seq<u8>>, w: int, h: int) -> Seq<Seq<u8>> {
    Seq::new(
        h as nat,
        |i: int| resized_row(if i < g.len() { g[i] } else { Seq::empty() }, w),
    )
}

/// The grid at `(x, y)` replaced by `val` when in bounds; unchanged (a
/// silent no-op) when out of bounds.
pub open spec fn set_at(g: Seq<Seq<u8>>, x: int, y: int, val: u8) -> Seq<Seq<u8>> {
    if 0 <= y < g.len() && 0 <= x < g[y].len() {
        g.update(y, g[y].update(x, val))
    } else {
        g
    }
}

/// Every cell is dead.
pub open spec fn all_dead(g: Seq<Seq<u8>>) -> bool {
    forall|y: int, x: int| 0 <= y < g.len() && 0 <= x < g[y].len() ==> (#[trigger] g[y][x]) == 0
}

/// Returns the cell value at column `x`, row `y`, or `None` when out of
/// bounds. Out-of-bounds access is not an error: it is how both the renderer
/// and the transition function probe near the grid edges.
pub fn get_cell(grid: &Grid, x: usize, y: usize) -> (r: Option<u8>)
    ensures
        r == cell_at(grid.deep_view(), x as int, y as int),
{
    if y < grid.len() {
        let row: &Row = &grid[y];
        if x < row.len() {
            Some(row[x])
        } else {
            None
        }
    } else {
        None
    }
}

/// Whether the cell at `(x, y)` is inside the grid and live.
fn live_at(grid: &Grid, x: usize, y: usize) -> (b: bool)
    ensures
        b == is_live(grid.deep_view(), x as int, y as int),
{
    match get_cell(grid, x, y) {
        Some(v) => v != 0,
        None => false,
    }
}

/// Counts the live neighbors of `(x, y)`. Offsets whose coordinate would be
/// negative are skipped without a lookup; offsets beyond the far edges read
/// as absent.
fn count_neighbors(grid: &Grid, x: usize, y: usize, corners: bool) -> (n: u8)
    requires
        x < usize::MAX,
        y < usize::MAX,
    ensures
        n as int == neighbor_count(grid.deep_view(), x as int, y as int, corners),
        n <= 8,
{
    let mut n: u8 = 0;
    if y > 0 && live_at(grid, x, y - 1) {
        n = n + 1;  // up
    }
    if live_at(grid, x + 1, y) {
        n = n + 1;  // right
    }
    if live_at(grid, x, y + 1) {
        n = n + 1;  // down
    }
    if x > 0 && live_at(grid, x - 1, y) {
        n = n + 1;  // left
    }
    if corners {
        if y > 0 && live_at(grid, x + 1, y - 1) {
            n = n + 1;  // up right
        }
        if live_at(grid, x + 1, y + 1) {
            n = n + 1;  // right down
        }
        if x > 0 && live_at(grid, x - 1, y + 1) {
            n = n + 1;  // down left
        }
        if x > 0 && y > 0 && live_at(grid, x - 1, y - 1) {
            n = n + 1;  // left up
        }
    }
    n
}

/// Overwrites every cell of `to` with the next-generation value computed
/// solely from `from`; `from` is never mutated. The grids must agree in
/// shape: a mismatch means the caller corrupted the automaton's state.
pub fn advance(from: &Grid, to: &mut Grid, opts: CellOpts)
    requires
        same_shape(from.deep_view(), old(to).deep_view()),
    ensures
        final(to).deep_view() == step(from.deep_view(), opts),
{
    let h = from.len();
    let mut y: usize = 0;
    while y < h
        invariant
            h == from.deep_view().len(),
            to@.len() == h,
            y <= h,
            forall|i: int|
                0 <= i < y ==> (#[trigger] to@[i]).deep_view() == step(from.deep_view(), opts)[i],
        decreases h - y,
    {
        let src_row: &Row = &from[y];
        let w = src_row.len();
        let mut row: Row = Vec::new();
        let mut x: usize = 0;
        while x < w
            invariant
                h == from.deep_view().len(),
                y < h,
                w == from.deep_view()[y as int].len(),
                row@.len() == x,
                x <= w,
                forall|j: int|
                    0 <= j < x ==> #[trigger] row@[j] == next_cell(
                        from.deep_view(),
                        j,
                        y as int,
                        opts,
                    ),
            decreases w - x,
        {
            let n = count_neighbors(from, x, y, opts.corners);
            let v = from[y][x];
            let c = if opts.grow[n as usize] {
                if v < opts.life {
                    v + 1
                } else {
                    opts.life
                }
            } else if opts.die[n as usize] {
                if v == 0 {
                    0
                } else {
                    v - 1
                }
            } else {
                v
            };
            row.push(c);
            x = x + 1;
        }
        proof {
            assert(row.deep_view() =~= step(from.deep_view(), opts)[y as int]);
        }
        to.set(y, row);
        y = y + 1;
    }
    proof {
        assert forall|i: int| 0 <= i < h implies to.deep_view()[i] == step(
            from.deep_view(),
            opts,
        )[i] by {
            assert(to.deep_view()[i] == to@[i].deep_view());
        }
        assert(to.deep_view() =~= step(from.deep_view(), opts));
    }
}

/// Adjusts the grid to `x` columns by `y` rows, preserving content anchored
/// at the top left: missing rows and columns are appended dead, excess rows
/// and columns are dropped from the tail.
pub fn resize(grid: &mut Grid, x: usize, y: usize)
    ensures
        final(grid).deep_view() == resized(old(grid).deep_view(), x as int, y as int),
{
    grid.truncate(y);
    proof {
        assert forall|i: int| 0 <= i < grid@.len() implies (#[trigger] grid@[i])@ == (if i < old(
            grid,
        )@.len() {
            old(grid)@[i]@
        } else {
            Seq::<u8>::empty()
        }) by {
            if old(grid)@.len() >= y {
                assert(grid@[i] == old(grid)@.subrange(0, y as int)[i]);
            }
        }
    }
    while grid.len() < y
        invariant
            grid@.len() <= y,
            grid@.len() >= old(grid)@.len() || grid@.len() >= y,
            forall|i: int|
                0 <= i < grid@.len() ==> (#[trigger] grid@[i])@ == (if i < old(grid)@.len() {
                    old(grid)@[i]@
                } else {
                    Seq::<u8>::empty()
                }),
        decreases y - grid@.len(),
    {
        let empty_row: Row = Vec::new();
        grid.push(empty_row);
    }
    let mut j: usize = 0;
    while j < y
        invariant
            grid@.len() == y,
            j <= y,
            forall|i: int|
                0 <= i < j ==> (#[trigger] grid@[i]).deep_view() == resized(
                    old(grid).deep_view(),
                    x as int,
                    y as int,
                )[i],
            forall|i: int|
                j <= i < y ==> (#[trigger] grid@[i])@ == (if i < old(grid)@.len() {
                    old(grid)@[i]@
                } else {
                    Seq::<u8>::empty()
                }),
        decreases y - j,
    {
        let mut row: Row = Vec::new();
        let mut i: usize = 0;
        while i < x
            invariant
                j < grid@.len(),
                row@.len() == i,
                i <= x,
                forall|k: int|
                    0 <= k < i ==> #[trigger] row@[k] == (if k < grid@[j as int]@.len() {
                        grid@[j as int]@[k]
                    } else {
                        0u8
                    }),
            decreases x - i,
        {
            let src: &Row = &grid[j];
            let v = if i < src.len() {
                src[i]
            } else {
                0
            };
            row.push(v);
            i = i + 1;
        }
        proof {
            let g0 = old(grid).deep_view();
            let pre = if (j as int) < old(grid)@.len() {
                old(grid)@[j as int]@
            } else {
                Seq::<u8>::empty()
            };
            assert(row.deep_view() =~= resized_row(pre, x as int));
            if (j as int) < old(grid)@.len() {
                assert(old(grid)@[j as int].deep_view() =~= old(grid)@[j as int]@);
            }
            assert(row.deep_view() == resized(g0, x as int, y as int)[j as int]);
        }
        grid.set(j, row);
        j = j + 1;
    }
    proof {
        assert forall|i: int| 0 <= i < y implies grid.deep_view()[i] == resized(
            old(grid).deep_view(),
            x as int,
            y as int,
        )[i] by {
            assert(grid.deep_view()[i] == grid@[i].deep_view());
        }
        assert(grid.deep_view() =~= resized(old(grid).deep_view(), x as int, y as int));
    }
}

/// Writes `val` at `(x, y)` when in bounds; silently does nothing when out
/// of bounds.
fn set_in_grid(grid: &mut Grid, x: usize, y: usize, val: u8)
    ensures
        final(grid).deep_view() == set_at(old(grid).deep_view(), x as int, y as int, val),
{
    if y < grid.len() {
        let row: &mut Row = &mut grid[y];
        if x < row.len() {
            row.set(x, val);
        }
    }
    proof {
        assert forall|i: int| 0 <= i < grid@.len() implies grid.deep_view()[i] == set_at(
            old(grid).deep_view(),
            x as int,
            y as int,
            val,
        )[i] by {
            assert(grid.deep_view()[i] == grid@[i].deep_view());
            assert(old(grid).deep_view()[i] == old(grid)@[i].deep_view());
        }
        assert(grid.deep_view() =~~= set_at(old(grid).deep_view(), x as int, y as int, val));
    }
}

/// The double-buffered automaton: two grids of identical dimensions, a
/// selector flag naming the current one, and the rule configuration.
#[derive(Clone, Debug)]
pub struct Game {
    g1: Grid,
    g2: Grid,
    switch: bool,
    opts: CellOpts,
}

impl Game {
    /// The current buffer: the one exposed for reading and editing.
    pub closed spec fn cur(self) -> Seq<Seq<u8>> {
        if !self.switch {
            self.g1.deep_view()
        } else {
            self.g2.deep_view()
        }
    }

    /// The other buffer: the write target of the next transition.
    pub closed spec fn other(self) -> Seq<Seq<u8>> {
        if !self.switch {
            self.g2.deep_view()
        } else {
            self.g1.deep_view()
        }
    }

    /// The rule configuration the automaton was built with.
    pub closed spec fn config(self) -> CellOpts {
        self.opts
    }

    pub open spec fn height(self) -> int {
        self.cur().len() as int
    }

    pub open spec fn width(self) -> int {
        if self.cur().len() > 0 {
            self.cur()[0].len() as int
        } else {
            0
        }
    }

    /// Both buffers are rectangular and share the same dimensions, so the
    /// transition function never sees a shape mismatch.
    pub open spec fn wf(self) -> bool {
        is_grid(self.cur(), self.width(), self.height()) && is_grid(
            self.other(),
            self.width(),
            self.height(),
        )
    }

    /// Builds an automaton with two empty buffers; dimensions are
    /// established by the first `resize` call.
    pub fn new(opts: CellOpts) -> (r: Self)
        ensures
            r.wf(),
            r.config() == opts,
            r.cur() == Seq::<Seq<u8>>::empty(),
            r.other() == Seq::<Seq<u8>>::empty(),
    {
        let r = Self { g1: Grid::new(), g2: Grid::new(), switch: false, opts };
        proof {
            assert(r.cur() =~= Seq::<Seq<u8>>::empty());
            assert(r.other() =~= Seq::<Seq<u8>>::empty());
        }
        r
    }

    /// Computes the next generation from the current buffer into the other
    /// one, then flips the selector: the freshly computed grid becomes
    /// current. The dimensions set by the last resize are retained, and
    /// cells bounded by the life ceiling stay bounded.
    pub fn advance(&mut self)
        requires
            old(self).wf(),
        ensures
            final(self).wf(),
            final(self).config() == old(self).config(),
            final(self).width() == old(self).width(),
            final(self).height() == old(self).height(),
            final(self).cur() == step(old(self).cur(), old(self).config()),
            final(self).other() == old(self).cur(),
            bounded(old(self).cur(), old(self).config().life) ==> bounded(
                final(self).cur(),
                final(self).config().life,
            ),
    {
        proof {
            lemma_step_same_shape(old(self).cur(), old(self).config());
            if bounded(old(self).cur(), old(self).config().life) {
                lemma_step_bounded(old(self).cur(), old(self).config());
            }
        }
        if !self.switch {
            advance(&self.g1, &mut self.g2, self.opts);
        } else {
            advance(&self.g2, &mut self.g1, self.opts);
        }
        self.switch = !self.switch;
    }

    /// Resizes both buffers to `x` columns by `y` rows, so they never
    /// diverge in dimension.
    pub fn resize(&mut self, x: usize, y: usize)
        ensures
            final(self).wf(),
            final(self).config() == old(self).config(),
            final(self).height() == y,
            y > 0 ==> final(self).width() == x,
            final(self).cur() == resized(old(self).cur(), x as int, y as int),
            final(self).other() == resized(old(self).other(), x as int, y as int),
    {
        resize(&mut self.g1, x, y);
        resize(&mut self.g2, x, y);
    }

    /// The current buffer, for rendering.
    pub fn grid<'a>(&'a self) -> (g: &'a Grid)
        ensures
            g.deep_view() == self.cur(),
    {
        if !self.switch {
            &self.g1
        } else {
            &self.g2
        }
    }

    /// The current buffer, for direct edits. Edits that keep the buffer's
    /// shape keep the automaton well formed.
    pub fn grid_mut<'a>(&'a mut self) -> (g: &'a mut Grid)
        ensures
            g.deep_view() == old(self).cur(),
            final(self).cur() == final(g).deep_view(),
            final(self).other() == old(self).other(),
            final(self).config() == old(self).config(),
    {
        if !self.switch {
            &mut self.g1
        } else {
            &mut self.g2
        }
    }

    pub fn opts<'a>(&'a self) -> (o: &'a CellOpts)
        ensures
            *o == self.config(),
    {
        &self.opts
    }

    /// Writes `val` at `(x, y)` of the current buffer when in bounds; a
    /// silent no-op otherwise. Bypasses the transition rule entirely.
    pub fn set_cell(&mut self, x: usize, y: usize, val: u8)
        ensures
            final(self).cur() == set_at(old(self).cur(), x as int, y as int, val),
            final(self).other() == old(self).other(),
            final(self).config() == old(self).config(),
            old(self).wf() ==> final(self).wf(),
    {
        if !self.switch {
            set_in_grid(&mut self.g1, x, y, val);
        } else {
            set_in_grid(&mut self.g2, x, y, val);
        }
    }

    /// Reads the cell at `(x, y)` of the current buffer, or `None` when out
    /// of bounds.
    pub fn get_cell(&self, x: usize, y: usize) -> (r: Option<u8>)
        ensures
            r == cell_at(self.cur(), x as int, y as int),
    {
        get_cell(self.grid(), x, y)
    }
}

/// One generation keeps the source grid's shape: as many rows, and row for
/// row as many cells.
pub proof fn lemma_step_same_shape(g: Seq<Seq<u8>>, opts: CellOpts)
    ensures
        same_shape(step(g, opts), g),
{
    assert forall|y: int| 0 <= y < g.len() implies (#[trigger] step(g, opts)[y]).len()
        == g[y].len() by {}
}

/// Bounded values: when every cell of `g` is at most `opts.life`, every
/// cell after one generation still is — growth saturates at the ceiling and
/// decay never raises a value.
pub proof fn lemma_step_bounded(g: Seq<Seq<u8>>, opts: CellOpts)
    requires
        bounded(g, opts.life),
    ensures
        bounded(step(g, opts), opts.life),
{
    assert forall|y: int, x: int|
        0 <= y < step(g, opts).len() && 0 <= x < step(g, opts)[y].len() implies (#[trigger] step(
        g,
        opts,
    )[y][x]) <= opts.life by {
        assert(g[y][x] <= opts.life);
        assert(step(g, opts)[y][x] == next_cell(g, x, y, opts));
    }
}

/// Purity: the transition is a function of the source grid and the rule
/// configuration alone, so two grids each computed from the same pair are
/// identical.
pub proof fn lemma_step_deterministic(
    from: Seq<Seq<u8>>,
    opts: CellOpts,
    a: Seq<Seq<u8>>,
    b: Seq<Seq<u8>>,
)
    requires
        a == step(from, opts),
        b == step(from, opts),
    ensures
        a == b,
{
}

/// A neighbor count is always between 0 and 8, even under diagonal
/// topology.
pub proof fn lemma_neighbor_count_range(g: Seq<Seq<u8>>, x: int, y: int, corners: bool)
    ensures
        0 <= neighbor_count(g, x, y, corners) <= 8,
{
}

/// Edge-cell behavior: the cell at grid corner `(0, 0)` sees at most 2
/// candidate neighbors (right, down) without corners and at most 3 (right,
/// down, down-right) with corners — offsets with a negative coordinate are
/// never looked up.
pub proof fn lemma_corner_cell_neighbors(g: Seq<Seq<u8>>, corners: bool)
    ensures
        !corners ==> neighbor_count(g, 0, 0, corners) <= 2,
        corners ==> neighbor_count(g, 0, 0, corners) <= 3,
{
    assert(occ(g, 0, -1) == 0);
    assert(occ(g, -1, 0) == 0);
    assert(occ(g, 1, -1) == 0);
    assert(occ(g, -1, 1) == 0);
    assert(occ(g, -1, -1) == 0);
}

/// Stasis: when every cell is dead and zero live neighbors trigger no
/// growth, the grid stays all-dead after a generation, whatever the decay
/// rules say.
pub proof fn lemma_all_dead_stasis(g: Seq<Seq<u8>>, opts: CellOpts)
    requires
        all_dead(g),
        !opts.grow[0],
    ensures
        all_dead(step(g, opts)),
{
    assert forall|a: int, b: int| !is_live(g, a, b) by {
        if 0 <= b < g.len() && 0 <= a < g[b].len() {
            assert(g[b][a] == 0);
        }
    }
    assert forall|y: int, x: int|
        0 <= y < step(g, opts).len() && 0 <= x < step(g, opts)[y].len() implies (#[trigger] step(
        g,
        opts,
    )[y][x]) == 0 by {
        assert(!is_live(g, x, y - 1));
        assert(!is_live(g, x + 1, y));
        assert(!is_live(g, x, y + 1));
        assert(!is_live(g, x - 1, y));
        assert(!is_live(g, x + 1, y - 1));
        assert(!is_live(g, x + 1, y + 1));
        assert(!is_live(g, x - 1, y + 1));
        assert(!is_live(g, x - 1, y - 1));
        assert(neighbor_count(g, x, y, opts.corners) == 0);
        assert(g[y][x] == 0);
        assert(step(g, opts)[y][x] == next_cell(g, x, y, opts));
    }
}

} // verus!
