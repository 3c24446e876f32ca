//! The grid model: cell states, the board, and the generation rule.

use vstd::prelude::*;

verus! {

/// The state of one grid cell.
#[derive(Clone, Copy, Debug, PartialEq, Eq, Structural)]
pub enum State {
    Alive,
    Dead,
}

/// The one failure of this library: a board built from rows of unequal
/// length ("ragged" input).
#[derive(Clone, Copy, Debug, PartialEq, Eq, Structural)]
pub struct ShapeError;

/// The cell state a boolean stands for: `true` is a live cell.
pub open spec fn state_of_bool(b: bool) -> State {
    if b {
        State::Alive
    } else {
        State::Dead
    }
}

/// The cell state a pattern character stands for: `.` and `0` are dead,
/// every other character is alive.
pub open spec fn state_of_char(c: char) -> State {
    if c == '.' || c == '0' {
        State::Dead
    } else {
        State::Alive
    }
}

/// The display character of a cell state: `#` for alive, `.` for dead.
pub open spec fn char_of_state(s: State) -> char {
    match s {
        State::Alive => '#',
        State::Dead => '.',
    }
}

impl State {
    /// Converts a boolean, `true` meaning alive.
    pub fn from_bool(b: bool) -> (s: State)
        ensures
            s == state_of_bool(b),
    {
        if b {
            State::Alive
        } else {
            State::Dead
        }
    }

    /// Converts a pattern character: `.` and `0` mean dead, anything else alive.
    pub fn from_char(c: char) -> (s: State)
        ensures
            s == state_of_char(c),
    {
        if c == '.' || c == '0' {
            State::Dead
        } else {
            State::Alive
        }
    }

    /// The display character: `#` for alive, `.` for dead.
    pub fn to_char(self) -> (c: char)
        ensures
            c == char_of_state(self),
    {
        match self {
            State::Alive => '#',
            State::Dead => '.',
        }
    }
}

/// The number of rows of a grid.
pub open spec fn grid_height(g: Seq<Seq<State>>) -> nat {
    g.len()
}

/// The width of a grid: the length of its first row, or 0 if it has no rows.
pub open spec fn grid_width(g: Seq<Seq<State>>) -> nat {
    if g.len() == 0 {
        0
    } else {
        g[0].len()
    }
}

/// Rectangularity: every row has the same length as the first.
pub open spec fn rectangular(g: Seq<Seq<State>>) -> bool {
    forall|y: int| 0 <= y < g.len() ==> (#[trigger] g[y]).len() == grid_width(g)
}

/// The grid a boolean matrix stands for: `true` becomes a live cell.
pub open spec fn grid_of_bools(m: Seq<Vec<bool>>) -> Seq<Seq<State>> {
    m.map_values(|row: Vec<bool>| row@.map_values(|b: bool| state_of_bool(b)))
}

/// The all-dead grid of the given dimensions.
pub open spec fn dead_grid(width: nat, height: nat) -> Seq<Seq<State>> {
    Seq::new(height, |y: int| Seq::new(width, |x: int| State::Dead))
}

/// Whether the grid holds a live cell at row `y`, column `x`. Positions
/// outside the grid count as dead, so edge cells simply have fewer live
/// neighbors (no wraparound).
pub open spec fn alive_at(g: Seq<Seq<State>>, y: int, x: int) -> bool {
    0 <= y < g.len() && 0 <= x < g[y].len() && g[y][x] == State::Alive
}

/// 1 if the condition holds, else 0; used to sum neighbor counts.
pub open spec fn one_if(b: bool) -> int {
    if b {
        1
    } else {
        0
    }
}

/// The number of live cells among the up to 8 neighbors of `(y, x)`:
/// the orthogonal and diagonal offsets at row/column plus or minus one,
/// with out-of-bounds positions absent.
pub open spec fn live_neighbors(g: Seq<Seq<State>>, y: int, x: int) -> int {
    one_if(alive_at(g, y - 1, x - 1)) + one_if(alive_at(g, y - 1, x)) + one_if(
        alive_at(g, y - 1, x + 1),
    ) + one_if(alive_at(g, y, x - 1)) + one_if(alive_at(g, y, x + 1)) + one_if(
        alive_at(g, y + 1, x - 1),
    ) + one_if(alive_at(g, y + 1, x)) + one_if(alive_at(g, y + 1, x + 1))
}

/// The transition rule for one cell. A live cell survives exactly with 2
/// or 3 live neighbors (underpopulation below, overpopulation above); a
/// dead cell comes alive exactly with 3 (reproduction).
pub open spec fn next_state(s: State, live: int) -> State {
    match s {
        State::Alive => if live == 2 || live == 3 {
            State::Alive
        } else {
            State::Dead
        },
        State::Dead => if live == 3 {
            State::Alive
        } else {
            State::Dead
        },
    }
}

/// The next generation of a whole grid: every cell's next state is
/// computed from the current grid alone, so the dimensions are kept and
/// no partially-updated state is ever consulted.
pub open spec fn advanced(g: Seq<Seq<State>>) -> Seq<Seq<State>> {
    Seq::new(
        g.len(),
        |y: int| Seq::new(g[y].len(), |x: int| next_state(g[y][x], live_neighbors(g, y, x))),
    )
}

/// Purity of the generation step: the next grid is a function of the
/// current grid alone, so advancing equal grids gives equal results.
/// Together with `next_board_state` taking its receiver by shared
/// reference — which rules out mutation of the source board — this is
/// what makes the transition a pure function.
pub proof fn lemma_advance_deterministic(a: Seq<Seq<State>>, b: Seq<Seq<State>>)
    requires
        a == b,
    ensures
        advanced(a) == advanced(b),
{
}

/// A rectangular grid of cells: a sequence of rows, each a sequence of
/// cells of identical length. Viewed as a `Seq<Seq<State>>`, rows first.
#[derive(Debug)]
pub struct Board {
    state: Vec<Vec<State>>,
}

impl View for Board {
    type V = Seq<Seq<State>>;

    closed spec fn view(&self) -> Seq<Seq<State>> {
        self.state@.map_values(|row: Vec<State>| row@)
    }
}

impl Board {
    /// Well-formedness: the rows form a rectangle. Every constructor
    /// establishes this and every operation preserves it.
    pub open spec fn wf(&self) -> bool {
        rectangular(self@)
    }

    /// A board of the given dimensions with every cell dead. A width or
    /// height of 0 is legal and yields a degenerate board.
    pub fn new(width: usize, height: usize) -> (b: Board)
        ensures
            b@ == dead_grid(width as nat, height as nat),
            b.wf(),
    {
        let mut rows: Vec<Vec<State>> = Vec::new();
        let mut y: usize = 0;
        while y < height
            invariant
                y <= height,
                rows@.len() == y,
                forall|i: int|
                    0 <= i < y ==> (#[trigger] rows@[i])@ =~= Seq::new(
                        width as nat,
                        |x: int| State::Dead,
                    ),
            decreases height - y,
        {
            let mut row: Vec<State> = Vec::new();
            let mut x: usize = 0;
            while x < width
                invariant
                    x <= width,
                    row@.len() == x,
                    forall|j: int| 0 <= j < x ==> row@[j] == State::Dead,
                decreases width - x,
            {
                row.push(State::Dead);
                x = x + 1;
            }
            assert(row@ =~= Seq::new(width as nat, |x: int| State::Dead));
            rows.push(row);
            y = y + 1;
        }
        let b = Board { state: rows };
        assert(b@ =~~= dead_grid(width as nat, height as nat));
        b
    }

    /// Wraps an already prepared vector of rows as a board.
    pub(crate) fn from_rows(rows: Vec<Vec<State>>) -> (b: Board)
        ensures
            b@ == rows@.map_values(|row: Vec<State>| row@),
    {
        Board { state: rows }
    }

    /// The rows of the board, for in-crate traversal.
    pub(crate) fn rows(&self) -> (r: &Vec<Vec<State>>)
        ensures
            r@.map_values(|row: Vec<State>| row@) == self@,
    {
        &self.state
    }

    /// The number of columns: 0 if the board has no rows, else the length
    /// of the first row.
    pub fn width(&self) -> (w: usize)
        ensures
            w == grid_width(self@),
    {
        if self.state.len() == 0 {
            0
        } else {
            self.state[0].len()
        }
    }

    /// The number of rows.
    pub fn height(&self) -> (h: usize)
        ensures
            h == grid_height(self@),
    {
        self.state.len()
    }

    /// A board read off a matrix of booleans, `true` meaning alive. Fails
    /// with [`ShapeError`] exactly when the matrix rows differ in length.
    pub fn from_bool_matrix(m: &Vec<Vec<bool>>) -> (r: Result<Board, ShapeError>)
        ensures
            r is Ok <==> rectangular(grid_of_bools(m@)),
            r matches Ok(b) ==> b@ == grid_of_bools(m@) && b.wf(),
            r matches Err(e) ==> e == ShapeError,
    {
        let h = m.len();
        let w = if h == 0 {
            0
        } else {
            m[0].len()
        };
        let mut rows: Vec<Vec<State>> = Vec::new();
        let mut y: usize = 0;
        while y < h
            invariant
                y <= h,
                h == m@.len(),
                w == grid_width(grid_of_bools(m@)),
                rows@.len() == y,
                forall|i: int| 0 <= i < y ==> (#[trigger] m@[i])@.len() == w,
                forall|i: int|
                    0 <= i < y ==> (#[trigger] rows@[i])@ =~= grid_of_bools(m@)[i],
            decreases h - y,
        {
            let src = &m[y];
            if src.len() != w {
                assert(grid_of_bools(m@)[y as int].len() != grid_width(grid_of_bools(m@)));
                assert(!rectangular(grid_of_bools(m@)));
                return Err(ShapeError);
            }
            let mut row: Vec<State> = Vec::new();
            let mut x: usize = 0;
            while x < src.len()
                invariant
                    x <= src@.len(),
                    row@.len() == x,
                    forall|j: int| 0 <= j < x ==> row@[j] == state_of_bool(src@[j]),
                decreases src@.len() - x,
            {
                row.push(State::from_bool(src[x]));
                x = x + 1;
            }
            assert(row@ =~= grid_of_bools(m@)[y as int]);
            rows.push(row);
            y = y + 1;
        }
        let b = Board { state: rows };
        assert(b@ =~~= grid_of_bools(m@));
        Ok(b)
    }

    /// Overwrites every cell with an independently drawn random state,
    /// alive or dead with equal probability. The dimensions are kept;
    /// nothing is promised of the values, which come from the thread-local
    /// generator and differ from run to run by design.
    pub fn random_state(&mut self)
        requires
            old(self).wf(),
        ensures
            final(self).wf(),
            grid_height(final(self)@) == grid_height(old(self)@),
            grid_width(final(self)@) == grid_width(old(self)@),
    {
        let h = self.state.len();
        let w = self.width();
        let mut rows: Vec<Vec<State>> = Vec::new();
        let mut y: usize = 0;
        while y < h
            invariant
                y <= h,
                rows@.len() == y,
                forall|i: int| 0 <= i < y ==> (#[trigger] rows@[i])@.len() == w,
            decreases h - y,
        {
            let mut row: Vec<State> = Vec::new();
            let mut x: usize = 0;
            while x < w
                invariant
                    x <= w,
                    row@.len() == x,
                decreases w - x,
            {
                let b: bool = rand::random();
                row.push(State::from_bool(b));
                x = x + 1;
            }
            rows.push(row);
            y = y + 1;
        }
        self.state = rows;
    }

    /// Whether the cell at row `y`, column `x` is alive; positions outside
    /// the grid count as dead.
    fn is_alive(&self, y: usize, x: usize) -> (r: bool)
        ensures
            r == alive_at(self@, y as int, x as int),
    {
        if y < self.state.len() {
            let row = &self.state[y];
            if x < row.len() {
                match row[x] {
                    State::Alive => true,
                    State::Dead => false,
                }
            } else {
                false
            }
        } else {
            false
        }
    }

    /// Counts the live cells among the up to 8 neighbors of `(y, x)`.
    fn live_neighbor_count(&self, y: usize, x: usize) -> (n: u8)
        requires
            y < self@.len() <= usize::MAX,
            x < self@[y as int].len() <= usize::MAX,
        ensures
            n as int == live_neighbors(self@, y as int, x as int),
    {
        let mut n: u8 = 0;
        if y > 0 && x > 0 && self.is_alive(y - 1, x - 1) {
            n = n + 1;
        }
        if y > 0 && self.is_alive(y - 1, x) {
            n = n + 1;
        }
        if y > 0 && self.is_alive(y - 1, x + 1) {
            n = n + 1;
        }
        if x > 0 && self.is_alive(y, x - 1) {
            n = n + 1;
        }
        if self.is_alive(y, x + 1) {
            n = n + 1;
        }
        if x > 0 && self.is_alive(y + 1, x - 1) {
            n = n + 1;
        }
        if self.is_alive(y + 1, x) {
            n = n + 1;
        }
        if self.is_alive(y + 1, x + 1) {
            n = n + 1;
        }
        n
    }

    /// The next generation: a new board of the same dimensions in which
    /// every cell's state follows the transition rule applied to this
    /// board. The receiver is read only, never modified.
    pub fn next_board_state(&self) -> (r: Board)
        requires
            self.wf(),
        ensures
            r@ == advanced(self@),
            r@.len() == self@.len(),
            grid_width(r@) == grid_width(self@),
            r.wf(),
    {
        let h = self.state.len();
        let w = self.width();
        let mut rows: Vec<Vec<State>> = Vec::new();
        let mut y: usize = 0;
        while y < h
            invariant
                self.wf(),
                h == self@.len(),
                w == grid_width(self@),
                y <= h,
                rows@.len() == y,
                forall|i: int|
                    0 <= i < y ==> (#[trigger] rows@[i])@ =~= advanced(self@)[i],
            decreases h - y,
        {
            let mut row: Vec<State> = Vec::new();
            let mut x: usize = 0;
            while x < w
                invariant
                    self.wf(),
                    h == self@.len(),
                    w == grid_width(self@),
                    y < h,
                    x <= w,
                    row@.len() == x,
                    forall|j: int|
                        0 <= j < x ==> row@[j] == next_state(
                            self@[y as int][j],
                            live_neighbors(self@, y as int, j),
                        ),
                decreases w - x,
            {
                let live = self.live_neighbor_count(y, x);
                let cell = match self.state[y][x] {
                    State::Alive => if live == 2 || live == 3 {
                        State::Alive
                    } else {
                        State::Dead
                    },
                    State::Dead => if live == 3 {
                        State::Alive
                    } else {
                        State::Dead
                    },
                };
                row.push(cell);
                x = x + 1;
            }
            assert(row@ =~= advanced(self@)[y as int]);
            rows.push(row);
            y = y + 1;
        }
        let r = Board { state: rows };
        assert(r@ =~~= advanced(self@));
        r
    }
}

} // verus!
