use vstd::prelude::*;

verus! {

/// The three difficulty tiers.
#[derive(Debug, Clone, Copy, PartialEq, Eq, Structural)]
pub enum Level {
    Beginner,
    Intermediate,
    Expert,
}

/// Board geometry: rows, columns and the number of mines.
#[derive(Debug, Clone, Copy, PartialEq, Eq, Structural)]
pub struct Options {
    pub level: Level,
    pub rows: i16,
    pub columns: i16,
    pub mines: i16,
}

/// The largest number of cells a board may have: linear indices fit in `i16`.
pub const MAX_TILES: i16 = 32767;

impl Options {
    /// A board that at least one cell is free of mines on, and whose linear
    /// indices fit the index types.
    pub open spec fn wf(self) -> bool {
        &&& 1 <= self.rows
        &&& 1 <= self.columns
        &&& 0 <= self.mines
        &&& self.rows * self.columns <= MAX_TILES
        &&& self.mines < self.rows * self.columns
    }

    pub open spec fn tile_count(self) -> int {
        self.rows * self.columns
    }

    pub open spec fn spec_row(self, index: int) -> int {
        index / (self.columns as int)
    }

    pub open spec fn spec_column(self, index: int) -> int {
        index % (self.columns as int)
    }

    pub open spec fn spec_index(self, row: int, column: int) -> int {
        row * self.columns + column
    }

    pub open spec fn inside(self, row: int, column: int) -> bool {
        0 <= row < self.rows && 0 <= column < self.columns
    }

    /// `cells` with (row, column) added when that cell is on the board.
    pub open spec fn visit(self, cells: Seq<(i16, i16)>, row: int, column: int) -> Seq<(i16, i16)> {
        if self.inside(row, column) {
            cells.push((row as i16, column as i16))
        } else {
            cells
        }
    }

    /// The cells around (row, column), clipped at the board's edges, in
    /// row-major order.
    pub open spec fn cells_around(self, row: int, column: int) -> Seq<(i16, i16)> {
        let s = Seq::empty();
        let s = self.visit(s, row - 1, column - 1);
        let s = self.visit(s, row - 1, column);
        let s = self.visit(s, row - 1, column + 1);
        let s = self.visit(s, row, column - 1);
        let s = self.visit(s, row, column + 1);
        let s = self.visit(s, row + 1, column - 1);
        let s = self.visit(s, row + 1, column);
        self.visit(s, row + 1, column + 1)
    }

    /// The neighbouring cells of the cell at linear `index`.
    pub open spec fn neighbor_cells(self, index: int) -> Seq<(i16, i16)> {
        self.cells_around(self.spec_row(index), self.spec_column(index))
    }

    /// The linear indices of the neighbours of `index`, in row-major order.
    pub open spec fn neighbors(self, index: int) -> Seq<int> {
        self.neighbor_cells(index).map_values(|p: (i16, i16)| self.spec_index(p.0 as int, p.1 as int))
    }

    pub open spec fn spec_for(level: Level) -> Options {
        match level {
            Level::Beginner => Options { level, rows: 9, columns: 9, mines: 10 },
            Level::Intermediate => Options { level, rows: 16, columns: 16, mines: 40 },
            Level::Expert => Options { level, rows: 16, columns: 30, mines: 99 },
        }
    }

    /// The options of a difficulty tier.
    pub fn for_level(level: Level) -> (r: Options)
        ensures
            r == Options::spec_for(level),
            r.wf(),
    {
        match level {
            Level::Beginner => Options::beginner(),
            Level::Intermediate => Options::intermediate(),
            Level::Expert => Options::expert(),
        }
    }

    /// 9 x 9 with 10 mines.
    pub fn beginner() -> (r: Options)
        ensures
            r == Options::spec_for(Level::Beginner),
    {
        Options { level: Level::Beginner, rows: 9, columns: 9, mines: 10 }
    }

    /// 16 x 16 with 40 mines.
    pub fn intermediate() -> (r: Options)
        ensures
            r == Options::spec_for(Level::Intermediate),
    {
        Options { level: Level::Intermediate, rows: 16, columns: 16, mines: 40 }
    }

    /// 16 x 30 with 99 mines.
    pub fn expert() -> (r: Options)
        ensures
            r == Options::spec_for(Level::Expert),
    {
        Options { level: Level::Expert, rows: 16, columns: 30, mines: 99 }
    }

    /// The tier that a command line asks for: its first argument after the
    /// program name, `beginner`, `intermediate` or `expert`. Anything else,
    /// or no argument, gives the beginner tier.
    pub fn new_with_args(args: Vec<String>) -> (r: Options)
        ensures
            r == Options::spec_for(level_named(if args@.len() > 1 { Some(args@[1]@) } else { None })),
    {
        if args.len() > 1 {
            let level = level_of_name(&args[1]);
            Options::for_level(level)
        } else {
            Options::beginner()
        }
    }

    /// The tier's name: `beginner`, `intermediate` or `expert`.
    pub fn level(&self) -> (r: &'static str)
        ensures
            r@ == level_name(self.level),
    {
        match self.level {
            Level::Beginner => "beginner",
            Level::Intermediate => "intermediate",
            Level::Expert => "expert",
        }
    }

    /// Number of cells on the board.
    pub fn tiles(&self) -> (r: i16)
        requires
            self.wf(),
        ensures
            r == self.tile_count(),
    {
        self.rows * self.columns
    }

    /// Number of cells without a mine.
    pub fn blanks(&self) -> (r: i16)
        requires
            self.wf(),
        ensures
            r == self.tile_count() - self.mines,
            r > 0,
    {
        self.tiles() - self.mines
    }

    pub fn mines(&self) -> (r: i16)
        ensures
            r == self.mines,
    {
        self.mines
    }

    /// Row and column of the cell at linear `index`.
    pub fn row_column(&self, index: u16) -> (r: (i16, i16))
        requires
            self.wf(),
            index < self.tile_count(),
        ensures
            r.0 == self.spec_row(index as int),
            r.1 == self.spec_column(index as int),
            self.inside(r.0 as int, r.1 as int),
    {
        proof {
            lemma_row_column(*self, index as int);
        }
        (index as i16 / self.columns, index as i16 % self.columns)
    }

    /// Linear index of the cell at (row, column).
    pub fn index(&self, row: i16, column: i16) -> (r: u16)
        requires
            self.wf(),
            self.inside(row as int, column as int),
        ensures
            r == self.spec_index(row as int, column as int),
            r < self.tile_count(),
    {
        proof {
            lemma_index_inside(*self, row as int, column as int);
        }
        (row * self.columns + column) as u16
    }

    fn visit_cell(&self, cells: &mut Vec<(i16, i16)>, row: i16, column: i16)
        ensures
            final(cells)@ == self.visit(old(cells)@, row as int, column as int),
    {
        if 0 <= row && row < self.rows && 0 <= column && column < self.columns {
            cells.push((row, column));
        }
    }

    /// The (row, column) of each neighbour of the cell at `index`, clipped at
    /// the board's edges, in row-major order.
    pub fn for_each_neighbor(&self, index: u16) -> (r: Vec<(i16, i16)>)
        requires
            self.wf(),
            index < self.tile_count(),
        ensures
            r@ == self.neighbor_cells(index as int),
    {
        let (row, column) = self.row_column(index);
        let mut cells: Vec<(i16, i16)> = Vec::new();
        self.visit_cell(&mut cells, row - 1, column - 1);
        self.visit_cell(&mut cells, row - 1, column);
        self.visit_cell(&mut cells, row - 1, column + 1);
        self.visit_cell(&mut cells, row, column - 1);
        self.visit_cell(&mut cells, row, column + 1);
        self.visit_cell(&mut cells, row + 1, column - 1);
        self.visit_cell(&mut cells, row + 1, column);
        self.visit_cell(&mut cells, row + 1, column + 1);
        cells
    }
}

pub open spec fn level_name(level: Level) -> Seq<char> {
    match level {
        Level::Beginner => "beginner"@,
        Level::Intermediate => "intermediate"@,
        Level::Expert => "expert"@,
    }
}

/// The tier that a command-line word names; beginner for anything else.
pub open spec fn level_named(word: Option<Seq<char>>) -> Level {
    match word {
        Some(w) => if w == "intermediate"@ {
            Level::Intermediate
        } else if w == "expert"@ {
            Level::Expert
        } else {
            Level::Beginner
        },
        None => Level::Beginner,
    }
}

fn level_of_name(word: &String) -> (r: Level)
    ensures
        r == level_named(Some(word@)),
{
    proof {
        reveal_strlit("beginner");
        reveal_strlit("intermediate");
        reveal_strlit("expert");
    }
    let intermediate = "intermediate".to_owned();
    let expert = "expert".to_owned();
    if *word == intermediate {
        Level::Intermediate
    } else if *word == expert {
        Level::Expert
    } else {
        Level::Beginner
    }
}

pub proof fn lemma_row_column(o: Options, index: int)
    requires
        o.wf(),
        0 <= index < o.tile_count(),
    ensures
        o.inside(o.spec_row(index), o.spec_column(index)),
        o.spec_index(o.spec_row(index), o.spec_column(index)) == index,
{
    let c = o.columns as int;
    let r = o.rows as int;
    assert(0 <= index / c < r) by (nonlinear_arith)
        requires 0 <= index < r * c, c >= 1;
    assert(index == (index / c) * c + index % c) by (nonlinear_arith)
        requires c >= 1;
    assert(0 <= index % c < c) by (nonlinear_arith)
        requires c >= 1, index >= 0;
}

pub proof fn lemma_index_inside(o: Options, row: int, column: int)
    requires
        o.wf(),
        o.inside(row, column),
    ensures
        0 <= o.spec_index(row, column) < o.tile_count(),
        o.spec_row(o.spec_index(row, column)) == row,
        o.spec_column(o.spec_index(row, column)) == column,
{
    let c = o.columns as int;
    let r = o.rows as int;
    let i = row * c + column;
    assert(0 <= i < r * c) by (nonlinear_arith)
        requires 0 <= row < r, 0 <= column < c, i == row * c + column;
    assert(i / c == row && i % c == column) by (nonlinear_arith)
        requires 0 <= row, 0 <= column < c, i == row * c + column;
}

/// `visit` keeps every cell on the board and adds at most one.
proof fn lemma_visit(o: Options, s: Seq<(i16, i16)>, row: int, column: int, n: nat)
    requires
        s.len() <= n,
        forall|j: int| 0 <= j < s.len() ==> o.inside(#[trigger] s[j].0 as int, s[j].1 as int),
    ensures
        o.visit(s, row, column).len() <= n + 1,
        forall|j: int| 0 <= j < o.visit(s, row, column).len()
            ==> o.inside(#[trigger] o.visit(s, row, column)[j].0 as int, o.visit(s, row, column)[j].1 as int),
{
}

/// A cell has at most eight neighbours, all on the board.
pub proof fn lemma_neighbor_cells(o: Options, index: int)
    ensures
        o.neighbor_cells(index).len() <= 8,
        forall|j: int| 0 <= j < o.neighbor_cells(index).len()
            ==> o.inside(#[trigger] o.neighbor_cells(index)[j].0 as int, o.neighbor_cells(index)[j].1 as int),
{
    let r = o.spec_row(index);
    let c = o.spec_column(index);
    let s0 = Seq::<(i16, i16)>::empty();
    let s1 = o.visit(s0, r - 1, c - 1);
    lemma_visit(o, s0, r - 1, c - 1, 0);
    let s2 = o.visit(s1, r - 1, c);
    lemma_visit(o, s1, r - 1, c, 1);
    let s3 = o.visit(s2, r - 1, c + 1);
    lemma_visit(o, s2, r - 1, c + 1, 2);
    let s4 = o.visit(s3, r, c - 1);
    lemma_visit(o, s3, r, c - 1, 3);
    let s5 = o.visit(s4, r, c + 1);
    lemma_visit(o, s4, r, c + 1, 4);
    let s6 = o.visit(s5, r + 1, c - 1);
    lemma_visit(o, s5, r + 1, c - 1, 5);
    let s7 = o.visit(s6, r + 1, c);
    lemma_visit(o, s6, r + 1, c, 6);
    lemma_visit(o, s7, r + 1, c + 1, 7);
}

/// Every difficulty tier is a valid board: it has fewer mines than cells, so
/// at least one cell is blank.
pub proof fn lemma_tiers_are_valid(level: Level)
    ensures
        Options::spec_for(level).wf(),
        Options::spec_for(level).mines < Options::spec_for(level).tile_count(),
{
}

/// A cell is a neighbour of the cell at `index` exactly when it is on the
/// board, is another cell, and lies at most one row and one column away:
/// the list is clipped at every edge and corner of the board.
pub proof fn lemma_neighbor_membership(o: Options, index: int, row: i16, column: i16)
    requires
        o.wf(),
        0 <= index < o.tile_count(),
    ensures
        o.neighbor_cells(index).contains((row, column)) <==> {
            let r0 = o.spec_row(index);
            let c0 = o.spec_column(index);
            &&& o.inside(row as int, column as int)
            &&& (row != r0 || column != c0)
            &&& r0 - 1 <= row <= r0 + 1
            &&& c0 - 1 <= column <= c0 + 1
        },
{
    lemma_row_column(o, index);
    let r0 = o.spec_row(index);
    let c0 = o.spec_column(index);
    let cells = o.neighbor_cells(index);
    let target = (row, column);
    if cells.contains(target) {
        let k = choose|k: int| 0 <= k < cells.len() && cells[k] == target;
        lemma_neighbor_cells(o, index);
        lemma_cells_around_near(o, r0, c0, k);
    } else {
        if o.inside(row as int, column as int) && (row != r0 || column != c0) && r0 - 1 <= row <= r0 + 1
            && c0 - 1 <= column <= c0 + 1 {
            lemma_cells_around_complete(o, r0, c0, row as int, column as int);
        }
    }
}

/// Each listed cell lies around (row, column) and is not that cell.
proof fn lemma_cells_around_near(o: Options, row: int, column: int, k: int)
    requires
        o.wf(),
        0 <= k < o.cells_around(row, column).len(),
        forall|j: int| 0 <= j < o.cells_around(row, column).len()
            ==> o.inside(#[trigger] o.cells_around(row, column)[j].0 as int, o.cells_around(row, column)[j].1 as int),
    ensures
        ({
            let p = o.cells_around(row, column)[k];
            &&& row - 1 <= p.0 <= row + 1
            &&& column - 1 <= p.1 <= column + 1
            &&& (p.0 != row || p.1 != column)
        }),
{
    let s0 = Seq::<(i16, i16)>::empty();
    let s1 = o.visit(s0, row - 1, column - 1);
    let s2 = o.visit(s1, row - 1, column);
    let s3 = o.visit(s2, row - 1, column + 1);
    let s4 = o.visit(s3, row, column - 1);
    let s5 = o.visit(s4, row, column + 1);
    let s6 = o.visit(s5, row + 1, column - 1);
    let s7 = o.visit(s6, row + 1, column);
    let s8 = o.visit(s7, row + 1, column + 1);
    assert(s8 == o.cells_around(row, column));
    assert(forall|j: int| 0 <= j < s1.len() ==> s1[j] == ((row - 1) as i16, (column - 1) as i16));
    assert(forall|j: int| 0 <= j < s2.len() ==> s2[j] == s1[j] || s2[j] == ((row - 1) as i16, column as i16));
    assert(forall|j: int| 0 <= j < s3.len() ==> (j < s2.len() && s3[j] == s2[j]) || s3[j] == ((row - 1) as i16, (column + 1) as i16));
    assert(forall|j: int| 0 <= j < s4.len() ==> (j < s3.len() && s4[j] == s3[j]) || s4[j] == (row as i16, (column - 1) as i16));
    assert(forall|j: int| 0 <= j < s5.len() ==> (j < s4.len() && s5[j] == s4[j]) || s5[j] == (row as i16, (column + 1) as i16));
    assert(forall|j: int| 0 <= j < s6.len() ==> (j < s5.len() && s6[j] == s5[j]) || s6[j] == ((row + 1) as i16, (column - 1) as i16));
    assert(forall|j: int| 0 <= j < s7.len() ==> (j < s6.len() && s7[j] == s6[j]) || s7[j] == ((row + 1) as i16, column as i16));
    assert(forall|j: int| 0 <= j < s8.len() ==> (j < s7.len() && s8[j] == s7[j]) || s8[j] == ((row + 1) as i16, (column + 1) as i16));
}

/// Every cell of the board around (row, column), other than itself, is listed.
proof fn lemma_cells_around_complete(o: Options, row: int, column: int, r: int, c: int)
    requires
        o.wf(),
        o.inside(row, column),
        o.inside(r, c),
        r != row || c != column,
        row - 1 <= r <= row + 1,
        column - 1 <= c <= column + 1,
    ensures
        o.cells_around(row, column).contains((r as i16, c as i16)),
{
    let s0 = Seq::<(i16, i16)>::empty();
    let s1 = o.visit(s0, row - 1, column - 1);
    let s2 = o.visit(s1, row - 1, column);
    let s3 = o.visit(s2, row - 1, column + 1);
    let s4 = o.visit(s3, row, column - 1);
    let s5 = o.visit(s4, row, column + 1);
    let s6 = o.visit(s5, row + 1, column - 1);
    let s7 = o.visit(s6, row + 1, column);
    let s8 = o.visit(s7, row + 1, column + 1);
    assert(s8 == o.cells_around(row, column));
    let p = (r as i16, c as i16);
    // a listed cell stays listed as later cells are added
    assert(forall|j: int| 0 <= j < s1.len() ==> s2[j] == s1[j]);
    assert(forall|j: int| 0 <= j < s2.len() ==> s3[j] == s2[j]);
    assert(forall|j: int| 0 <= j < s3.len() ==> s4[j] == s3[j]);
    assert(forall|j: int| 0 <= j < s4.len() ==> s5[j] == s4[j]);
    assert(forall|j: int| 0 <= j < s5.len() ==> s6[j] == s5[j]);
    assert(forall|j: int| 0 <= j < s6.len() ==> s7[j] == s6[j]);
    assert(forall|j: int| 0 <= j < s7.len() ==> s8[j] == s7[j]);
    if r == row - 1 && c == column - 1 {
        assert(s1[s1.len() - 1] == p);
        assert(s8[s1.len() - 1] == p);
    } else if r == row - 1 && c == column {
        assert(s8[s2.len() - 1] == p);
    } else if r == row - 1 && c == column + 1 {
        assert(s8[s3.len() - 1] == p);
    } else if r == row && c == column - 1 {
        assert(s8[s4.len() - 1] == p);
    } else if r == row && c == column + 1 {
        assert(s8[s5.len() - 1] == p);
    } else if r == row + 1 && c == column - 1 {
        assert(s8[s6.len() - 1] == p);
    } else if r == row + 1 && c == column {
        assert(s8[s7.len() - 1] == p);
    } else {
        assert(s8[s8.len() - 1] == p);
    }
}

/// Rows (or columns) of the board within one of `x`, on a side of `n`.
pub open spec fn span(x: int, n: int) -> int {
    (if x > 0 { 1int } else { 0int }) + 1 + (if x < n - 1 { 1int } else { 0int })
}

/// A cell has as many neighbours as there are cells of the board within one
/// row and one column of it, less itself: three at a corner, five on another
/// cell of an edge, eight inside.
pub proof fn lemma_neighbor_count(o: Options, index: int)
    requires
        o.wf(),
        0 <= index < o.tile_count(),
    ensures
        o.neighbor_cells(index).len() == span(o.spec_row(index), o.rows as int) * span(
            o.spec_column(index),
            o.columns as int,
        ) - 1,
{
    lemma_row_column(o, index);
    let r = o.spec_row(index);
    let c = o.spec_column(index);
    let a = span(r, o.rows as int);
    let b = span(c, o.columns as int);
    let up: int = if r > 0 { 1 } else { 0 };
    let down: int = if r < o.rows - 1 { 1 } else { 0 };
    let left: int = if c > 0 { 1 } else { 0 };
    let right: int = if c < o.columns - 1 { 1 } else { 0 };
    assert(o.neighbor_cells(index).len() == up * (left + 1 + right) + left + right + down * (left + 1 + right));
    assert(a * b - 1 == up * (left + 1 + right) + left + right + down * (left + 1 + right)) by (nonlinear_arith)
        requires a == up + 1 + down, b == left + 1 + right;
}

/// Position of a cell in the 3 x 3 block around (row, column), row-major.
pub open spec fn block_key(row: int, column: int, p: (i16, i16)) -> int {
    (p.0 - row + 1) * 3 + (p.1 - column + 1)
}

/// Visiting a cell further along the block keeps the list sorted by block
/// position.
proof fn lemma_visit_sorted(o: Options, s: Seq<(i16, i16)>, row: int, column: int, r: int, c: int)
    requires
        forall|j: int, k: int| 0 <= j < k < s.len() ==> block_key(row, column, s[j]) < block_key(row, column, s[k]),
        forall|j: int| 0 <= j < s.len() ==> block_key(row, column, #[trigger] s[j]) < (r - row + 1) * 3 + (c - column + 1),
    ensures
        forall|j: int, k: int| 0 <= j < k < o.visit(s, r, c).len()
            ==> block_key(row, column, o.visit(s, r, c)[j]) < block_key(row, column, o.visit(s, r, c)[k]),
        forall|j: int| 0 <= j < o.visit(s, r, c).len()
            ==> block_key(row, column, #[trigger] o.visit(s, r, c)[j]) <= (r - row + 1) * 3 + (c - column + 1),
{
}

/// No cell is listed twice among the neighbours of a cell.
pub proof fn lemma_neighbors_distinct(o: Options, index: int)
    requires
        o.wf(),
        0 <= index < o.tile_count(),
    ensures
        o.neighbor_cells(index).no_duplicates(),
{
    lemma_row_column(o, index);
    let row = o.spec_row(index);
    let column = o.spec_column(index);
    let s0 = Seq::<(i16, i16)>::empty();
    let s1 = o.visit(s0, row - 1, column - 1);
    lemma_visit_sorted(o, s0, row, column, row - 1, column - 1);
    let s2 = o.visit(s1, row - 1, column);
    lemma_visit_sorted(o, s1, row, column, row - 1, column);
    let s3 = o.visit(s2, row - 1, column + 1);
    lemma_visit_sorted(o, s2, row, column, row - 1, column + 1);
    let s4 = o.visit(s3, row, column - 1);
    lemma_visit_sorted(o, s3, row, column, row, column - 1);
    let s5 = o.visit(s4, row, column + 1);
    lemma_visit_sorted(o, s4, row, column, row, column + 1);
    let s6 = o.visit(s5, row + 1, column - 1);
    lemma_visit_sorted(o, s5, row, column, row + 1, column - 1);
    let s7 = o.visit(s6, row + 1, column);
    lemma_visit_sorted(o, s6, row, column, row + 1, column);
    let s8 = o.visit(s7, row + 1, column + 1);
    lemma_visit_sorted(o, s7, row, column, row + 1, column + 1);
    assert(s8 == o.neighbor_cells(index));
    assert forall|j: int, k: int| 0 <= j < s8.len() && 0 <= k < s8.len() && j != k implies s8[j] != s8[k] by {
        if j < k {
            assert(block_key(row, column, s8[j]) < block_key(row, column, s8[k]));
        } else {
            assert(block_key(row, column, s8[k]) < block_key(row, column, s8[j]));
        }
    }
}

} // verus!
