use vstd::prelude::*;
use crate::options::{Level, Options};
use crate::rect::Rect;

verus! {

pub const GRID_LEFT: i32 = 15;
pub const GRID_TOP: i32 = 81;
pub const TILE_SIDE: u32 = 20;
pub const DIGIT_PANEL_WIDTH: u32 = 65;
pub const DIGIT_PANEL_HEIGHT: u32 = 37;
pub const TIMER_TOP: u32 = 21;
pub const FLAG_TOP: u32 = 21;
pub const FACE_TOP: u32 = 19;
pub const FACE_WIDTH: u32 = 42;
pub const FACE_HEIGHT: u32 = 42;
pub const DIGIT_WIDTH: u32 = 19;
pub const DIGIT_HEIGHT: u32 = 33;
/// Gap between the digits of a panel, and between a digit and the panel's side.
pub const DIGIT_PANEL_HORZ_MARGIN: u32 = (DIGIT_PANEL_WIDTH - (3 * DIGIT_WIDTH)) / 4;
/// Gap between a digit and the panel's top or bottom.
pub const DIGIT_PANEL_VERT_MARGIN: u32 = (DIGIT_PANEL_HEIGHT - DIGIT_HEIGHT) / 2;

/// The measures that vary with the difficulty tier.
#[derive(Debug, Clone, Copy, PartialEq, Eq, Structural)]
pub struct LayoutConstants {
    pub height: u32,
    pub width: u32,
    pub panel_offset: u32,
}

pub open spec fn constants_for(level: Level) -> LayoutConstants {
    match level {
        Level::Beginner => LayoutConstants { height: 276, width: 210, panel_offset: 16 },
        Level::Intermediate => LayoutConstants { height: 416, width: 350, panel_offset: 20 },
        Level::Expert => LayoutConstants { height: 416, width: 630, panel_offset: 20 },
    }
}

fn layout_constants(level: Level) -> (r: LayoutConstants)
    ensures
        r == constants_for(level),
{
    match level {
        Level::Beginner => LayoutConstants { height: 276, width: 210, panel_offset: 16 },
        Level::Intermediate => LayoutConstants { height: 416, width: 350, panel_offset: 20 },
        Level::Expert => LayoutConstants { height: 416, width: 630, panel_offset: 20 },
    }
}

/// Where everything is drawn, in pixels, for one board.
#[derive(Debug, Clone, Copy, PartialEq, Eq, Structural)]
pub struct Layout {
    pub options: Options,
    pub constants: LayoutConstants,
}

impl Layout {
    /// The options are a valid board, the window has the tier's measures, and
    /// the grid fits in the window's coordinates.
    pub open spec fn wf(self) -> bool {
        &&& self.options.wf()
        &&& self.constants == constants_for(self.options.level)
        &&& self.options.columns * TILE_SIDE + GRID_LEFT <= i32::MAX
        &&& self.options.rows * TILE_SIDE + GRID_TOP <= i32::MAX
    }

    pub open spec fn spec_grid(self) -> Rect {
        Rect {
            x: GRID_LEFT,
            y: GRID_TOP,
            width: (self.options.columns * TILE_SIDE) as u32,
            height: (self.options.rows * TILE_SIDE) as u32,
        }
    }

    /// The square of the cell at `index` inside `bounding_box`.
    pub open spec fn spec_tile(self, bounding_box: Rect, index: int) -> Rect {
        Rect {
            x: (bounding_box.x + self.options.spec_column(index) * TILE_SIDE) as i32,
            y: (bounding_box.y + self.options.spec_row(index) * TILE_SIDE) as i32,
            width: TILE_SIDE,
            height: TILE_SIDE,
        }
    }

    pub open spec fn timer_panel_left(self) -> int {
        self.constants.width - self.constants.panel_offset - DIGIT_PANEL_WIDTH
    }

    /// The digit at `position` (0 for hundreds, 2 for ones) of a panel whose
    /// left side is at `panel_left`.
    pub open spec fn spec_digit(panel_left: int, top: int, position: int) -> Rect {
        Rect {
            x: (panel_left + DIGIT_PANEL_HORZ_MARGIN * (position + 1) + DIGIT_WIDTH * position) as i32,
            y: (top + DIGIT_PANEL_VERT_MARGIN) as i32,
            width: DIGIT_WIDTH,
            height: DIGIT_HEIGHT,
        }
    }

    /// The layout of a board of `options`, with its tier's window measures.
    pub fn new(options: Options) -> (r: Self)
        requires
            options.wf(),
            options.columns * TILE_SIDE + GRID_LEFT <= i32::MAX,
            options.rows * TILE_SIDE + GRID_TOP <= i32::MAX,
        ensures
            r.options == options,
            r.wf(),
    {
        Layout { options, constants: layout_constants(options.level) }
    }

    /// The layout of a difficulty tier.
    pub fn for_level(level: Level) -> (r: Self)
        ensures
            r.options == Options::spec_for(level),
            r.wf(),
    {
        Layout::new(Options::for_level(level))
    }

    /// Side of a cell's square.
    pub fn tile_side() -> (r: u32)
        ensures
            r == TILE_SIDE,
    {
        TILE_SIDE
    }

    /// Height of the window.
    pub fn height(&self) -> (r: u32)
        ensures
            r == self.constants.height,
    {
        self.constants.height
    }

    /// Width of the window.
    pub fn width(&self) -> (r: u32)
        ensures
            r == self.constants.width,
    {
        self.constants.width
    }

    /// The rectangle that holds the cells.
    pub fn grid(&self) -> (r: Rect)
        requires
            self.wf(),
        ensures
            r == self.spec_grid(),
            r.edges_fit(),
    {
        let width = self.options.columns as u32 * TILE_SIDE;
        let height = self.options.rows as u32 * TILE_SIDE;
        Rect::new(GRID_LEFT, GRID_TOP, width, height)
    }

    /// The square of the cell at `index` when the cells start at
    /// `bounding_box`'s corner.
    pub fn tile(&self, bounding_box: Rect, index: i16) -> (r: Rect)
        requires
            self.wf(),
            0 <= index < self.options.tile_count(),
            bounding_box.x + self.options.columns * TILE_SIDE <= i32::MAX,
            bounding_box.y + self.options.rows * TILE_SIDE <= i32::MAX,
        ensures
            r == self.spec_tile(bounding_box, index as int),
    {
        let (row, column) = self.options.row_column(index as u16);
        proof {
            assert(column * TILE_SIDE < self.options.columns * TILE_SIDE) by (nonlinear_arith)
                requires column < self.options.columns, column >= 0;
            assert(row * TILE_SIDE < self.options.rows * TILE_SIDE) by (nonlinear_arith)
                requires row < self.options.rows, row >= 0;
        }
        let left = bounding_box.left() + (column as i32) * (TILE_SIDE as i32);
        let top = bounding_box.top() + (row as i32) * (TILE_SIDE as i32);
        Rect::new(left, top, TILE_SIDE, TILE_SIDE)
    }

    /// The square of the cell at `index` on the board.
    pub fn grid_tile(&self, index: i16) -> (r: Rect)
        requires
            self.wf(),
            0 <= index < self.options.tile_count(),
        ensures
            r == self.spec_tile(self.spec_grid(), index as int),
            r.edges_fit(),
    {
        let bounding_box = self.grid();
        let r = self.tile(bounding_box, index);
        proof {
            let o = self.options;
            lemma_tile_edges(o, index as int);
        }
        r
    }

    /// The panel of the elapsed-time counter.
    pub fn timer_digit_panel(&self) -> (r: Rect)
        requires
            self.wf(),
        ensures
            r == Layout::spec_panel(self.timer_panel_left(), TIMER_TOP as int),
    {
        let left = self.width() - self.digit_panel_offset() - DIGIT_PANEL_WIDTH;
        self.digit_panel(left, TIMER_TOP)
    }

    /// The panel of the flag counter.
    pub fn flag_digit_panel(&self) -> (r: Rect)
        requires
            self.wf(),
        ensures
            r == Layout::spec_panel(self.constants.panel_offset as int, FLAG_TOP as int),
    {
        let left = self.digit_panel_offset();
        self.digit_panel(left, FLAG_TOP)
    }

    /// Distance of the digit panels from the window's sides.
    pub fn digit_panel_offset(&self) -> (r: u32)
        ensures
            r == self.constants.panel_offset,
    {
        self.constants.panel_offset
    }

    /// Digit `position` (0 for hundreds, 2 for ones) of the elapsed-time panel.
    pub fn timer_digit(&self, position: u32) -> (r: Rect)
        requires
            self.wf(),
            position < 3,
        ensures
            r == Layout::spec_digit(self.timer_panel_left(), TIMER_TOP as int, position as int),
    {
        let mut left = self.width() - self.digit_panel_offset() - DIGIT_PANEL_WIDTH;
        assert(DIGIT_PANEL_HORZ_MARGIN == 2 && DIGIT_PANEL_VERT_MARGIN == 2);
        left += DIGIT_PANEL_HORZ_MARGIN * (position + 1) + DIGIT_WIDTH * position;
        let top = TIMER_TOP + DIGIT_PANEL_VERT_MARGIN;
        Rect::new(left as i32, top as i32, DIGIT_WIDTH, DIGIT_HEIGHT)
    }

    /// Digit `position` (0 for hundreds, 2 for ones) of the flag panel.
    pub fn flag_digit(&self, position: u32) -> (r: Rect)
        requires
            self.wf(),
            position < 3,
        ensures
            r == Layout::spec_digit(
                self.constants.panel_offset as int,
                FLAG_TOP as int,
                position as int,
            ),
    {
        let mut left = self.digit_panel_offset();
        assert(DIGIT_PANEL_HORZ_MARGIN == 2 && DIGIT_PANEL_VERT_MARGIN == 2);
        left += DIGIT_PANEL_HORZ_MARGIN * (position + 1) + DIGIT_WIDTH * position;
        let top = FLAG_TOP + DIGIT_PANEL_VERT_MARGIN;
        Rect::new(left as i32, top as i32, DIGIT_WIDTH, DIGIT_HEIGHT)
    }

    /// The status indicator, centred at the top of the window.
    pub fn face(&self) -> (r: Rect)
        requires
            self.wf(),
        ensures
            r == self.spec_face(),
    {
        let left = self.width() / 2 - FACE_WIDTH / 2;
        Rect::new(left as i32, FACE_TOP as i32, FACE_WIDTH, FACE_HEIGHT)
    }

    pub open spec fn spec_face(self) -> Rect {
        Rect {
            x: (self.constants.width / 2 - FACE_WIDTH / 2) as i32,
            y: FACE_TOP as i32,
            width: FACE_WIDTH,
            height: FACE_HEIGHT,
        }
    }

    pub open spec fn spec_panel(left: int, top: int) -> Rect {
        Rect {
            x: left as i32,
            y: top as i32,
            width: DIGIT_PANEL_WIDTH,
            height: DIGIT_PANEL_HEIGHT,
        }
    }

    fn digit_panel(&self, left: u32, top: u32) -> (r: Rect)
        requires
            left <= i32::MAX,
            top <= i32::MAX,
        ensures
            r == Layout::spec_panel(left as int, top as int),
    {
        Rect::new(left as i32, top as i32, DIGIT_PANEL_WIDTH, DIGIT_PANEL_HEIGHT)
    }
}

proof fn lemma_tile_edges(o: Options, index: int)
    requires
        o.wf(),
        0 <= index < o.tile_count(),
        o.columns * TILE_SIDE + GRID_LEFT <= i32::MAX,
        o.rows * TILE_SIDE + GRID_TOP <= i32::MAX,
    ensures
        GRID_LEFT + o.spec_column(index) * TILE_SIDE + TILE_SIDE <= i32::MAX,
        GRID_TOP + o.spec_row(index) * TILE_SIDE + TILE_SIDE <= i32::MAX,
{
    crate::options::lemma_row_column(o, index);
    let c = o.spec_column(index);
    let r = o.spec_row(index);
    assert(c * TILE_SIDE + TILE_SIDE <= o.columns * TILE_SIDE) by (nonlinear_arith)
        requires c < o.columns, c >= 0;
    assert(r * TILE_SIDE + TILE_SIDE <= o.rows * TILE_SIDE) by (nonlinear_arith)
        requires r < o.rows, r >= 0;
}

} // verus!
