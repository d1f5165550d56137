//! The game as a player drives it: what each key and each click does to the
//! board, when the next generation is due, and where a cell lies on the
//! screen. Nothing here draws or waits; the caller does, and hands in what
//! happened.
use vstd::prelude::*;
use crate::cell::{Cell, plane};
use crate::grid::LifeBoard;
use crate::rules::{Point, next_generation_within, with_cell};

verus! {

/// A key that was pressed.
#[derive(Clone, Copy, Debug, PartialEq, Eq, Structural)]
pub enum Key {
    Space,
    C,
    S,
    Escape,
    Other,
}

/// A mouse button that was pressed.
#[derive(Clone, Copy, Debug, PartialEq, Eq, Structural)]
pub enum Button {
    Left,
    Right,
    Other,
}

/// Something that happened at the window.
#[derive(Clone, Copy, Debug, PartialEq, Eq, Structural)]
pub enum Input {
    KeyDown(Key),
    MouseDown(Button, i32, i32),
    Quit,
    Other,
}

/// The number of values of a 64-bit integer.
pub open spec fn wrap() -> int {
    0x1_0000_0000_0000_0000
}

/// The row or column of cells under a pixel coordinate, for cells `size`
/// pixels across. A coordinate left of or above the window is read as the
/// large unsigned number that its 64 bits spell, and a quotient beyond the
/// range of `i64` as the negative number that its bits spell.
pub open spec fn cells_across(pixel: int, size: int) -> int {
    let unsigned = if pixel >= 0 {
        pixel
    } else {
        pixel + wrap()
    };
    let quotient = unsigned / size;
    if quotient > i64::MAX {
        quotient - wrap()
    } else {
        quotient
    }
}

/// Computes the row or column of cells under a pixel coordinate.
pub fn pixel_to_cell(pixel: i32, size: u64) -> (index: i64)
    requires
        size > 0,
    ensures
        index == cells_across(pixel as int, size as int),
{
    let unsigned: u64 = if pixel >= 0 {
        pixel as u64
    } else {
        (pixel as i128 + 0x1_0000_0000_0000_0000i128) as u64
    };
    let quotient: u64 = unsigned / size;
    if quotient > i64::MAX as u64 {
        (quotient as i128 - 0x1_0000_0000_0000_0000i128) as i64
    } else {
        quotient as i64
    }
}

proof fn lemma_product_bound(a: int, b: int)
    requires
        i64::MIN <= a <= i64::MAX,
        0 <= b <= u32::MAX,
    ensures
        -0x8000_0000_0000_0000_0000_0000 <= a * b <= 0x8000_0000_0000_0000_0000_0000,
{
    assert(-0x8000_0000_0000_0000 * 0x1_0000_0000 <= a * b <= 0x8000_0000_0000_0000
        * 0x1_0000_0000) by (nonlinear_arith)
        requires
            -0x8000_0000_0000_0000 <= a <= 0x8000_0000_0000_0000,
            0 <= b <= 0x1_0000_0000,
    ;
}

/// The corner of a cell's rectangle on a screen where cells are
/// `cell_width` by `cell_height` pixels; `None` where a coordinate of the
/// corner is beyond what the screen's coordinates can hold.
pub fn cell_corner(cell: Cell, cell_width: u32, cell_height: u32) -> (corner: Option<(i32, i32)>)
    ensures
        corner is Some <==> (i32::MIN <= cell.x * cell_width <= i32::MAX && i32::MIN <= cell.y
            * cell_height <= i32::MAX),
        corner matches Some(c) ==> c.0 == cell.x * cell_width && c.1 == cell.y * cell_height,
{
    proof {
        lemma_product_bound(cell.x as int, cell_width as int);
        lemma_product_bound(cell.y as int, cell_height as int);
    }
    let x: i128 = (cell.x as i128) * (cell_width as i128);
    let y: i128 = (cell.y as i128) * (cell_height as i128);
    if i32::MIN as i128 <= x && x <= i32::MAX as i128 && i32::MIN as i128 <= y && y
        <= i32::MAX as i128 {
        Some((x as i32, y as i32))
    } else {
        None
    }
}

/// How long to wait at the end of a frame that took `elapsed_time`
/// milliseconds, to show `fps` frames in a second; `None` where the frame
/// has used up its time.
pub fn frame_delay(elapsed_time: u32, fps: u32) -> (delay: Option<u32>)
    requires
        fps > 0,
    ensures
        delay == (if elapsed_time < 1000int / (fps as int) {
            Some((1000int / (fps as int) - elapsed_time) as u32)
        } else {
            None
        }),
{
    let ms_per_frame: u32 = 1000 / fps;
    if elapsed_time < ms_per_frame {
        Some(ms_per_frame - elapsed_time)
    } else {
        None
    }
}

/// A board with the state of the player's session around it.
pub struct Game {
    board: LifeBoard,
    running: bool,
    simulate: bool,
    last_step_time: u32,
    cell_width: u64,
    cell_height: u64,
}

impl Game {
    /// The board.
    pub closed spec fn board(&self) -> LifeBoard {
        self.board
    }

    /// Whether the session goes on.
    pub closed spec fn spec_is_running(&self) -> bool {
        self.running
    }

    /// Whether generations follow one another by themselves.
    pub closed spec fn spec_is_simulating(&self) -> bool {
        self.simulate
    }

    /// The time of the last generation that the clock brought.
    pub closed spec fn spec_last_step_time(&self) -> u32 {
        self.last_step_time
    }

    /// The width and height of a cell on the screen, in pixels.
    pub closed spec fn cell_size(&self) -> (u64, u64) {
        (self.cell_width, self.cell_height)
    }

    /// The board is consistent and cells have a size on the screen.
    pub open spec fn wf(&self) -> bool {
        &&& self.board().wf()
        &&& self.cell_size().0 > 0
        &&& self.cell_size().1 > 0
    }

    /// The point of the board under the pixel `(x, y)`.
    pub open spec fn point_at(&self, x: int, y: int) -> Point {
        (cells_across(x, self.cell_size().0 as int), cells_across(y, self.cell_size().1 as int))
    }

    /// A session that starts at time `now` with an empty board, not yet
    /// simulating.
    pub fn new(now: u32, cell_width: u64, cell_height: u64) -> (game: Self)
        requires
            cell_width > 0,
            cell_height > 0,
        ensures
            game.wf(),
            game.board()@ == Set::<Point>::empty(),
            game.is_running(),
            !game.is_simulating(),
            game.last_step_time() == now,
            game.cell_size() == (cell_width, cell_height),
    {
        Game {
            board: LifeBoard::new(),
            running: true,
            simulate: false,
            last_step_time: now,
            cell_width: cell_width,
            cell_height: cell_height,
        }
    }

    /// Whether the session goes on.
    #[verifier::when_used_as_spec(spec_is_running)]
    pub fn is_running(&self) -> (running: bool)
        ensures
            running == self.spec_is_running(),
    {
        self.running
    }

    /// Whether generations follow one another by themselves.
    #[verifier::when_used_as_spec(spec_is_simulating)]
    pub fn is_simulating(&self) -> (simulate: bool)
        ensures
            simulate == self.spec_is_simulating(),
    {
        self.simulate
    }

    /// The time of the last generation that the clock brought.
    #[verifier::when_used_as_spec(spec_last_step_time)]
    pub fn last_step_time(&self) -> (time: u32)
        ensures
            time == self.spec_last_step_time(),
    {
        self.last_step_time
    }

    /// The live cells, each once, in no particular order.
    pub fn live_cells(&self) -> (cells: Vec<Cell>)
        ensures
            cells@.no_duplicates(),
            forall|p: Point|
                self.board()@.contains(p) <==> #[trigger] crate::cell::listed(
                    cells@,
                    cells@.len() as int,
                    p,
                ),
    {
        self.board.iter_live_cells()
    }

    /// Takes in one event: space starts and stops the simulation, `C`
    /// clears the board, `S` advances it by one generation, escape and a
    /// request to quit end the session, the left button brings the cell
    /// under the pointer to life, and the right button kills it.
    pub fn handle(&mut self, input: Input)
        requires
            old(self).wf(),
        ensures
            final(self).wf(),
            final(self).cell_size() == old(self).cell_size(),
            final(self).last_step_time() == old(self).last_step_time(),
            final(self).is_simulating() == (if input == Input::KeyDown(Key::Space) {
                !old(self).is_simulating()
            } else {
                old(self).is_simulating()
            }),
            final(self).is_running() == (old(self).is_running() && input != Input::KeyDown(
                Key::Escape,
            ) && input != Input::Quit),
            final(self).board()@ == (match input {
                Input::KeyDown(Key::C) => Set::<Point>::empty(),
                Input::KeyDown(Key::S) => next_generation_within(old(self).board()@, plane()),
                Input::MouseDown(Button::Left, x, y) => with_cell(
                    old(self).board()@,
                    old(self).point_at(x as int, y as int),
                    true,
                ),
                Input::MouseDown(Button::Right, x, y) => with_cell(
                    old(self).board()@,
                    old(self).point_at(x as int, y as int),
                    false,
                ),
                _ => old(self).board()@,
            }),
    {
        match input {
            Input::KeyDown(key) => {
                match key {
                    Key::Space => {
                        self.simulate = !self.simulate;
                    },
                    Key::C => {
                        self.board.clear();
                    },
                    Key::S => {
                        self.board.step();
                    },
                    Key::Escape => {
                        self.running = false;
                    },
                    Key::Other => {},
                }
            },
            Input::MouseDown(button, x, y) => {
                match button {
                    Button::Left => {
                        let cx = pixel_to_cell(x, self.cell_width);
                        let cy = pixel_to_cell(y, self.cell_height);
                        self.board.set(cx, cy, true);
                    },
                    Button::Right => {
                        let cx = pixel_to_cell(x, self.cell_width);
                        let cy = pixel_to_cell(y, self.cell_height);
                        self.board.set(cx, cy, false);
                    },
                    Button::Other => {},
                }
            },
            Input::Quit => {
                self.running = false;
            },
            Input::Other => {},
        }
    }

    /// Whether the clock asks for the next generation at time `now`: the
    /// simulation is on and `step_time_ms` milliseconds have gone by since
    /// the last one.
    pub fn step_is_due(&self, now: u32, step_time_ms: u32) -> (due: bool)
        requires
            now >= self.last_step_time(),
        ensures
            due == (self.is_simulating() && now - self.last_step_time() >= step_time_ms),
    {
        self.simulate && now - self.last_step_time >= step_time_ms
    }

    /// Advances the board by the generation that the clock asked for.
    pub fn step(&mut self)
        requires
            old(self).wf(),
        ensures
            final(self).wf(),
            final(self).cell_size() == old(self).cell_size(),
            final(self).last_step_time() == old(self).last_step_time(),
            final(self).is_simulating() == old(self).is_simulating(),
            final(self).is_running() == old(self).is_running(),
            final(self).board()@ == next_generation_within(old(self).board()@, plane()),
    {
        self.board.step();
    }

    /// Notes the time at which that generation was done.
    pub fn mark_stepped(&mut self, now: u32)
        ensures
            final(self).last_step_time() == now,
            final(self).board() == old(self).board(),
            final(self).cell_size() == old(self).cell_size(),
            final(self).is_simulating() == old(self).is_simulating(),
            final(self).is_running() == old(self).is_running(),
    {
        self.last_step_time = now;
    }
}

} // verus!
