//! The board game that accompanies an installation: its settings, themes,
//! positions and directions.

use vstd::prelude::*;

verus! {

/// The look of the game.
#[derive(Debug, Clone, Copy, PartialEq, Eq, Structural)]
pub enum Theme {
    RetroGreen,
    AmberTerminal,
    Matrix,
    MonochromeMinimal,
    ErrorPunk,
}

/// The settings of the game.
#[derive(Debug, Clone, Copy)]
pub struct SnakeConfig {
    pub width: usize,
    pub height: usize,
    pub fps: u32,
    pub theme: Theme,
    pub sound: bool,
    pub show_debug: bool,
}

/// A cell of the board.
#[derive(Debug, Clone, Copy, PartialEq, Eq, Structural, Hash)]
pub struct Position {
    pub x: usize,
    pub y: usize,
}

/// A direction of movement.
#[derive(Debug, Clone, Copy, PartialEq, Eq, Structural)]
pub enum Direction {
    Up,
    Down,
    Left,
    Right,
}

/// What has become of a pellet.
#[derive(Debug, Clone, Copy, PartialEq, Eq, Structural)]
pub enum PelletState {
    Queued,
    Downloading,
    Building,
    Ready,
    Eaten,
    Failed,
}

/// The state of the game.
#[derive(Debug, Clone, Copy, PartialEq, Eq, Structural)]
pub enum GameState {
    Initializing,
    Playing,
    Error { frames_remaining: u32 },
    Won,
    Lost,
}

impl Default for SnakeConfig {
    fn default() -> (r: SnakeConfig)
        ensures
            r == (SnakeConfig {
                width: 60,
                height: 15,
                fps: 12,
                theme: Theme::RetroGreen,
                sound: false,
                show_debug: false,
            }),
    {
        SnakeConfig {
            width: 60,
            height: 15,
            fps: 12,
            theme: Theme::RetroGreen,
            sound: false,
            show_debug: false,
        }
    }
}

/// The escape sequence that sets the colour of the head.
pub open spec fn head_color_spec(t: Theme) -> Seq<char> {
    match t {
        Theme::RetroGreen => "\x1b[92m"@,
        Theme::AmberTerminal => "\x1b[33m"@,
        Theme::Matrix => "\x1b[32m"@,
        Theme::MonochromeMinimal => "\x1b[37m"@,
        Theme::ErrorPunk => "\x1b[91m"@,
    }
}

/// The escape sequence that sets the colour of the body.
pub open spec fn body_color_spec(t: Theme) -> Seq<char> {
    match t {
        Theme::RetroGreen => "\x1b[32m"@,
        Theme::AmberTerminal => "\x1b[33m"@,
        Theme::Matrix => "\x1b[32m"@,
        Theme::MonochromeMinimal => "\x1b[37m"@,
        Theme::ErrorPunk => "\x1b[31m"@,
    }
}

impl Theme {
    /// The escape sequence that sets the colour of the head.
    pub fn head_color(&self) -> (r: &'static str)
        ensures
            r@ == head_color_spec(*self),
    {
        match self {
            Theme::RetroGreen => "\x1b[92m",
            Theme::AmberTerminal => "\x1b[33m",
            Theme::Matrix => "\x1b[32m",
            Theme::MonochromeMinimal => "\x1b[37m",
            Theme::ErrorPunk => "\x1b[91m",
        }
    }

    /// The escape sequence that sets the colour of the body.
    pub fn body_color(&self) -> (r: &'static str)
        ensures
            r@ == body_color_spec(*self),
    {
        match self {
            Theme::RetroGreen => "\x1b[32m",
            Theme::AmberTerminal => "\x1b[33m",
            Theme::Matrix => "\x1b[32m",
            Theme::MonochromeMinimal => "\x1b[37m",
            Theme::ErrorPunk => "\x1b[31m",
        }
    }

    /// The character that shows a pellet: a disc, a diamond or a star.
    pub fn pellet_char(&self) -> (r: char)
        ensures
            r == (match *self {
                Theme::RetroGreen => '\u{25cf}',
                Theme::AmberTerminal => '\u{25c6}',
                Theme::Matrix => '\u{25cf}',
                Theme::MonochromeMinimal => '*',
                Theme::ErrorPunk => '\u{25c6}',
            }),
    {
        match self {
            Theme::RetroGreen => '\u{25cf}',
            Theme::AmberTerminal => '\u{25c6}',
            Theme::Matrix => '\u{25cf}',
            Theme::MonochromeMinimal => '*',
            Theme::ErrorPunk => '\u{25c6}',
        }
    }

    /// The character that shows the body: a full block.
    pub fn body_char(&self) -> (r: char)
        ensures
            r == '\u{2588}',
    {
        '\u{2588}'
    }
}

/// The smaller of two numbers.
pub open spec fn least(a: int, b: int) -> int {
    if a < b {
        a
    } else {
        b
    }
}

/// The cell one step from `pos` in the direction `d` on a board of the
/// given size, where the step stops at the border: up and left not below 0,
/// down and right not beyond the last row and column.
pub open spec fn step(d: Direction, pos: Position, width: int, height: int) -> (int, int) {
    match d {
        Direction::Up => (pos.x as int, if pos.y > 0 {
            pos.y - 1
        } else {
            0
        }),
        Direction::Down => (pos.x as int, least(pos.y + 1, height - 1)),
        Direction::Left => (if pos.x > 0 {
            pos.x - 1
        } else {
            0
        }, pos.y as int),
        Direction::Right => (least(pos.x + 1, width - 1), pos.y as int),
    }
}

impl Direction {
    /// The cell one step from `pos` on a board of `width` by `height`
    /// cells, if that cell is on the board. A board without cells has none.
    pub fn apply(&self, pos: Position, width: usize, height: usize) -> (r: Option<Position>)
        ensures
            r == (if 0 <= step(*self, pos, width as int, height as int).0 < width && 0 <= step(
                *self,
                pos,
                width as int,
                height as int,
            ).1 < height {
                Some(
                    Position {
                        x: step(*self, pos, width as int, height as int).0 as usize,
                        y: step(*self, pos, width as int, height as int).1 as usize,
                    },
                )
            } else {
                None
            }),
    {
        if width == 0 || height == 0 {
            return None;
        }
        let (new_x, new_y) = match self {
            Direction::Up => (pos.x, if pos.y > 0 {
                pos.y - 1
            } else {
                0
            }),
            Direction::Down => (pos.x, if pos.y < height - 1 {
                pos.y + 1
            } else {
                height - 1
            }),
            Direction::Left => (if pos.x > 0 {
                pos.x - 1
            } else {
                0
            }, pos.y),
            Direction::Right => (if pos.x < width - 1 {
                pos.x + 1
            } else {
                width - 1
            }, pos.y),
        };
        if new_x < width && new_y < height {
            Some(Position { x: new_x, y: new_y })
        } else {
            None
        }
    }

    /// The arrow that shows the direction.
    pub fn symbol(&self) -> (r: char)
        ensures
            r == (match *self {
                Direction::Up => '\u{25b2}',
                Direction::Down => '\u{25bc}',
                Direction::Left => '\u{25c4}',
                Direction::Right => '\u{25ba}',
            }),
    {
        match self {
            Direction::Up => '\u{25b2}',
            Direction::Down => '\u{25bc}',
            Direction::Left => '\u{25c4}',
            Direction::Right => '\u{25ba}',
        }
    }
}

} // verus!
