//! Screen-state machine, renderer mode toggle, victory test and FPS
//! accounting: the per-tick decisions of the game loop, separated from the
//! host that polls the window and sleeps between frames.

use vstd::prelude::*;
use crate::player::Player;

verus! {

/// Which renderer the game is showing: the top-down debug view or the
/// raycast projection.
#[derive(PartialEq, Eq, Structural, Clone, Copy, Debug)]
pub enum Mode {
    TwoD,
    ThreeD,
}

/// The screen the loop is on: the start menu, the game itself, or the
/// victory screen.
#[derive(PartialEq, Eq, Structural, Clone, Copy, Debug)]
pub enum Screen {
    Menu,
    Game,
    Win,
}

pub open spec fn spec_toggle(m: Mode) -> Mode {
    match m {
        Mode::TwoD => Mode::ThreeD,
        Mode::ThreeD => Mode::TwoD,
    }
}

/// Flips the renderer mode, as one press of the toggle key does.
pub fn toggle_mode(m: Mode) -> (r: Mode)
    ensures
        r == spec_toggle(m),
{
    match m {
        Mode::TwoD => Mode::ThreeD,
        Mode::ThreeD => Mode::TwoD,
    }
}

/// Two presses of the toggle key return to the prior renderer.
pub proof fn lemma_mode_toggle_period_two(m: Mode)
    ensures
        spec_toggle(spec_toggle(m)) == m,
{
}

pub open spec fn spec_next_screen(s: Screen, enter_down: bool, won: bool) -> Screen {
    match s {
        Screen::Menu => if enter_down {
            Screen::Game
        } else {
            Screen::Menu
        },
        Screen::Game => if won {
            Screen::Win
        } else {
            Screen::Game
        },
        Screen::Win => Screen::Win,
    }
}

/// One tick of the screen machine: the menu starts the game when enter is
/// down, the game moves to the victory screen exactly when the victory test
/// holds, and the victory screen only ever shows itself (the host's escape
/// key ends the loop from any screen).
pub fn next_screen(s: Screen, enter_down: bool, won: bool) -> (r: Screen)
    ensures
        r == spec_next_screen(s, enter_down, won),
{
    match s {
        Screen::Menu => if enter_down {
            Screen::Game
        } else {
            Screen::Menu
        },
        Screen::Game => if won {
            Screen::Win
        } else {
            Screen::Game
        },
        Screen::Win => Screen::Win,
    }
}

/// The maze cell nearest a fixed-point world coordinate: round to the
/// nearest cell index, saturating below zero.
pub open spec fn spec_rounded_cell(v: int, block: int) -> int {
    let n = v + block * 65536 / 2;
    if n < 0 {
        0
    } else {
        n / (block * 65536)
    }
}

/// Rounds a fixed-point world coordinate to its nearest maze cell index.
pub fn rounded_cell(v: i64, block_size: usize) -> (c: usize)
    requires
        1 <= block_size <= 4096,
        -0x4000_0000_0000 <= v <= 0x4000_0000_0000,
    ensures
        c == spec_rounded_cell(v as int, block_size as int),
{
    let half: i64 = (block_size as i64) * 32768;
    let n: i64 = v + half;
    if n < 0 {
        0
    } else {
        let d: u64 = (block_size as u64) * 65536;
        assert((n as u64) / d < 0x8000_0000) by (nonlinear_arith)
            requires
                n as u64 <= 0x4000_0800_0000,
                65536 <= d,
        ;
        ((n as u64) / d) as usize
    }
}

/// The victory test: the player has won exactly when the player's rounded
/// cell equals the goal's rounded cell, on both axes.
pub fn has_won(player: &Player, goal_x: i64, goal_y: i64, block_size: usize) -> (r: bool)
    requires
        1 <= block_size <= 4096,
        -0x4000_0000_0000 <= player.x <= 0x4000_0000_0000,
        -0x4000_0000_0000 <= player.y <= 0x4000_0000_0000,
        -0x4000_0000_0000 <= goal_x <= 0x4000_0000_0000,
        -0x4000_0000_0000 <= goal_y <= 0x4000_0000_0000,
    ensures
        r == (spec_rounded_cell(player.x as int, block_size as int) == spec_rounded_cell(
            goal_x as int,
            block_size as int,
        ) && spec_rounded_cell(player.y as int, block_size as int) == spec_rounded_cell(
            goal_y as int,
            block_size as int,
        )),
{
    let px = rounded_cell(player.x, block_size);
    let py = rounded_cell(player.y, block_size);
    let gx = rounded_cell(goal_x, block_size);
    let gy = rounded_cell(goal_y, block_size);
    px == gx && py == gy
}

/// The frames-per-second value reported for `frames` frames over
/// `elapsed_ms` milliseconds: frames per second, rounded to nearest.
pub open spec fn spec_fps(frames: int, elapsed_ms: int) -> int {
    (2000 * frames + elapsed_ms) / (2 * elapsed_ms)
}

/// Counts frames and, once a second of wall time has passed, reports the
/// frame rate and starts a fresh interval.
pub struct FpsCounter {
    pub frame_count: u64,
    pub last_time_ms: u64,
}

impl FpsCounter {
    pub fn new(now_ms: u64) -> (c: FpsCounter)
        ensures
            c.frame_count == 0,
            c.last_time_ms == now_ms,
    {
        FpsCounter { frame_count: 0, last_time_ms: now_ms }
    }

    /// Counts one frame at time `now_ms`. When at least a second has passed
    /// since the interval began, returns the rounded frame rate of the
    /// interval and resets both the counter and the interval start;
    /// otherwise returns nothing and only counts.
    pub fn tick(&mut self, now_ms: u64) -> (fps: Option<u64>)
        requires
            old(self).last_time_ms <= now_ms,
            old(self).frame_count < 0x1_0000_0000_0000,
        ensures
            ({
                let elapsed = now_ms - old(self).last_time_ms;
                if elapsed >= 1000 {
                    &&& fps == Some(
                        spec_fps(old(self).frame_count + 1, elapsed) as u64,
                    )
                    &&& final(self).frame_count == 0
                    &&& final(self).last_time_ms == now_ms
                } else {
                    &&& fps is None
                    &&& final(self).frame_count == old(self).frame_count + 1
                    &&& final(self).last_time_ms == old(self).last_time_ms
                }
            }),
    {
        self.frame_count = self.frame_count + 1;
        let elapsed: u64 = now_ms - self.last_time_ms;
        if elapsed >= 1000 {
            let ghost fc: int = self.frame_count as int;
            let num: u128 = 2000u128 * (self.frame_count as u128) + (elapsed as u128);
            let den: u128 = 2u128 * (elapsed as u128);
            let f: u128 = num / den;
            assert(f <= u64::MAX) by (nonlinear_arith)
                requires
                    f == num / den,
                    num == 2000 * fc + elapsed,
                    den == 2 * elapsed,
                    1000 <= elapsed,
                    fc <= 0x1_0000_0000_0000,
            ;
            self.frame_count = 0;
            self.last_time_ms = now_ms;
            Some(f as u64)
        } else {
            None
        }
    }
}

} // verus!
