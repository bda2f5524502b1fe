//! Session state around the simulation: pause/run flag, grid and help
//! overlays, simulation pacing, the command line being typed, and the active
//! cell selection.

use crate::coords::div_trunc;
use crate::engine::coords::Coords;
use crate::ui::selection::{distinct, max_x, max_y, min_x, min_y, translated, rot_ccw, rot_cw, Selection};
use vstd::prelude::*;

verus! {

pub const SIM_PERIOD_STEP: u64 = 33;

pub const SIM_PERIOD_MAX: u64 = 33;

pub const SIM_PERIOD_MIN: u64 = 330;

pub struct GameState {
    pub command: Option<String>,
    pub running: bool,
    pub selection: Selection,
    pub show_grid: bool,
    pub show_help: bool,
    pub sim_period_ms: u64,
}

impl Default for GameState {
    /// A paused session with the grid shown, nothing selected, and the
    /// fastest simulation pace.
    fn default() -> (r: Self)
        ensures
            r.command is None,
            !r.running,
            r.selection.coords@.len() == 0,
            r.show_grid,
            !r.show_help,
            r.sim_period_ms == 33,
    {
        Self {
            command: None,
            selection: Selection::default(),
            running: false,
            show_grid: true,
            show_help: false,
            sim_period_ms: 33,
        }
    }
}

impl GameState {
    /// Toggle the help overlay.
    pub fn help(&mut self)
        ensures
            *final(self) == (GameState { show_help: !old(self).show_help, ..*old(self) }),
    {
        self.show_help = !self.show_help;
    }

    /// Stop the simulation.
    pub fn pause(&mut self)
        ensures
            *final(self) == (GameState { running: false, ..*old(self) }),
    {
        self.running = false;
    }

    /// Start the simulation when stopped, stop it when running.
    pub fn toggle_running(&mut self)
        ensures
            *final(self) == (GameState { running: !old(self).running, ..*old(self) }),
    {
        self.running = !self.running;
    }

    /// Lengthen the period between steps, up to the slowest pace.
    pub fn sim_speed_decr(&mut self)
        requires
            old(self).sim_period_ms >= SIM_PERIOD_STEP,
        ensures
            *final(self) == (GameState {
                sim_period_ms: (if old(self).sim_period_ms - SIM_PERIOD_STEP < SIM_PERIOD_MIN {
                    (old(self).sim_period_ms - SIM_PERIOD_STEP) as u64
                } else {
                    SIM_PERIOD_MIN
                }),
                ..*old(self)
            }),
    {
        let lowered = self.sim_period_ms - SIM_PERIOD_STEP;
        self.sim_period_ms = if lowered < SIM_PERIOD_MIN {
            lowered
        } else {
            SIM_PERIOD_MIN
        };
    }

    /// Shorten the period between steps, down to the fastest pace.
    pub fn sim_speed_incr(&mut self)
        requires
            old(self).sim_period_ms >= SIM_PERIOD_STEP,
        ensures
            *final(self) == (GameState {
                sim_period_ms: (if old(self).sim_period_ms - SIM_PERIOD_STEP > SIM_PERIOD_MAX {
                    (old(self).sim_period_ms - SIM_PERIOD_STEP) as u64
                } else {
                    SIM_PERIOD_MAX
                }),
                ..*old(self)
            }),
    {
        let lowered = self.sim_period_ms - SIM_PERIOD_STEP;
        self.sim_period_ms = if lowered > SIM_PERIOD_MAX {
            lowered
        } else {
            SIM_PERIOD_MAX
        };
    }

    /// Toggle the grid overlay.
    pub fn toggle_grid(&mut self)
        ensures
            *final(self) == (GameState { show_grid: !old(self).show_grid, ..*old(self) }),
    {
        self.show_grid = !self.show_grid;
    }

    /// Add the coordinates to the selection, or remove them when already
    /// selected.
    pub fn add_to_sel(&mut self, coords: Coords)
        requires
            distinct(old(self).selection.coords@),
        ensures
            distinct(final(self).selection.coords@),
            forall|c: Coords|
                final(self).selection.coords@.contains(c) <==> (old(
                    self,
                ).selection.coords@.contains(c) && c != coords || !old(
                    self,
                ).selection.coords@.contains(coords) && c == coords),
            final(self).command == old(self).command,
            final(self).running == old(self).running,
            final(self).show_grid == old(self).show_grid,
            final(self).show_help == old(self).show_help,
            final(self).sim_period_ms == old(self).sim_period_ms,
    {
        self.selection.toggle(coords);
    }

    /// Empty the selection.
    pub fn clear_sel(&mut self)
        ensures
            *final(self) == (GameState { selection: final(self).selection, ..*old(self) }),
            final(self).selection.coords@.len() == 0,
    {
        self.selection.clear();
    }

    /// Whether any cell is selected.
    pub fn has_sel(&self) -> (r: bool)
        ensures
            r == (self.selection.coords@.len() > 0),
    {
        !self.selection.is_empty()
    }

    /// The selected coordinates.
    pub fn iter_sel(&mut self) -> (r: &Vec<Coords>)
        ensures
            *final(self) == *old(self),
            r@ == final(self).selection.coords@,
    {
        self.selection.iter()
    }

    /// Move the selection down by the offset.
    pub fn mv_sel_down(&mut self, offset: i32)
        requires
            forall|j: int|
                0 <= j < old(self).selection.coords@.len() ==> i32::MIN <= #[trigger] old(
                    self,
                ).selection.coords@[j].y + offset <= i32::MAX,
        ensures
            *final(self) == (GameState { selection: final(self).selection, ..*old(self) }),
            final(self).selection.coords@ == translated(old(self).selection.coords@, 0, offset as int),
    {
        self.selection.move_by(Coords { x: 0, y: offset })
    }

    /// Move the selection left by the offset.
    pub fn mv_sel_left(&mut self, offset: i32)
        requires
            offset > i32::MIN,
            forall|j: int|
                0 <= j < old(self).selection.coords@.len() ==> i32::MIN <= #[trigger] old(
                    self,
                ).selection.coords@[j].x - offset <= i32::MAX,
        ensures
            *final(self) == (GameState { selection: final(self).selection, ..*old(self) }),
            final(self).selection.coords@ == translated(
                old(self).selection.coords@,
                -(offset as int),
                0,
            ),
    {
        self.selection.move_by(Coords { x: -offset, y: 0 })
    }

    /// Move the selection right by the offset.
    pub fn mv_sel_right(&mut self, offset: i32)
        requires
            forall|j: int|
                0 <= j < old(self).selection.coords@.len() ==> i32::MIN <= #[trigger] old(
                    self,
                ).selection.coords@[j].x + offset <= i32::MAX,
        ensures
            *final(self) == (GameState { selection: final(self).selection, ..*old(self) }),
            final(self).selection.coords@ == translated(old(self).selection.coords@, offset as int, 0),
    {
        self.selection.move_by(Coords { x: offset, y: 0 })
    }

    /// Move the selection up by the offset.
    pub fn mv_sel_up(&mut self, offset: i32)
        requires
            offset > i32::MIN,
            forall|j: int|
                0 <= j < old(self).selection.coords@.len() ==> i32::MIN <= #[trigger] old(
                    self,
                ).selection.coords@[j].y - offset <= i32::MAX,
        ensures
            *final(self) == (GameState { selection: final(self).selection, ..*old(self) }),
            final(self).selection.coords@ == translated(
                old(self).selection.coords@,
                0,
                -(offset as int),
            ),
    {
        self.selection.move_by(Coords { x: 0, y: -offset })
    }

    /// Move the selection so its bounding box is centered at the given
    /// coordinates.
    pub fn recenter_sel(&mut self, coords: Coords)
        requires
            old(self).selection.coords@.len() > 0 ==> {
                let s = old(self).selection.coords@;
                let cx = div_trunc(min_x(s) + max_x(s), 2);
                let cy = div_trunc(min_y(s) + max_y(s), 2);
                &&& i32::MIN <= coords.x - cx <= i32::MAX
                &&& i32::MIN <= coords.y - cy <= i32::MAX
                &&& forall|j: int|
                    0 <= j < s.len() ==> i32::MIN <= #[trigger] s[j].x + (coords.x - cx)
                        <= i32::MAX && i32::MIN <= s[j].y + (coords.y - cy) <= i32::MAX
            },
        ensures
            *final(self) == (GameState { selection: final(self).selection, ..*old(self) }),
            old(self).selection.coords@.len() == 0 ==> final(self).selection.coords@ == old(
                self,
            ).selection.coords@,
            old(self).selection.coords@.len() > 0 ==> final(self).selection.coords@ == translated(
                old(self).selection.coords@,
                coords.x - div_trunc(
                    min_x(old(self).selection.coords@) + max_x(old(self).selection.coords@),
                    2,
                ),
                coords.y - div_trunc(
                    min_y(old(self).selection.coords@) + max_y(old(self).selection.coords@),
                    2,
                ),
            ),
    {
        self.selection.recenter_at(coords);
    }

    /// Rotate the selection 90 degrees clockwise around its bounding box.
    pub fn rot_sel_clockwise(&mut self)
        requires
            distinct(old(self).selection.coords@),
            old(self).selection.coords@.len() > 0 ==> {
                let s = old(self).selection.coords@;
                forall|j: int|
                    0 <= j < s.len() ==> i32::MIN <= #[trigger] s[j].y - min_y(s) + min_x(s)
                        <= i32::MAX && i32::MIN <= max_x(s) - s[j].x + min_y(s) <= i32::MAX
            },
        ensures
            *final(self) == (GameState { selection: final(self).selection, ..*old(self) }),
            distinct(final(self).selection.coords@),
            final(self).selection.coords@.len() == old(self).selection.coords@.len(),
            forall|j: int|
                0 <= j < old(self).selection.coords@.len() ==> final(self).selection.coords@[j]
                    == rot_cw(
                    #[trigger] old(self).selection.coords@[j],
                    min_x(old(self).selection.coords@),
                    max_x(old(self).selection.coords@),
                    min_y(old(self).selection.coords@),
                ),
    {
        self.selection.rotate_right();
    }

    /// Rotate the selection 90 degrees counterclockwise around its bounding
    /// box.
    pub fn rot_sel_counter(&mut self)
        requires
            distinct(old(self).selection.coords@),
            old(self).selection.coords@.len() > 0 ==> {
                let s = old(self).selection.coords@;
                forall|j: int|
                    0 <= j < s.len() ==> i32::MIN <= max_y(s) - #[trigger] s[j].y + min_x(s)
                        <= i32::MAX && i32::MIN <= s[j].x - min_x(s) + min_y(s) <= i32::MAX
            },
        ensures
            *final(self) == (GameState { selection: final(self).selection, ..*old(self) }),
            distinct(final(self).selection.coords@),
            final(self).selection.coords@.len() == old(self).selection.coords@.len(),
            forall|j: int|
                0 <= j < old(self).selection.coords@.len() ==> final(self).selection.coords@[j]
                    == rot_ccw(
                    #[trigger] old(self).selection.coords@[j],
                    min_x(old(self).selection.coords@),
                    min_y(old(self).selection.coords@),
                    max_y(old(self).selection.coords@),
                ),
    {
        self.selection.rotate_left();
    }
}

} // verus!
