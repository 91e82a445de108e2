//! Turning timestamped key events into interval records.
//!
//! A press of either channel key records the time since the previous press,
//! unless the same key was released too recently (a chattering switch).
use vstd::prelude::*;

verus! {

/// The keys the practice tool reacts to.
#[derive(Clone, Copy, Debug, PartialEq, Eq, Structural)]
pub enum Key {
    /// The `z` channel key.
    Z,
    /// The `x` channel key.
    X,
    /// The key that exports the statistics and starts over.
    Reset,
    /// Any other key.
    Other,
}

/// What to do in response to a key event.
#[derive(Clone, Copy, Debug, PartialEq, Eq, Structural)]
pub enum KeyAction {
    /// Nothing.
    Ignore,
    /// Restart the audible cue.
    Cue,
    /// Restart the audible cue and append this interval record.
    CueAndRecord(u64, bool),
    /// Export the statistics, then clear the history.
    ExportAndReset,
    /// Report an unassigned key.
    Unassigned,
}

/// A key press counts only when the same key was released more than 30 ms
/// before it: `(tm - release) / ticks_per_s > 0.03`.
pub open spec fn debounced(tm: u64, release: u64, ticks_per_s: u64) -> bool {
    tm >= release && (tm - release) * 100 > 3 * ticks_per_s
}

/// The times the decisions depend on, in clock ticks.
#[derive(Clone, Copy, Debug, PartialEq, Eq, Structural)]
pub struct PressFilter {
    /// Time of the previous channel key press; zero before the first one.
    pub prev_tm: u64,
    /// Time the `x` key was last released.
    pub release_x_tm: u64,
    /// Time the `z` key was last released.
    pub release_z_tm: u64,
}

impl PressFilter {
    /// A filter that has seen no press yet, with both keys released at `now`.
    pub fn new(now: u64) -> (r: Self)
        ensures
            r == (PressFilter { prev_tm: 0, release_x_tm: now, release_z_tm: now }),
    {
        PressFilter { prev_tm: 0, release_x_tm: now, release_z_tm: now }
    }

    /// The filter and action after `key` is pressed (`pressed`) or released
    /// at time `tm`.
    pub open spec fn step_spec(self, key: Key, pressed: bool, tm: u64, ticks_per_s: u64) -> (
        PressFilter,
        KeyAction,
    ) {
        match key {
            Key::Z | Key::X => {
                let is_z = key == Key::Z;
                if pressed {
                    let release = if is_z {
                        self.release_z_tm
                    } else {
                        self.release_x_tm
                    };
                    let act = if self.prev_tm != 0 && tm >= self.prev_tm && debounced(
                        tm,
                        release,
                        ticks_per_s,
                    ) {
                        KeyAction::CueAndRecord((tm - self.prev_tm) as u64, is_z)
                    } else {
                        KeyAction::Cue
                    };
                    (PressFilter { prev_tm: tm, ..self }, act)
                } else if is_z {
                    (PressFilter { release_z_tm: tm, ..self }, KeyAction::Ignore)
                } else {
                    (PressFilter { release_x_tm: tm, ..self }, KeyAction::Ignore)
                }
            },
            Key::Reset => if pressed {
                (PressFilter { prev_tm: 0, ..self }, KeyAction::ExportAndReset)
            } else {
                (self, KeyAction::Ignore)
            },
            Key::Other => if pressed {
                (self, KeyAction::Unassigned)
            } else {
                (self, KeyAction::Ignore)
            },
        }
    }

    /// Handles one key event (auto-repeated events are left out by the
    /// caller) and says what to do.
    pub fn on_key(&mut self, key: Key, pressed: bool, tm: u64, ticks_per_s: u64) -> (r:
        KeyAction)
        ensures
            (*final(self), r) == old(self).step_spec(key, pressed, tm, ticks_per_s),
    {
        match key {
            Key::Z | Key::X => {
                let is_z = match key {
                    Key::Z => true,
                    _ => false,
                };
                if pressed {
                    let release = if is_z {
                        self.release_z_tm
                    } else {
                        self.release_x_tm
                    };
                    let settled = tm >= release && ((tm - release) as u128) * 100 > 3 * (
                    ticks_per_s as u128);
                    let act = if self.prev_tm != 0 && tm >= self.prev_tm && settled {
                        KeyAction::CueAndRecord(tm - self.prev_tm, is_z)
                    } else {
                        KeyAction::Cue
                    };
                    self.prev_tm = tm;
                    act
                } else {
                    if is_z {
                        self.release_z_tm = tm;
                    } else {
                        self.release_x_tm = tm;
                    }
                    KeyAction::Ignore
                }
            },
            Key::Reset => {
                if pressed {
                    self.prev_tm = 0;
                    KeyAction::ExportAndReset
                } else {
                    KeyAction::Ignore
                }
            },
            Key::Other => {
                if pressed {
                    KeyAction::Unassigned
                } else {
                    KeyAction::Ignore
                }
            },
        }
    }
}

} // verus!
