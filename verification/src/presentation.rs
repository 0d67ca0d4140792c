//! The decisions of the presentation side: which tokens a frame puts on the
//! inbound queue, and how the render loop paces its frames.
//!
//! Windows, widgets and drawing are not in here. The render loop reports
//! what the user toggled and what its clock says, and does what comes back.

use crate::worker::{
    data_token, generator_start_token, generator_stop_token, start_token, stop_token,
};
use vstd::prelude::*;
use vstd::string::*;

verus! {

/// The least time between two frames, in nanoseconds: 16 milliseconds, for
/// at most 60 frames in a second.
pub const FRAME_INTERVAL: u64 = 16_000_000;

/// What the render loop's pacing remembers.
pub struct Pacing {
    /// Whether the interface has to be drawn again without waiting for an
    /// event.
    pub needs_update: bool,
    /// When the last frame ended, in nanoseconds on the loop's clock.
    pub last_update: u64,
}

/// How long to sleep at `now` so that a frame starts no sooner than
/// `FRAME_INTERVAL` after the last one ended. A clock that reads earlier than
/// the last frame counts as no time gone by.
pub open spec fn pause_at(last_update: u64, now: u64) -> int {
    let elapsed = if now >= last_update {
        now - last_update
    } else {
        0
    };
    if elapsed < FRAME_INTERVAL {
        FRAME_INTERVAL - elapsed
    } else {
        0
    }
}

/// Paces the render loop.
#[derive(Debug)]
pub struct EventLoop {
    ui_needs_update: bool,
    last_update: u64,
}

impl View for EventLoop {
    type V = Pacing;

    closed spec fn view(&self) -> Pacing {
        Pacing { needs_update: self.ui_needs_update, last_update: self.last_update }
    }
}

impl EventLoop {
    /// A loop that starts at `now` and has its first frame to draw.
    pub fn new(now: u64) -> (pacing: EventLoop)
        ensures
            pacing@ == (Pacing { needs_update: true, last_update: now }),
    {
        EventLoop { last_update: now, ui_needs_update: true }
    }

    /// How long to sleep, in nanoseconds, before the pending events are
    /// collected.
    pub fn pause(&self, now: u64) -> (nanos: u64)
        ensures
            nanos == pause_at(self@.last_update, now),
            nanos <= FRAME_INTERVAL,
    {
        let elapsed: u64 = if now >= self.last_update {
            now - self.last_update
        } else {
            0
        };
        if elapsed < FRAME_INTERVAL {
            FRAME_INTERVAL - elapsed
        } else {
            0
        }
    }

    /// Whether the loop has to block until an event comes: it does when
    /// `pending` events were collected, none, and nothing asks for another
    /// frame.
    pub fn must_wait(&self, pending: usize) -> (wait: bool)
        ensures
            wait == (pending == 0 && !self@.needs_update),
    {
        pending == 0 && !self.ui_needs_update
    }

    /// Ends one turn of the loop at `now`: the events are handed out, and
    /// nothing asks for another frame until `needs_update` is called.
    pub fn next(&mut self, now: u64)
        ensures
            final(self)@ == (Pacing { needs_update: false, last_update: now }),
    {
        self.ui_needs_update = false;
        self.last_update = now;
    }

    /// Asks for another frame: an event changed the interface.
    pub fn needs_update(&mut self)
        ensures
            final(self)@ == (Pacing { needs_update: true, last_update: old(self)@.last_update }),
    {
        self.ui_needs_update = true;
    }
}

/// What the presentation side shows as switched on.
pub struct Switches {
    pub oscillo: bool,
    pub generator: bool,
}

/// The switches after the user's toggles of one frame; a switch that was not
/// toggled stays.
pub open spec fn toggled(before: Switches, oscillo: Option<bool>, generator: Option<bool>)
    -> Switches {
    Switches {
        oscillo: match oscillo {
            Some(on) => on,
            None => before.oscillo,
        },
        generator: match generator {
            Some(on) => on,
            None => before.generator,
        },
    }
}

/// The token for a toggle of the oscilloscope switch.
pub open spec fn oscillo_token(on: bool) -> Seq<char> {
    if on {
        start_token()
    } else {
        stop_token()
    }
}

/// The token for a toggle of the generator switch.
pub open spec fn generator_token(on: bool) -> Seq<char> {
    if on {
        generator_start_token()
    } else {
        generator_stop_token()
    }
}

/// The tokens of one frame, in the order in which they are enqueued: one for
/// the oscilloscope switch if it was toggled, one for the generator switch if
/// it was toggled, and then, if the oscilloscope is on after that, one data
/// query.
pub open spec fn frame_tokens(before: Switches, oscillo: Option<bool>, generator: Option<bool>)
    -> Seq<Seq<char>> {
    let first = match oscillo {
        Some(on) => seq![oscillo_token(on)],
        None => Seq::empty(),
    };
    let second = match generator {
        Some(on) => seq![generator_token(on)],
        None => Seq::empty(),
    };
    let third = if toggled(before, oscillo, generator).oscillo {
        seq![data_token()]
    } else {
        Seq::empty()
    };
    first + second + third
}

/// The tokens that are enqueued when the window closes: both the
/// oscilloscope and the generator are stopped.
pub open spec fn closing_tokens() -> Seq<Seq<char>> {
    seq![stop_token(), generator_stop_token()]
}

/// The texts of a sequence of strings.
pub open spec fn texts(strings: Seq<String>) -> Seq<Seq<char>> {
    Seq::new(strings.len(), |i: int| strings[i]@)
}

/// The presentation side's state: what it shows as switched on.
#[derive(Debug)]
pub struct Application {
    oscillo_started: bool,
    generator_started: bool,
}

impl View for Application {
    type V = Switches;

    closed spec fn view(&self) -> Switches {
        Switches { oscillo: self.oscillo_started, generator: self.generator_started }
    }
}

impl Application {
    /// Everything is switched off.
    pub fn new() -> (application: Application)
        ensures
            application@ == (Switches { oscillo: false, generator: false }),
    {
        Application { oscillo_started: false, generator_started: false }
    }

    pub fn oscillo_started(&self) -> (on: bool)
        ensures
            on == self@.oscillo,
    {
        self.oscillo_started
    }

    pub fn generator_started(&self) -> (on: bool)
        ensures
            on == self@.generator,
    {
        self.generator_started
    }

    /// Takes the toggles of one frame, `None` for a switch that the user
    /// left alone, and returns the tokens to enqueue, in order.
    ///
    /// The last token is a data query exactly if the oscilloscope is on
    /// after the toggles. The caller then waits for one payload before it
    /// enqueues anything else, so that no two queries are outstanding.
    pub fn set_widgets(&mut self, oscillo: Option<bool>, generator: Option<bool>) -> (tokens: Vec<
        String,
    >)
        ensures
            final(self)@ == toggled(old(self)@, oscillo, generator),
            texts(tokens@) == frame_tokens(old(self)@, oscillo, generator),
    {
        let mut tokens: Vec<String> = Vec::new();
        if let Some(on) = oscillo {
            tokens.push(
                String::from_str(
                    if on {
                        "oscillo/start"
                    } else {
                        "oscillo/stop"
                    },
                ),
            );
            self.oscillo_started = on;
        }
        if let Some(on) = generator {
            tokens.push(
                String::from_str(
                    if on {
                        "generator/start"
                    } else {
                        "generator/stop"
                    },
                ),
            );
            self.generator_started = on;
        }
        if self.oscillo_started {
            tokens.push(String::from_str("oscillo/data"));
        }
        proof {
            assert(texts(tokens@) =~= frame_tokens(old(self)@, oscillo, generator));
        }
        tokens
    }

    /// The tokens to enqueue when the window closes.
    pub fn shutdown(&self) -> (tokens: Vec<String>)
        ensures
            texts(tokens@) == closing_tokens(),
    {
        let mut tokens: Vec<String> = Vec::new();
        tokens.push(String::from_str("oscillo/stop"));
        tokens.push(String::from_str("generator/stop"));
        proof {
            assert(texts(tokens@) =~= closing_tokens());
        }
        tokens
    }
}

} // verus!
