//! The two sample modules that ping each other: what each does on its
//! notifies, which glyph a ping shows, and the pace of the ping loop.

use crate::app::NT_APP_RUN;
use crate::modules::async_mod::NT_ASYNC_STARTED;
use crate::text::str_eq;
use vstd::prelude::*;

verus! {

/// The notify that module A answers with a heart.
pub const NT_MOD_A_PING: &'static str = "ModuleA::ping";

/// The notify that module B answers with its glyph.
pub const NT_MOD_B_PING: &'static str = "ModuleB::ping";

/// The command that runs module A.
pub const MOD_A_COMMAND: &'static str = "a";

/// The command that runs module B.
pub const MOD_B_COMMAND: &'static str = "b";

/// The name of the threads of module A's own runtime.
pub const MOD_A_THREAD_NAME: &'static str = "tokio-mod-a";

/// The worker threads of module A's own runtime.
pub const MOD_A_THREADS: usize = 1;

/// The pings of module A at the fast pace, per cycle.
pub const FAST_PINGS: u64 = 10_000;

/// The count after which the cycle starts again.
pub const CYCLE_END: u64 = 10_500;

/// The pause between pings at the fast pace, in milliseconds.
pub const FAST_PAUSE_MS: u64 = 1;

/// The pause between pings at the slow pace, in milliseconds.
pub const SLOW_PAUSE_MS: u64 = 100;

/// The pause between module B's pings, in microseconds.
pub const MOD_B_PAUSE_MICROS: u32 = 100_000;

/// The glyph of module A's ping.
pub const MOD_A_GLYPH: char = '\u{2665}';

/// The glyph that module A's database answer holds.
pub const MOD_A_QUERY_GLYPH: char = '\u{26a1}';

/// The glyph of module B's ping without a character in its context.
pub const MOD_B_GLYPH: char = '\u{2660}';

/// A colour of the terminal.
#[derive(Debug, Clone, Copy, PartialEq, Eq, Structural)]
pub enum GlyphColor {
    Red,
    Green,
    Blue,
    BrightYellow,
}

/// What a ping shows.
#[derive(Debug, Clone, Copy, PartialEq, Eq, Structural)]
pub struct PingGlyph {
    pub glyph: char,
    pub color: GlyphColor,
}

/// Module B's ping: the character of the context in green, else a spade
/// in bright yellow.
pub open spec fn spec_b_glyph(context: Option<char>) -> PingGlyph {
    match context {
        Some(c) => PingGlyph { glyph: c, color: GlyphColor::Green },
        None => PingGlyph { glyph: MOD_B_GLYPH, color: GlyphColor::BrightYellow },
    }
}

pub fn b_glyph(context: Option<char>) -> (res: PingGlyph)
    ensures
        res == spec_b_glyph(context),
{
    match context {
        Some(c) => PingGlyph { glyph: c, color: GlyphColor::Green },
        None => PingGlyph { glyph: MOD_B_GLYPH, color: GlyphColor::BrightYellow },
    }
}

/// Module A's ping: a red heart.
pub fn a_glyph() -> (res: PingGlyph)
    ensures
        res == (PingGlyph { glyph: MOD_A_GLYPH, color: GlyphColor::Red }),
{
    PingGlyph { glyph: MOD_A_GLYPH, color: GlyphColor::Red }
}

/// The answer of module A's query: in blue.
pub fn query_color() -> (res: GlyphColor)
    ensures
        res == GlyphColor::Blue,
{
    GlyphColor::Blue
}

/// One turn of module A's ping loop, from the count before it: the count
/// after it and the pause that follows. The count goes up by one; the
/// pause is short for the first pings of a cycle and long after; past
/// the cycle's end the count starts again from zero.
pub open spec fn spec_ping_step(count: u64) -> (u64, u64) {
    let next = count + 1;
    if next < FAST_PINGS {
        (next as u64, FAST_PAUSE_MS)
    } else if next > CYCLE_END {
        (0, SLOW_PAUSE_MS)
    } else {
        (next as u64, SLOW_PAUSE_MS)
    }
}

pub fn ping_step(count: u64) -> (res: (u64, u64))
    requires
        count < u64::MAX,
    ensures
        res == spec_ping_step(count),
        count <= CYCLE_END ==> res.0 <= CYCLE_END,
{
    let next = count + 1;
    if next < FAST_PINGS {
        (next, FAST_PAUSE_MS)
    } else {
        if next > CYCLE_END {
            (0, SLOW_PAUSE_MS)
        } else {
            (next, SLOW_PAUSE_MS)
        }
    }
}

/// What module A does on a notify.
#[derive(Debug, Clone, Copy, PartialEq, Eq, Structural)]
pub struct ModANotifyPlan {
    /// Shows its glyph and queries the database.
    pub ping: bool,
    /// Starts its own runtime and the ping loop.
    pub start_loop: bool,
    /// Marks the event handled and starts the runtime, blocking on it.
    pub start_async: bool,
}

pub open spec fn spec_mod_a_plan(notify: Seq<char>, cmd: Seq<char>) -> ModANotifyPlan {
    ModANotifyPlan {
        ping: notify == NT_MOD_A_PING@,
        start_loop: notify == NT_ASYNC_STARTED@,
        start_async: notify == NT_APP_RUN@ && cmd == MOD_A_COMMAND@,
    }
}

pub fn mod_a_plan(notify: &str, cmd: &str) -> (res: ModANotifyPlan)
    ensures
        res == spec_mod_a_plan(notify@, cmd@),
{
    ModANotifyPlan {
        ping: str_eq(notify, NT_MOD_A_PING),
        start_loop: str_eq(notify, NT_ASYNC_STARTED),
        start_async: str_eq(notify, NT_APP_RUN) && str_eq(cmd, MOD_A_COMMAND),
    }
}

/// What module B does on a notify.
#[derive(Debug, Clone, Copy, PartialEq, Eq, Structural)]
pub struct ModBNotifyPlan {
    /// Shows its glyph.
    pub ping: bool,
    /// Marks the event handled and pings itself without end.
    pub run_loop: bool,
}

pub open spec fn spec_mod_b_plan(notify: Seq<char>, cmd: Seq<char>) -> ModBNotifyPlan {
    ModBNotifyPlan {
        ping: notify == NT_MOD_B_PING@,
        run_loop: notify == NT_APP_RUN@ && cmd == MOD_B_COMMAND@,
    }
}

pub fn mod_b_plan(notify: &str, cmd: &str) -> (res: ModBNotifyPlan)
    ensures
        res == spec_mod_b_plan(notify@, cmd@),
{
    ModBNotifyPlan {
        ping: str_eq(notify, NT_MOD_B_PING),
        run_loop: str_eq(notify, NT_APP_RUN) && str_eq(cmd, MOD_B_COMMAND),
    }
}

} // verus!
