//! The asynchronous runtime module: its settings, when it starts and stops,
//! how the runtime is shaped, and how often the balancer wakes.

use crate::app::NT_APP_SHUTDOWN;
use crate::event::AppEvent;
use crate::modules::config_mod::NT_CONFIG_DISPLAY;
use crate::text::{chars_of, decimal, decimal_exec, parse_u64, parse_unsigned, str_eq, string_of};
use vstd::prelude::*;

verus! {

/// The notify that starts the runtime (its context: whether to block).
pub const NT_ASYNC_START: &'static str = "Async::start";

/// The notify sent once the runtime has started.
pub const NT_ASYNC_STARTED: &'static str = "Async::started";

/// The notify that spawns a task on the runtime.
pub const NT_ASYNC_SPAWN: &'static str = "Async::spawn";

/// The pause of the balancer when tasks pile up, in nanoseconds.
pub const BALANCER_PAUSE_MIN_NANOS: u64 = 1;

/// The pause of the balancer otherwise, in nanoseconds (10 ms).
pub const BALANCER_PAUSE_MAX_NANOS: u64 = 10_000_000;

/// The settings of the runtime.
#[derive(Debug)]
pub struct TokioConfig {
    pub threads: usize,
    pub blocking_threads: usize,
    pub blocking_threads_lifetime: u64,
    pub thread_name: String,
}

/// What a setting from the environment gives: the default where it is
/// absent, its value where it parses, and nothing where it does not.
pub open spec fn env_setting(value: Option<Seq<char>>, default: nat, max: nat) -> Option<nat> {
    match value {
        None => Some(default),
        Some(s) => parse_unsigned(s, max),
    }
}

/// The settings as `key=value` entries.
pub open spec fn spec_tokio_entries(
    threads: nat,
    blocking: nat,
    lifetime: nat,
    name: Seq<char>,
) -> Seq<(Seq<char>, Seq<char>)> {
    seq![
        ("tokio.threads"@, decimal(threads)),
        ("tokio.blocking_threads"@, decimal(blocking)),
        ("tokio.blocking_threads_lifetime"@, decimal(lifetime)),
        ("tokio.thread_name"@, name),
    ]
}

fn env_number(value: &Option<String>, default: u64, max: u64) -> (res: Option<u64>)
    ensures
        match env_setting(
            match value {
                Some(s) => Some(s@),
                None => None,
            },
            default as nat,
            max as nat,
        ) {
            Some(n) => res == Some(n as u64),
            None => res is None,
        },
{
    match value {
        None => Some(default),
        Some(s) => {
            let parsed = parse_u64(&chars_of(s.as_str()));
            match parsed {
                Some(n) => {
                    if n <= max {
                        Some(n)
                    } else {
                        None
                    }
                },
                None => {
                    proof {
                        if parse_unsigned(s@, max as nat) is Some {
                            assert(parse_unsigned(s@, u64::MAX as nat) is Some);
                        }
                    }
                    None
                },
            }
        },
    }
}

/// The kind of runtime that the settings build.
#[derive(Debug, Clone, Copy, PartialEq, Eq, Structural)]
pub enum RuntimeKind {
    /// No worker threads: everything runs on the current thread.
    CurrentThread,
    /// A pool of worker threads.
    MultiThread { workers: usize },
}

impl TokioConfig {
    /// The settings from the environment (`TOKIO_THREADS`,
    /// `TOKIO_BLOCKING_THREADS`, `TOKIO_BLOCKING_THREADS_LIFETIME`), each
    /// with its default (1, 512, 60) where absent, and the thread name
    /// `tokio-worker`. `None` where a value given is not a number of its
    /// type: such a setting is invalid.
    pub fn from_env(
        threads: Option<String>,
        blocking_threads: Option<String>,
        blocking_threads_lifetime: Option<String>,
    ) -> (res: Option<Self>)
        ensures
            ({
                let t = env_setting(
                    match threads {
                        Some(s) => Some(s@),
                        None => None,
                    },
                    1,
                    usize::MAX as nat,
                );
                let b = env_setting(
                    match blocking_threads {
                        Some(s) => Some(s@),
                        None => None,
                    },
                    512,
                    usize::MAX as nat,
                );
                let l = env_setting(
                    match blocking_threads_lifetime {
                        Some(s) => Some(s@),
                        None => None,
                    },
                    60,
                    u64::MAX as nat,
                );
                match res {
                    Some(c) => t == Some(c.threads as nat) && b == Some(c.blocking_threads as nat)
                        && l == Some(c.blocking_threads_lifetime as nat) && c.thread_name@
                        == "tokio-worker"@,
                    None => t is None || b is None || l is None,
                }
            }),
    {
        let max = usize::MAX as u64;
        let t = env_number(&threads, 1, max);
        let b = env_number(&blocking_threads, 512, max);
        let l = env_number(&blocking_threads_lifetime, 60, u64::MAX);
        match (t, b, l) {
            (Some(t), Some(b), Some(l)) => Some(
                TokioConfig {
                    threads: t as usize,
                    blocking_threads: b as usize,
                    blocking_threads_lifetime: l,
                    thread_name: string_of(&chars_of("tokio-worker")),
                },
            ),
            _ => None,
        }
    }

    /// The runtime that these settings build: on the current thread when
    /// no worker thread is asked for, else a pool of that many workers.
    pub fn runtime_kind(&self) -> (res: RuntimeKind)
        ensures
            self.threads == 0 ==> res == RuntimeKind::CurrentThread,
            self.threads > 0 ==> res == (RuntimeKind::MultiThread { workers: self.threads }),
    {
        if self.threads == 0 {
            RuntimeKind::CurrentThread
        } else {
            RuntimeKind::MultiThread { workers: self.threads }
        }
    }

    /// The same settings with another thread count and name, as a module
    /// that wants a runtime of its own asks for.
    pub fn custom(&self, thread_name: &str, threads: usize) -> (res: Self)
        ensures
            res.threads == threads,
            res.thread_name@ == thread_name@,
            res.blocking_threads == self.blocking_threads,
            res.blocking_threads_lifetime == self.blocking_threads_lifetime,
    {
        TokioConfig {
            threads,
            blocking_threads: self.blocking_threads,
            blocking_threads_lifetime: self.blocking_threads_lifetime,
            thread_name: string_of(&chars_of(thread_name)),
        }
    }

    /// The settings as `key=value` entries.
    pub fn iter_config(&self) -> (res: Vec<(String, String)>)
        ensures
            res@.map_values(|p: (String, String)| (p.0@, p.1@)) == spec_tokio_entries(
                self.threads as nat,
                self.blocking_threads as nat,
                self.blocking_threads_lifetime as nat,
                self.thread_name@,
            ),
    {
        let mut res: Vec<(String, String)> = Vec::new();
        res.push(
            (
                string_of(&chars_of("tokio.threads")),
                string_of(&decimal_exec(self.threads as u64)),
            ),
        );
        res.push(
            (
                string_of(&chars_of("tokio.blocking_threads")),
                string_of(&decimal_exec(self.blocking_threads as u64)),
            ),
        );
        res.push(
            (
                string_of(&chars_of("tokio.blocking_threads_lifetime")),
                string_of(&decimal_exec(self.blocking_threads_lifetime)),
            ),
        );
        res.push(
            (string_of(&chars_of("tokio.thread_name")), string_of(&chars_of(self.thread_name.as_str()))),
        );
        assert(res@.map_values(|p: (String, String)| (p.0@, p.1@)) =~= spec_tokio_entries(
            self.threads as nat,
            self.blocking_threads as nat,
            self.blocking_threads_lifetime as nat,
            self.thread_name@,
        ));
        res
    }
}

/// What a start of the runtime does.
#[derive(Debug, Clone, Copy, PartialEq, Eq, Structural)]
pub struct AsyncStartPlan {
    /// Build a runtime from the settings: none is running.
    pub create_runtime: bool,
    /// Wait on the current thread until a stop.
    pub block: bool,
}

/// Whether the runtime has been started; it starts at most once until it
/// is stopped.
#[derive(Debug)]
pub struct AsyncState {
    pub started: bool,
}

impl AsyncState {
    pub fn new() -> (res: Self)
        ensures
            !res.started,
    {
        AsyncState { started: false }
    }

    /// Marks the runtime started; says whether the caller is the one that
    /// starts it (it was not started before).
    pub fn begin_start(&mut self) -> (res: bool)
        ensures
            res == !old(self).started,
            final(self).started,
    {
        let was = self.started;
        self.started = true;
        !was
    }

    /// What starting the runtime does: nothing when it is started already;
    /// else it is marked started, a runtime is built unless one is running
    /// on this thread, and the caller blocks until a stop when asked to.
    pub fn start(&mut self, runtime_exists: bool, with_block: bool) -> (res: Option<
        AsyncStartPlan,
    >)
        ensures
            res is None <==> old(self).started,
            res matches Some(p) ==> p.create_runtime == !runtime_exists && p.block == with_block,
            final(self).started,
    {
        if self.begin_start() {
            Some(AsyncStartPlan { create_runtime: !runtime_exists, block: with_block })
        } else {
            None
        }
    }

    /// Marks the runtime stopped.
    pub fn stop(&mut self)
        ensures
            !final(self).started,
    {
        self.started = false;
    }

    /// Whether the deferred initialisation runs after a module is loaded:
    /// after the load (not before it), once the runtime is running.
    pub fn runs_init_on_hook(&self, event: AppEvent, is_pre_hook: bool) -> (res: bool)
        ensures
            res == (event == AppEvent::LOAD && !is_pre_hook && self.started),
    {
        event == AppEvent::LOAD && !is_pre_hook && self.started
    }
}

/// The balancer runs only where there is more than one worker.
pub open spec fn spec_needs_balancer(workers: nat) -> bool {
    workers > 1
}

pub fn needs_balancer(workers: usize) -> (res: bool)
    ensures
        res == spec_needs_balancer(workers as nat),
{
    workers > 1
}

/// How long the balancer sleeps, given the live tasks now and at its last
/// wake: briefly when there are more than a hundred or more than ten new
/// ones, else ten milliseconds.
pub open spec fn spec_balancer_pause(now: int, last: int) -> u64 {
    if now > 100 || now - last > 10 {
        BALANCER_PAUSE_MIN_NANOS
    } else {
        BALANCER_PAUSE_MAX_NANOS
    }
}

pub fn balancer_pause_nanos(now: usize, last: usize) -> (res: u64)
    ensures
        res == spec_balancer_pause(now as int, last as int),
{
    if now > 100 || (now > last && now - last > 10) {
        BALANCER_PAUSE_MIN_NANOS
    } else {
        BALANCER_PAUSE_MAX_NANOS
    }
}

/// What the module does on a notify.
#[derive(Debug, Clone, Copy, PartialEq, Eq, Structural)]
pub struct AsyncNotifyPlan {
    /// Marks the event handled.
    pub handled: bool,
    /// Starts the runtime.
    pub start: bool,
    /// Spawns the task in the context.
    pub spawn: bool,
    /// Stops the runtime.
    pub stop: bool,
    /// Adds the settings to those shown.
    pub show_config: bool,
}

pub open spec fn spec_async_notify_plan(notify: Seq<char>) -> AsyncNotifyPlan {
    let start = notify == NT_ASYNC_START@;
    let spawn = notify == NT_ASYNC_SPAWN@;
    AsyncNotifyPlan {
        handled: start || spawn,
        start,
        spawn,
        stop: notify == NT_APP_SHUTDOWN@,
        show_config: notify == NT_CONFIG_DISPLAY@,
    }
}

pub fn async_notify_plan(notify: &str) -> (res: AsyncNotifyPlan)
    ensures
        res == spec_async_notify_plan(notify@),
{
    let start = str_eq(notify, NT_ASYNC_START);
    let spawn = str_eq(notify, NT_ASYNC_SPAWN);
    AsyncNotifyPlan {
        handled: start || spawn,
        start,
        spawn,
        stop: str_eq(notify, NT_APP_SHUTDOWN),
        show_config: str_eq(notify, NT_CONFIG_DISPLAY),
    }
}

} // verus!
