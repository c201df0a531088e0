//! Decisions of the scene-file watcher: which file events trigger a reload,
//! and how rapid successive changes are debounced.
//!
//! Time is given as nanoseconds on a monotonic clock. Watching the file
//! system and running the reload itself happen outside this module.

use vstd::prelude::*;

verus! {

/// Debounce used by the default configuration: 300 ms.
pub const DEFAULT_DEBOUNCE_NS: u64 = 300_000_000;

/// Configuration for the scene watcher.
#[derive(Clone, Copy)]
pub struct WatcherConfig {
    /// Minimum time between two reloads, in nanoseconds.
    pub debounce_duration_ns: u64,
    /// Whether to clear the world before reloading.
    pub clear_world_on_reload: bool,
    /// Whether to validate assets during reload.
    pub validate_assets: bool,
}

impl Default for WatcherConfig {
    fn default() -> (c: WatcherConfig)
        ensures
            c.debounce_duration_ns == DEFAULT_DEBOUNCE_NS,
            c.clear_world_on_reload,
            c.validate_assets,
    {
        WatcherConfig {
            debounce_duration_ns: DEFAULT_DEBOUNCE_NS,
            clear_world_on_reload: true,
            validate_assets: true,
        }
    }
}

/// What the watcher's event loop received.
#[derive(Clone, Copy, PartialEq, Eq, Structural)]
pub enum WatcherEvent {
    /// The owner asked the watcher to stop.
    Stop,
    /// A file event arrived at `now_ns`; `touches_scene` tells whether one of
    /// its paths is the scene file, a directory holding it, or a file of the
    /// same name.
    FileChanged { touches_scene: bool, now_ns: u64 },
    /// No event arrived within the polling interval.
    Timeout,
    /// The event channel closed.
    Disconnected,
}

/// What the event loop does in response.
#[derive(Clone, Copy, PartialEq, Eq, Structural)]
pub enum WatcherAction {
    /// Leave the event loop.
    Exit,
    /// Reload the scene now.
    Reload,
    /// A scene change arrived too soon after the last reload; skip it.
    Debounced,
    /// Nothing to do; keep waiting.
    Continue,
}

/// State of the event loop: when the scene was last reloaded.
#[derive(Clone, Copy)]
pub struct ReloadGate {
    pub last_reload_ns: u64,
}

/// Time elapsed from `earlier` to `later`, zero if `later` is not after it.
pub open spec fn elapsed(earlier: u64, later: u64) -> int {
    if later >= earlier {
        later - earlier
    } else {
        0
    }
}

/// The action for `event`, and the time of the last reload afterwards.
pub open spec fn watcher_step(last_reload_ns: u64, config: WatcherConfig, event: WatcherEvent) -> (WatcherAction, u64) {
    match event {
        WatcherEvent::Stop => (WatcherAction::Exit, last_reload_ns),
        WatcherEvent::Disconnected => (WatcherAction::Exit, last_reload_ns),
        WatcherEvent::Timeout => (WatcherAction::Continue, last_reload_ns),
        WatcherEvent::FileChanged { touches_scene, now_ns } => {
            if !touches_scene {
                (WatcherAction::Continue, last_reload_ns)
            } else if elapsed(last_reload_ns, now_ns) >= config.debounce_duration_ns {
                (WatcherAction::Reload, now_ns)
            } else {
                (WatcherAction::Debounced, last_reload_ns)
            }
        },
    }
}

impl ReloadGate {
    /// A gate whose clock starts at `now_ns`, as if the scene had just been loaded.
    pub fn new(now_ns: u64) -> (g: ReloadGate)
        ensures
            g.last_reload_ns == now_ns,
    {
        ReloadGate { last_reload_ns: now_ns }
    }

    /// Decides what to do with `event` and records a reload when one is due.
    pub fn step(&mut self, config: &WatcherConfig, event: WatcherEvent) -> (a: WatcherAction)
        ensures
            (a, final(self).last_reload_ns) == watcher_step(old(self).last_reload_ns, *config, event),
    {
        match event {
            WatcherEvent::Stop => WatcherAction::Exit,
            WatcherEvent::Disconnected => WatcherAction::Exit,
            WatcherEvent::Timeout => WatcherAction::Continue,
            WatcherEvent::FileChanged { touches_scene, now_ns } => {
                if !touches_scene {
                    WatcherAction::Continue
                } else {
                    let since = if now_ns >= self.last_reload_ns {
                        now_ns - self.last_reload_ns
                    } else {
                        0
                    };
                    if since >= config.debounce_duration_ns {
                        self.last_reload_ns = now_ns;
                        WatcherAction::Reload
                    } else {
                        WatcherAction::Debounced
                    }
                }
            },
        }
    }
}

/// Debounce law: once the scene was last refreshed at `t`, a change arriving
/// less than the debounce duration after `t` triggers no refresh; a refresh
/// records the event's time, and every other event keeps `t`.
pub proof fn lemma_reloads_debounced(t: u64, config: WatcherConfig, event: WatcherEvent)
    ensures
        match event {
            WatcherEvent::FileChanged { touches_scene, now_ns } => {
                &&& (elapsed(t, now_ns) < config.debounce_duration_ns ==> watcher_step(t, config, event).0 != WatcherAction::Reload)
                &&& (watcher_step(t, config, event).0 == WatcherAction::Reload ==> watcher_step(t, config, event).1 == now_ns)
                &&& (watcher_step(t, config, event).0 != WatcherAction::Reload ==> watcher_step(t, config, event).1 == t)
            },
            _ => watcher_step(t, config, event).1 == t,
        },
{
}

} // verus!
