//! The decisions of a reflector worker: which events reach the indexer,
//! how an error is recovered from, and how long to wait before a retry.
//! The worker itself, which reads the watch stream and sleeps, is the
//! caller's.

use vstd::prelude::*;
use crate::resolver::MAX_DEPTH;
use crate::workload::text_is;

verus! {

/// The options of the cache.
#[derive(Clone, Copy, Debug)]
pub struct Config {
    /// Bound on the number of ancestors that a resolution follows.
    pub max_owner_depth: usize,
    /// First retry delay after a watch error, in milliseconds.
    pub backoff_initial_ms: u64,
    /// Cap on the retry delay, in milliseconds.
    pub backoff_max_ms: u64,
    /// Jitter applied to each delay, in percent of it, up and down.
    pub backoff_jitter_pct: u64,
    /// Silence after which a watch is torn down and opened again.
    pub watch_idle_timeout_ms: u64,
    /// Whether annotations are dropped on ingest.
    pub prune_annotations: bool,
    /// Whether managed fields are dropped on ingest.
    pub prune_managed_fields: bool,
}

impl Default for Config {
    fn default() -> (c: Config)
        ensures
            c.max_owner_depth == MAX_DEPTH,
            c.backoff_initial_ms == 800,
            c.backoff_max_ms == 30000,
            c.backoff_jitter_pct == 20,
            c.watch_idle_timeout_ms == 300000,
            c.prune_annotations,
            c.prune_managed_fields,
    {
        Config {
            max_owner_depth: MAX_DEPTH,
            backoff_initial_ms: 800,
            backoff_max_ms: 30000,
            backoff_jitter_pct: 20,
            watch_idle_timeout_ms: 300000,
            prune_annotations: true,
            prune_managed_fields: true,
        }
    }
}

impl Config {
    /// The jitter is at most the whole delay, the first delay is not above
    /// the cap, and twice the cap is a number of the machine.
    pub open spec fn valid(self) -> bool {
        self.backoff_jitter_pct <= 100 && self.backoff_initial_ms <= self.backoff_max_ms
            && self.backoff_max_ms <= 0x7fff_ffff_ffff_ffff
    }

    pub fn is_valid(&self) -> (r: bool)
        ensures
            r == self.valid(),
    {
        self.backoff_jitter_pct <= 100 && self.backoff_initial_ms <= self.backoff_max_ms
            && self.backoff_max_ms <= 0x7fff_ffff_ffff_ffff
    }
}

/// What went wrong on a watch.
#[derive(Clone, Copy, Debug, PartialEq, Eq, Structural)]
pub enum WatchError {
    /// Dropped connection, timeout, server error.
    Transient,
    /// The resource version is too old to resume from.
    VersionExpired,
    /// Any other fault of the watch protocol.
    Protocol,
    /// Authentication or authorization was denied.
    Denied,
    /// The server knows no such resource kind.
    UnknownKind,
}

impl WatchError {
    /// The kind of error that a status code of the server stands for.
    pub open spec fn of_status(code: u16) -> WatchError {
        if code == 401 || code == 403 {
            WatchError::Denied
        } else if code == 404 {
            WatchError::UnknownKind
        } else if code == 410 {
            WatchError::VersionExpired
        } else if code == 408 || code == 429 || code >= 500 {
            WatchError::Transient
        } else {
            WatchError::Protocol
        }
    }

    pub fn from_status(code: u16) -> (r: WatchError)
        ensures
            r == WatchError::of_status(code),
    {
        if code == 401 || code == 403 {
            WatchError::Denied
        } else if code == 404 {
            WatchError::UnknownKind
        } else if code == 410 {
            WatchError::VersionExpired
        } else if code == 408 || code == 429 || code >= 500 {
            WatchError::Transient
        } else {
            WatchError::Protocol
        }
    }

    /// Only a denial and an unknown kind end a worker.
    pub open spec fn fatal(self) -> bool {
        self == WatchError::Denied || self == WatchError::UnknownKind
    }

    pub fn is_fatal(self) -> (r: bool)
        ensures
            r == self.fatal(),
    {
        match self {
            WatchError::Denied | WatchError::UnknownKind => true,
            _ => false,
        }
    }
}

/// What the worker does about an error.
#[derive(Clone, Copy, Debug, PartialEq, Eq, Structural)]
pub enum Recovery {
    /// Sleep for so many milliseconds, then open the watch again.
    Retry(u64),
    /// Abandon the stream and list from scratch.
    Relist,
    /// End the worker and report the kind as degraded.
    Fatal,
}

/// The delay that follows `delay`: one and a half times it, capped.
pub open spec fn grown(delay: u64, cap: u64) -> u64 {
    if delay + delay / 2 >= cap {
        cap
    } else {
        (delay + delay / 2) as u64
    }
}

/// The delay with jitter: between `100 - pct` and `100 + pct` percent of
/// it, picked by the sample.
pub open spec fn jittered(delay: u64, pct: u64, sample: u64) -> int {
    (delay as int) * (100 - (pct as int) + (sample as int) % (2 * (pct as int) + 1)) / 100
}

pub struct ReflectorView {
    pub last: Option<(Seq<char>, Seq<char>)>,
    pub delay_ms: u64,
    pub config: Config,
}

/// The state that a reflector worker keeps between two events.
pub struct Reflector {
    last: Option<(String, String)>,
    delay_ms: u64,
    config: Config,
}

impl View for Reflector {
    type V = ReflectorView;

    closed spec fn view(&self) -> ReflectorView {
        ReflectorView {
            last: match self.last {
                Some(p) => Some((p.0@, p.1@)),
                None => None,
            },
            delay_ms: self.delay_ms,
            config: self.config,
        }
    }
}

impl Reflector {
    /// The delay never exceeds the cap.
    pub open spec fn wf(&self) -> bool {
        self@.config.valid() && self@.delay_ms <= self@.config.backoff_max_ms
    }

    /// A worker that has seen nothing yet; none where the options are not
    /// valid.
    pub fn new(config: Config) -> (r: Option<Reflector>)
        ensures
            r.is_some() == config.valid(),
            match r {
                Some(w) => w.wf() && w@ == (ReflectorView {
                    last: None,
                    delay_ms: config.backoff_initial_ms,
                    config,
                }),
                None => true,
            },
    {
        if config.is_valid() {
            Some(Reflector { last: None, delay_ms: config.backoff_initial_ms, config })
        } else {
            None
        }
    }

    /// Whether an event reaches the indexer: it does unless it repeats the
    /// identity and resource version of the event just before it.
    pub fn observe(&mut self, uid: &str, resource_version: &str) -> (fresh: bool)
        ensures
            fresh == (old(self)@.last != Some((uid@, resource_version@))),
            final(self)@ == (ReflectorView {
                last: Some((uid@, resource_version@)),
                ..old(self)@
            }),
    {
        let fresh = match &self.last {
            Some(p) => !(text_is(p.0.as_str(), uid) && text_is(p.1.as_str(), resource_version)),
            None => true,
        };
        if fresh {
            self.last = Some((uid.to_owned(), resource_version.to_owned()));
        }
        fresh
    }

    /// After a stretch without error the next delay is the first one again.
    pub fn recovered(&mut self)
        requires
            old(self).wf(),
        ensures
            final(self).wf(),
            final(self)@ == (ReflectorView {
                delay_ms: old(self)@.config.backoff_initial_ms,
                ..old(self)@
            }),
    {
        self.delay_ms = self.config.backoff_initial_ms;
    }

    /// Whether a watch that has been silent for so long is torn down.
    pub fn idle_expired(&self, silent_ms: u64) -> (r: bool)
        ensures
            r == (silent_ms >= self@.config.watch_idle_timeout_ms),
    {
        silent_ms >= self.config.watch_idle_timeout_ms
    }

    /// What to do about an error. A transient one is retried after the
    /// current delay with jitter, and the delay grows; an expired version
    /// or a protocol fault forces a re-listing; a denial or an unknown kind
    /// ends the worker. The sample is a number drawn by the caller.
    pub fn on_error(&mut self, error: WatchError, sample: u64) -> (r: Recovery)
        requires
            old(self).wf(),
        ensures
            final(self).wf(),
            r == (match error {
                WatchError::Transient => Recovery::Retry(
                    jittered(old(self)@.delay_ms, old(self)@.config.backoff_jitter_pct, sample) as u64,
                ),
                WatchError::VersionExpired | WatchError::Protocol => Recovery::Relist,
                WatchError::Denied | WatchError::UnknownKind => Recovery::Fatal,
            }),
            final(self)@ == (ReflectorView {
                delay_ms: if error == WatchError::Transient {
                    grown(old(self)@.delay_ms, old(self)@.config.backoff_max_ms)
                } else {
                    old(self)@.delay_ms
                },
                ..old(self)@
            }),
            error == WatchError::Transient ==> old(self)@.delay_ms * (100
                - old(self)@.config.backoff_jitter_pct) / 100 <= jittered(
                old(self)@.delay_ms,
                old(self)@.config.backoff_jitter_pct,
                sample,
            ) <= old(self)@.delay_ms * (100 + old(self)@.config.backoff_jitter_pct) / 100,
    {
        match error {
            WatchError::Transient => {
                let delay = self.delay_ms;
                let pct = self.config.backoff_jitter_pct;
                let wait = with_jitter(delay, pct, sample);
                let half = delay / 2;
                self.delay_ms = if half >= self.config.backoff_max_ms - delay {
                    self.config.backoff_max_ms
                } else {
                    delay + half
                };
                Recovery::Retry(wait)
            },
            WatchError::VersionExpired | WatchError::Protocol => Recovery::Relist,
            WatchError::Denied | WatchError::UnknownKind => Recovery::Fatal,
        }
    }
}

/// A delay with jitter of `pct` percent, picked by the sample.
pub fn with_jitter(delay: u64, pct: u64, sample: u64) -> (r: u64)
    requires
        pct <= 100,
        delay <= 0x7fff_ffff_ffff_ffff,
    ensures
        r == jittered(delay, pct, sample),
        delay * (100 - pct) / 100 <= r <= delay * (100 + pct) / 100,
{
    let span: u64 = 2 * pct + 1;
    let factor: u64 = 100 - pct + sample % span;
    proof {
        assert(delay * factor <= 0x7fff_ffff_ffff_ffff * 200) by (nonlinear_arith)
            requires
                delay <= 0x7fff_ffff_ffff_ffff,
                factor <= 200,
        ;
    }
    let wide: u128 = (delay as u128) * (factor as u128);
    proof {
        assert(100 - pct <= factor <= 100 + pct);
        assert(delay * (100 - pct) <= delay * factor <= delay * (100 + pct)) by (nonlinear_arith)
            requires
                100 - pct <= factor <= 100 + pct,
                pct <= 100,
        ;
        assert(delay * factor <= delay * 200) by (nonlinear_arith)
            requires
                factor <= 200,
        ;
        vstd::arithmetic::div_mod::lemma_div_is_ordered(
            delay * (100 - pct),
            delay * factor,
            100,
        );
        vstd::arithmetic::div_mod::lemma_div_is_ordered(
            delay * factor,
            delay * (100 + pct),
            100,
        );
        vstd::arithmetic::div_mod::lemma_div_is_ordered(delay * factor, delay * 200, 100);
        assert(delay * 200 / 100 == delay * 2) by (nonlinear_arith);
    }
    let scaled: u128 = wide / 100;
    proof {
        assert(scaled <= 2 * delay);
    }
    scaled as u64
}

} // verus!
