//! The playback clock of the audio engine: where in the track playback
//! stands, across pauses, resumes and seeks, and when a track has finished.
//! Times are nanoseconds of a monotonic clock that the caller reads.

use vstd::prelude::*;

verus! {

/// The engine's bookkeeping beside its audio sink.
#[derive(Debug, Clone, Copy, PartialEq, Eq, Structural)]
pub struct PlaybackClock {
    /// A sink holds the current track (playing or paused).
    pub has_sink: bool,
    /// A file has been opened, so seeking can reopen it.
    pub has_path: bool,
    /// When playback last started or resumed, while it runs.
    pub play_start_ns: Option<u64>,
    /// Position reached before the last start or resume.
    pub elapsed_before_pause_ns: u64,
    /// Length of the current track.
    pub duration_ns: u64,
    pub is_paused: bool,
}

/// The time from `start` to `now` (none if `now` is earlier).
pub open spec fn since(now: u64, start: u64) -> nat {
    if now >= start {
        (now - start) as nat
    } else {
        0
    }
}

/// `a + b`, capped at the largest `u64`.
pub open spec fn add_capped(a: nat, b: nat) -> u64 {
    if a + b > u64::MAX {
        u64::MAX
    } else {
        (a + b) as u64
    }
}

/// The position reported at time `now`: while running, the position before
/// the last start plus the time since, at most the track's length; while
/// stopped or paused, the position reached.
pub open spec fn position_at(c: PlaybackClock, now: u64) -> u64 {
    match c.play_start_ns {
        Some(start) => {
            let p = add_capped(c.elapsed_before_pause_ns as nat, since(now, start));
            if p < c.duration_ns {
                p
            } else {
                c.duration_ns
            }
        },
        None => c.elapsed_before_pause_ns,
    }
}

/// A track has finished when it has a length, playback is within its last
/// 0.3 s, the sink has drained and playback is not paused.
pub open spec fn finished_at(c: PlaybackClock, now: u64, sink_drained: bool) -> bool {
    &&& c.duration_ns > 0
    &&& position_at(c, now) + 300_000_000 >= c.duration_ns
    &&& c.has_sink
    &&& sink_drained
    &&& !c.is_paused
}

/// A paused clock does not run.
pub open spec fn clock_wf(c: PlaybackClock) -> bool {
    c.is_paused ==> c.play_start_ns is None
}

fn add_cap(a: u64, b: u64) -> (r: u64)
    ensures
        r == add_capped(a as nat, b as nat),
{
    if a > u64::MAX - b {
        u64::MAX
    } else {
        a + b
    }
}

fn elapsed(now: u64, start: u64) -> (r: u64)
    ensures
        r == since(now, start),
{
    if now >= start {
        now - start
    } else {
        0
    }
}

impl PlaybackClock {
    /// Nothing loaded.
    pub fn new() -> (c: PlaybackClock)
        ensures
            clock_wf(c),
            c == (PlaybackClock {
                has_sink: false,
                has_path: false,
                play_start_ns: None,
                elapsed_before_pause_ns: 0,
                duration_ns: 0,
                is_paused: false,
            }),
    {
        PlaybackClock {
            has_sink: false,
            has_path: false,
            play_start_ns: None,
            elapsed_before_pause_ns: 0,
            duration_ns: 0,
            is_paused: false,
        }
    }

    /// A new track was asked for at `now`: the old sink is gone; if the file
    /// could be `opened`, playback of it runs from 0. Returns `opened`.
    pub fn start(&mut self, now: u64, duration_ns: u64, opened: bool) -> (r: bool)
        ensures
            clock_wf(*old(self)) ==> clock_wf(*final(self)),
            r == opened,
            final(self).has_sink == opened,
            opened ==> *final(self) == (PlaybackClock {
                has_sink: true,
                has_path: true,
                play_start_ns: Some(now),
                elapsed_before_pause_ns: 0,
                duration_ns,
                is_paused: false,
            }),
            !opened ==> *final(self) == (PlaybackClock { has_sink: false, ..*old(self) }),
    {
        self.has_sink = false;
        if !opened {
            return false;
        }
        self.has_sink = true;
        self.has_path = true;
        self.duration_ns = duration_ns;
        self.elapsed_before_pause_ns = 0;
        self.play_start_ns = Some(now);
        self.is_paused = false;
        true
    }

    /// Pauses at `now` if a sink plays; returns whether the sink must pause.
    /// The time played so far is kept.
    pub fn pause(&mut self, now: u64) -> (r: bool)
        ensures
            clock_wf(*old(self)) ==> clock_wf(*final(self)),
            r == (old(self).has_sink && !old(self).is_paused),
            r ==> *final(self) == (PlaybackClock {
                play_start_ns: None,
                elapsed_before_pause_ns: match old(self).play_start_ns {
                    Some(start) => add_capped(
                        old(self).elapsed_before_pause_ns as nat,
                        since(now, start),
                    ),
                    None => old(self).elapsed_before_pause_ns,
                },
                is_paused: true,
                ..*old(self)
            }),
            !r ==> *final(self) == *old(self),
    {
        if self.has_sink && !self.is_paused {
            match self.play_start_ns {
                Some(start) => {
                    self.elapsed_before_pause_ns = add_cap(
                        self.elapsed_before_pause_ns,
                        elapsed(now, start),
                    );
                },
                None => {},
            }
            self.play_start_ns = None;
            self.is_paused = true;
            true
        } else {
            false
        }
    }

    /// Resumes at `now` if the sink is paused; returns whether it must play.
    pub fn resume(&mut self, now: u64) -> (r: bool)
        ensures
            clock_wf(*old(self)) ==> clock_wf(*final(self)),
            r == (old(self).has_sink && old(self).is_paused),
            r ==> *final(self) == (PlaybackClock {
                play_start_ns: Some(now),
                is_paused: false,
                ..*old(self)
            }),
            !r ==> *final(self) == *old(self),
    {
        if self.has_sink && self.is_paused {
            self.play_start_ns = Some(now);
            self.is_paused = false;
            true
        } else {
            false
        }
    }

    /// Stops: no sink, position 0, not paused.
    pub fn stop(&mut self)
        ensures
            clock_wf(*old(self)) ==> clock_wf(*final(self)),
            *final(self) == (PlaybackClock {
                has_sink: false,
                play_start_ns: None,
                elapsed_before_pause_ns: 0,
                is_paused: false,
                ..*old(self)
            }),
    {
        self.has_sink = false;
        self.play_start_ns = None;
        self.elapsed_before_pause_ns = 0;
        self.is_paused = false;
    }

    /// A seek to `target_ns` at `now`, for which the file was `reopened` (or
    /// not) into a new sink; nothing happens when no file was ever opened.
    /// The position becomes the target, and a paused player stays paused.
    /// Returns whether the new sink must start paused.
    pub fn seek(&mut self, now: u64, target_ns: u64, reopened: bool) -> (r: bool)
        ensures
            clock_wf(*old(self)) ==> clock_wf(*final(self)),
            !old(self).has_path ==> *final(self) == *old(self) && !r,
            old(self).has_path && !reopened ==> *final(self) == (PlaybackClock {
                has_sink: false,
                ..*old(self)
            }) && !r,
            old(self).has_path && reopened ==> *final(self) == (PlaybackClock {
                has_sink: true,
                elapsed_before_pause_ns: target_ns,
                play_start_ns: if old(self).is_paused {
                    None
                } else {
                    Some(now)
                },
                ..*old(self)
            }) && r == old(self).is_paused,
    {
        if !self.has_path {
            return false;
        }
        let was_paused = self.is_paused;
        self.has_sink = false;
        if !reopened {
            return false;
        }
        self.has_sink = true;
        self.elapsed_before_pause_ns = target_ns;
        self.is_paused = was_paused;
        self.play_start_ns = if !was_paused {
            Some(now)
        } else {
            None
        };
        was_paused
    }

    /// The position at `now` and whether the track has finished, given
    /// whether the sink has played everything it was given.
    pub fn tick(&self, now: u64, sink_drained: bool) -> (r: (u64, bool))
        ensures
            r.0 == position_at(*self, now),
            r.1 == finished_at(*self, now, sink_drained),
    {
        let pos = match self.play_start_ns {
            Some(start) => {
                let p = add_cap(self.elapsed_before_pause_ns, elapsed(now, start));
                if p < self.duration_ns {
                    p
                } else {
                    self.duration_ns
                }
            },
            None => self.elapsed_before_pause_ns,
        };
        let finished = self.duration_ns > 0 && pos as u128 + 300_000_000 >= self.duration_ns as u128
            && self.has_sink && sink_drained && !self.is_paused;
        (pos, finished)
    }
}

// ── Laws ────────────────────────────────────────────────────────────────────

/// While paused, the position stands still.
pub proof fn lemma_paused_still(c: PlaybackClock, t1: u64, t2: u64)
    requires
        clock_wf(c),
        c.is_paused,
    ensures
        position_at(c, t1) == position_at(c, t2),
{
}

/// Pausing at `t` and resuming at `t2` picks up, at `t2`, where playback
/// stood at `t`.
pub proof fn lemma_pause_resume_continues(c: PlaybackClock, t: u64, t2: u64)
    requires
        c.play_start_ns is Some,
    ensures
        ({
            let paused = PlaybackClock {
                play_start_ns: None,
                elapsed_before_pause_ns: add_capped(
                    c.elapsed_before_pause_ns as nat,
                    since(t, c.play_start_ns->0),
                ),
                is_paused: true,
                ..c
            };
            let resumed = PlaybackClock { play_start_ns: Some(t2), is_paused: false, ..paused };
            position_at(resumed, t2) == position_at(c, t)
        }),
{
}

/// Right after a seek that reopened the file, the position reported is the
/// target: exactly while paused, and capped at the track's length while
/// playing.
pub proof fn lemma_seek_lands(c: PlaybackClock, now: u64, target_ns: u64)
    requires
        c.has_path,
    ensures
        ({
            let sought = PlaybackClock {
                has_sink: true,
                elapsed_before_pause_ns: target_ns,
                play_start_ns: if c.is_paused {
                    None
                } else {
                    Some(now)
                },
                ..c
            };
            position_at(sought, now) == if c.is_paused || target_ns < c.duration_ns {
                target_ns
            } else {
                c.duration_ns
            }
        }),
{
}

/// While running, the reported position never passes the track's length.
pub proof fn lemma_position_bounded(c: PlaybackClock, now: u64)
    requires
        c.play_start_ns is Some,
    ensures
        position_at(c, now) <= c.duration_ns,
{
}

/// While running and short of the end, the position is the position before
/// the last start plus the time since: it moves one for one with the clock.
pub proof fn lemma_position_runs(c: PlaybackClock, now: u64)
    requires
        c.play_start_ns is Some,
        c.play_start_ns->0 <= now,
        c.elapsed_before_pause_ns + (now - c.play_start_ns->0) < c.duration_ns,
    ensures
        position_at(c, now) == c.elapsed_before_pause_ns + (now - c.play_start_ns->0),
{
}

/// A track is not finished while paused, while the sink still plays, or
/// before its last 0.3 s; it is finished once a running clock reaches its
/// end and the sink has drained.
pub proof fn lemma_finished_when(c: PlaybackClock, now: u64, drained: bool)
    ensures
        c.is_paused ==> !finished_at(c, now, drained),
        !drained ==> !finished_at(c, now, drained),
        position_at(c, now) + 300_000_000 < c.duration_ns ==> !finished_at(c, now, drained),
        c.has_sink && drained && !c.is_paused && c.duration_ns > 0 && c.play_start_ns is Some
            && c.play_start_ns->0 <= now && c.elapsed_before_pause_ns + (now - c.play_start_ns->0)
            >= c.duration_ns ==> finished_at(c, now, drained),
{
}

} // verus!
