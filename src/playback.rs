//! The playback driver's cursor: walks a trajectory of samples frame by
//! frame, wraps round to the first sample after the last, and consults the
//! stop signal only at the start of each pass.
use vstd::arithmetic::div_mod::{lemma_add_mod_noop, lemma_mod_self_0, lemma_small_mod};
use vstd::prelude::*;

verus! {

/// What the driver does on one frame.
#[derive(Debug, Clone, Copy, PartialEq, Eq, Structural)]
pub enum Action {
    /// Present the sample at this index.
    Present(usize),
    /// The trajectory is empty: nothing to present this frame.
    Idle,
    /// The stop signal was seen at the start of a pass: playback ends.
    Stop,
}

/// The cursor as a mathematical value: the number of samples and the index
/// of the next one to present.
pub struct PlaybackView {
    pub len: nat,
    pub cursor: nat,
}

pub open spec fn start(len: nat) -> PlaybackView {
    PlaybackView { len, cursor: 0 }
}

/// One frame: the state after it and the action taken. The stop signal
/// counts only when the cursor stands at the first sample.
pub open spec fn step(v: PlaybackView, stop_requested: bool) -> (PlaybackView, Action) {
    if v.cursor == 0 && stop_requested {
        (v, Action::Stop)
    } else if v.len == 0 {
        (v, Action::Idle)
    } else {
        (PlaybackView { len: v.len, cursor: (v.cursor + 1) % v.len }, Action::Present(v.cursor as usize))
    }
}

/// The state after `k` frames in which no stop was requested.
pub open spec fn run(v: PlaybackView, k: nat) -> PlaybackView
    decreases k,
{
    if k == 0 {
        v
    } else {
        step(run(v, (k - 1) as nat), false).0
    }
}

/// The action of frame `k` (counted from 0) when no stop is requested.
pub open spec fn frame_action(v: PlaybackView, k: nat) -> Action {
    step(run(v, k), false).1
}

/// Cyclic playback over a trajectory of `len` samples: with no stop
/// requested, frame `k` presents sample `k mod len`. So once all samples
/// have been presented the next frame presents sample 0 again, and the
/// sequence of frames repeats with period `len` indefinitely.
pub proof fn lemma_cyclic_playback(len: usize, k: nat)
    requires
        len > 0,
    ensures
        run(start(len as nat), k).cursor == k % (len as nat),
        frame_action(start(len as nat), k) == Action::Present((k % (len as nat)) as usize),
        frame_action(start(len as nat), (k + len) as nat) == frame_action(start(len as nat), k),
        frame_action(start(len as nat), len as nat) == Action::Present(0),
{
    let n = len as nat;
    lemma_run_cursor(n, k);
    lemma_run_cursor(n, (k + n) as nat);
    lemma_run_cursor(n, n);
    lemma_mod_self_0(n as int);
    lemma_small_mod(k % n, n);
    lemma_add_mod_noop(k as int, n as int, n as int);
}

proof fn lemma_run_cursor(n: nat, k: nat)
    requires
        n > 0,
    ensures
        run(start(n), k).len == n,
        run(start(n), k).cursor == k % n,
    decreases k,
{
    if k == 0 {
        lemma_small_mod(0, n);
    } else {
        let j = (k - 1) as nat;
        lemma_run_cursor(n, j);
        lemma_add_mod_noop(j as int, 1, n as int);
        if n == 1 {
            lemma_small_mod(0, 1);
            assert(k % 1 == 0);
        } else {
            lemma_small_mod(1, n);
            assert((j % n) as int + 1 == (j % n) + (1int % (n as int)));
        }
    }
}

/// The driver's cursor over a trajectory of a fixed number of samples.
pub struct Playback {
    len: usize,
    cursor: usize,
}

impl View for Playback {
    type V = PlaybackView;

    closed spec fn view(&self) -> PlaybackView {
        PlaybackView { len: self.len as nat, cursor: self.cursor as nat }
    }
}

impl Playback {
    #[verifier::type_invariant]
    closed spec fn cursor_in_range(&self) -> bool {
        if self.len == 0 {
            self.cursor == 0
        } else {
            self.cursor < self.len
        }
    }

    /// A cursor at the first of `len` samples.
    pub fn new(len: usize) -> (p: Playback)
        ensures
            p@ == start(len as nat),
    {
        Playback { len, cursor: 0 }
    }

    /// Number of samples walked.
    pub fn len(&self) -> (n: usize)
        ensures
            n == self@.len,
    {
        self.len
    }

    /// Index of the next sample to present.
    pub fn cursor(&self) -> (c: usize)
        ensures
            c == self@.cursor,
    {
        self.cursor
    }

    /// Whether the next frame starts a pass, the one frame at which the stop
    /// signal is consulted.
    pub fn at_pass_start(&self) -> (b: bool)
        ensures
            b == (self@.cursor == 0),
    {
        self.cursor == 0
    }

    /// Takes one frame: stops if `stop_requested` at the start of a pass,
    /// else presents the next sample and moves on, wrapping after the last.
    pub fn next_action(&mut self, stop_requested: bool) -> (a: Action)
        ensures
            (final(self)@, a) == step(old(self)@, stop_requested),
    {
        proof {
            use_type_invariant(&*self);
        }
        if self.cursor == 0 && stop_requested {
            Action::Stop
        } else if self.len == 0 {
            Action::Idle
        } else {
            let shown = self.cursor;
            self.cursor = if shown + 1 == self.len {
                0
            } else {
                shown + 1
            };
            proof {
                if shown + 1 < self.len {
                    lemma_small_mod((shown + 1) as nat, self.len as nat);
                } else {
                    lemma_mod_self_0(self.len as int);
                }
            }
            Action::Present(shown)
        }
    }
}

} // verus!
