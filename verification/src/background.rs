//! The debounced update loop's decision core.
//!
//! The loop itself runs on a background thread: it receives raw file-change
//! signals, sleeps, reads the source document and sends events. Every
//! decision it takes stands here as a pure transition on an explicit state,
//! so the debouncing behaviour is a proved property, not a habit of the
//! thread: a burst of raw signals collapses into a single render.

use crate::markdown::{render, spec_render};
use crate::ui::Event;
use vstd::prelude::*;

verus! {

/// The quiet period: a re-render is emitted only once this many
/// milliseconds have passed with no further change signal.
pub const DEBOUNCE_MS: u64 = 200;

/// The state of the debounced update loop.
pub struct UpdateLoop {
    /// The time (in milliseconds) at which the pending burst of change
    /// signals will have quiesced, if any change is pending.
    pub deadline: Option<u64>,
    /// Whether the source document is still being watched; cleared when the
    /// document is permanently gone.
    pub watching: bool,
}

/// The state the loop starts in: watching, nothing pending.
pub open spec fn spec_init() -> UpdateLoop {
    UpdateLoop { deadline: None, watching: true }
}

/// The state after a raw change signal at time `now_ms`: the quiet period
/// restarts, so rapid successive signals keep one single deadline alive.
pub open spec fn spec_after_change(w: UpdateLoop, now_ms: u64) -> UpdateLoop {
    if w.watching {
        UpdateLoop { deadline: Some((now_ms + DEBOUNCE_MS) as u64), watching: w.watching }
    } else {
        w
    }
}

/// Whether a timer poll at time `now_ms` fires a re-render: only when a
/// change is pending and its quiet period has elapsed.
pub open spec fn spec_poll_fires(w: UpdateLoop, now_ms: u64) -> bool {
    &&& w.watching
    &&& w.deadline matches Some(d) && now_ms >= d
}

/// The state after a timer poll at time `now_ms`: a firing poll consumes
/// the pending change.
pub open spec fn spec_after_poll(w: UpdateLoop, now_ms: u64) -> UpdateLoop {
    if spec_poll_fires(w, now_ms) {
        UpdateLoop { deadline: None, watching: w.watching }
    } else {
        w
    }
}

impl UpdateLoop {
    pub fn new() -> (w: UpdateLoop)
        ensures
            w == spec_init(),
    {
        UpdateLoop { deadline: None, watching: true }
    }

    /// A raw change signal at time `now_ms` restarts the quiet period
    /// instead of rendering at once.
    pub fn note_change(&mut self, now_ms: u64)
        requires
            now_ms <= u64::MAX - DEBOUNCE_MS,
        ensures
            *final(self) == spec_after_change(*old(self), now_ms),
    {
        if self.watching {
            self.deadline = Some(now_ms + DEBOUNCE_MS);
        }
    }

    /// A timer poll at time `now_ms`; the result says whether the pending
    /// burst has quiesced, so that exactly one re-render follows it.
    pub fn poll(&mut self, now_ms: u64) -> (fire: bool)
        ensures
            fire == spec_poll_fires(*old(self), now_ms),
            *final(self) == spec_after_poll(*old(self), now_ms),
    {
        if self.watching {
            match self.deadline {
                Some(d) => {
                    if now_ms >= d {
                        self.deadline = None;
                        true
                    } else {
                        false
                    }
                },
                None => false,
            }
        } else {
            false
        }
    }

    /// The decision after a fired poll, once the caller has re-read the
    /// source document.
    ///
    /// Fresh content is rendered and becomes the burst's one `LoadHtml`
    /// event. A transient read failure (an editor briefly replacing the
    /// file) yields no event and keeps watching, so the next change signal
    /// retries; a permanently gone source yields no event and stops the
    /// watch. Either failure is terminal for this cycle alone: the last
    /// good page stays displayed and nothing crashes.
    pub fn render_outcome(&mut self, read: SourceRead) -> (ev: Option<Event>)
        ensures
            final(self).deadline == old(self).deadline,
            final(self).watching == (old(self).watching && !(read is Gone)),
            match read {
                SourceRead::Content(c) => ev matches Some(e) && e matches Event::LoadHtml(h)
                    && h@ == spec_render(c@),
                SourceRead::TransientFailure => ev is None,
                SourceRead::Gone => ev is None,
            },
    {
        match read {
            SourceRead::Content(c) => Some(Event::LoadHtml(render(c.as_str()))),
            SourceRead::TransientFailure => None,
            SourceRead::Gone => {
                self.watching = false;
                None
            },
        }
    }
}

/// What re-reading the source document after a fired poll came to; the
/// caller performs the read and classifies its failure.
pub enum SourceRead {
    /// The document's current content.
    Content(String),
    /// The read failed but the document may come back (it was mid-save).
    TransientFailure,
    /// The document is permanently gone.
    Gone,
}

/// One input to the update loop, as the spec-level timeline sees it: a raw
/// change signal or a timer poll, each at a time in milliseconds.
pub enum WatchInput {
    Change(u64),
    Poll(u64),
}

pub open spec fn input_time(ev: WatchInput) -> u64 {
    match ev {
        WatchInput::Change(t) => t,
        WatchInput::Poll(t) => t,
    }
}

/// One spec-level step of the loop; the second component says whether this
/// input fired a re-render.
pub open spec fn spec_step(w: UpdateLoop, ev: WatchInput) -> (UpdateLoop, bool) {
    match ev {
        WatchInput::Change(t) => (spec_after_change(w, t), false),
        WatchInput::Poll(t) => (spec_after_poll(w, t), spec_poll_fires(w, t)),
    }
}

/// The state after running the loop over a whole input timeline.
pub open spec fn run_state(w: UpdateLoop, evs: Seq<WatchInput>) -> UpdateLoop
    decreases evs.len(),
{
    if evs.len() == 0 {
        w
    } else {
        run_state(spec_step(w, evs[0]).0, evs.skip(1))
    }
}

/// How many re-renders a whole input timeline fires.
pub open spec fn run_fires(w: UpdateLoop, evs: Seq<WatchInput>) -> nat
    decreases evs.len(),
{
    if evs.len() == 0 {
        0
    } else {
        (if spec_step(w, evs[0]).1 {
            1nat
        } else {
            0nat
        }) + run_fires(spec_step(w, evs[0]).0, evs.skip(1))
    }
}

proof fn lemma_run_split(w: UpdateLoop, a: Seq<WatchInput>, b: Seq<WatchInput>)
    ensures
        run_state(w, a + b) == run_state(run_state(w, a), b),
        run_fires(w, a + b) == run_fires(w, a) + run_fires(run_state(w, a), b),
    decreases a.len(),
{
    if a.len() == 0 {
        assert(a + b =~= b);
    } else {
        assert((a + b)[0] == a[0]);
        assert((a + b).skip(1) =~= a.skip(1) + b);
        lemma_run_split(spec_step(w, a[0]).0, a.skip(1), b);
    }
}

proof fn lemma_changes_fire_nothing(w: UpdateLoop, evs: Seq<WatchInput>)
    requires
        w.watching,
        evs.len() > 0,
        forall|i: int| 0 <= i < evs.len() ==> evs[i] is Change,
        forall|i: int| 0 <= i < evs.len() ==> input_time(#[trigger] evs[i]) <= u64::MAX
            - DEBOUNCE_MS,
    ensures
        run_fires(w, evs) == 0,
        run_state(w, evs) == (UpdateLoop {
            deadline: Some((input_time(evs.last()) + DEBOUNCE_MS) as u64),
            watching: true,
        }),
    decreases evs.len(),
{
    let w2 = spec_step(w, evs[0]).0;
    assert(w2.watching);
    assert(!spec_step(w, evs[0]).1);
    assert(run_fires(w, evs) == run_fires(w2, evs.skip(1)));
    assert(run_state(w, evs) == run_state(w2, evs.skip(1)));
    if evs.len() == 1 {
        assert(evs.skip(1).len() == 0);
        assert(run_fires(w2, evs.skip(1)) == 0);
        assert(run_state(w2, evs.skip(1)) == w2);
        assert(evs.last() == evs[0]);
        assert(w2 == spec_after_change(w, input_time(evs[0])));
    } else {
        assert forall|i: int| 0 <= i < evs.skip(1).len() implies evs.skip(1)[i] is Change by {
            assert(evs.skip(1)[i] == evs[i + 1]);
        }
        assert forall|i: int| 0 <= i < evs.skip(1).len() implies input_time(
            #[trigger] evs.skip(1)[i],
        ) <= u64::MAX - DEBOUNCE_MS by {
            assert(evs.skip(1)[i] == evs[i + 1]);
        }
        lemma_changes_fire_nothing(w2, evs.skip(1));
        assert(evs.skip(1).last() == evs.last());
    }
}

proof fn lemma_no_deadline_polls_fire_nothing(w: UpdateLoop, evs: Seq<WatchInput>)
    requires
        w.deadline is None,
        forall|i: int| 0 <= i < evs.len() ==> evs[i] is Poll,
    ensures
        run_fires(w, evs) == 0,
    decreases evs.len(),
{
    if evs.len() > 0 {
        assert(!spec_poll_fires(w, input_time(evs[0])));
        assert(spec_step(w, evs[0]).0 == w);
        assert forall|i: int| 0 <= i < evs.skip(1).len() implies evs.skip(1)[i] is Poll by {
            assert(evs.skip(1)[i] == evs[i + 1]);
        }
        lemma_no_deadline_polls_fire_nothing(w, evs.skip(1));
    }
}

proof fn lemma_polls_fire_once(w: UpdateLoop, evs: Seq<WatchInput>, d: u64)
    requires
        w.watching,
        w.deadline == Some(d),
        evs.len() > 0,
        forall|i: int| 0 <= i < evs.len() ==> evs[i] is Poll,
        input_time(evs.last()) >= d,
    ensures
        run_fires(w, evs) == 1,
    decreases evs.len(),
{
    let t0 = input_time(evs[0]);
    assert forall|i: int| 0 <= i < evs.skip(1).len() implies evs.skip(1)[i] is Poll by {
        assert(evs.skip(1)[i] == evs[i + 1]);
    }
    if t0 >= d {
        let w2 = spec_step(w, evs[0]).0;
        assert(spec_poll_fires(w, t0));
        assert(w2.deadline is None);
        lemma_no_deadline_polls_fire_nothing(w2, evs.skip(1));
    } else {
        assert(!spec_poll_fires(w, t0));
        assert(spec_step(w, evs[0]).0 == w);
        if evs.len() == 1 {
            assert(input_time(evs.last()) == t0);
            assert(false);
        }
        assert(evs.skip(1).last() == evs.last());
        lemma_polls_fire_once(w, evs.skip(1), d);
    }
}

/// Law: debouncing collapses a burst. From a quiet watching state, a run of
/// change signals that all arrive within one debounce window of the first,
/// followed by timer polls of which the last comes once the quiet period
/// after the final signal has elapsed, fires exactly one re-render — not
/// one per signal.
pub proof fn lemma_debounce_collapses(w: UpdateLoop, evs: Seq<WatchInput>, n: int)
    requires
        w.watching,
        w.deadline is None,
        0 < n < evs.len(),
        forall|i: int| 0 <= i < n ==> evs[i] is Change,
        forall|i: int| n <= i < evs.len() ==> evs[i] is Poll,
        forall|i: int| 0 <= i < evs.len() ==> input_time(#[trigger] evs[i]) <= u64::MAX
            - DEBOUNCE_MS,
        forall|i: int| 0 <= i < n ==> input_time(#[trigger] evs[i]) < input_time(evs[0])
            + DEBOUNCE_MS,
        input_time(evs.last()) >= input_time(evs[n - 1]) + DEBOUNCE_MS,
    ensures
        run_fires(w, evs) == 1,
{
    let changes = evs.take(n);
    let polls = evs.skip(n);
    assert(evs =~= changes + polls);
    assert forall|i: int| 0 <= i < changes.len() implies changes[i] is Change by {
        assert(changes[i] == evs[i]);
    }
    assert forall|i: int| 0 <= i < changes.len() implies input_time(#[trigger] changes[i])
        <= u64::MAX - DEBOUNCE_MS by {
        assert(changes[i] == evs[i]);
    }
    assert forall|i: int| 0 <= i < polls.len() implies polls[i] is Poll by {
        assert(polls[i] == evs[n + i]);
    }
    lemma_changes_fire_nothing(w, changes);
    let mid = run_state(w, changes);
    assert(changes.last() == evs[n - 1]);
    let d = (input_time(evs[n - 1]) + DEBOUNCE_MS) as u64;
    assert(mid.deadline == Some(d));
    assert(polls.last() == evs.last());
    lemma_polls_fire_once(mid, polls, d);
    lemma_run_split(w, changes, polls);
}

} // verus!
