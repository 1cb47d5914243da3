//! The waiting indicator of one outstanding request: a frame activity that
//! cycles the spinner's frames, a paint activity that draws the current frame
//! with the elapsed time, and their cancellation, as a state machine whose
//! actions the caller performs.
use vstd::prelude::*;
use std::collections::HashMap;
use std::time::Duration;
use rand::Rng;

verus! {

/// A named glyph animation: the frames, shown `interval` milliseconds apart.
#[derive(Clone, Debug)]
pub struct Spinner {
    pub interval: u32,
    pub frames: Vec<String>,
}

/// The spinner catalog, keyed by name.
#[derive(Clone, Debug)]
pub struct Spinners {
    pub spinners: HashMap<String, Spinner>,
}

/// Why a spinner catalog cannot be used.
#[derive(Clone, Copy, Debug, PartialEq, Eq, Structural)]
pub enum SetupError {
    /// The catalog holds no spinner.
    EmptyCatalog,
    /// The spinner at this position has no frames.
    NoFrames(usize),
    /// The spinner at this position has a zero interval.
    ZeroInterval(usize),
}

/// A spinner that can be animated: at least one frame and a positive interval.
pub open spec fn spinner_ok(s: Spinner) -> bool {
    s.frames@.len() > 0 && s.interval > 0
}

/// The first spinner in `v` that cannot be animated, if any.
pub open spec fn first_bad_spinner(v: Seq<Spinner>, i: int) -> Option<int>
    decreases v.len() - i,
{
    if 0 <= i < v.len() {
        if !spinner_ok(v[i]) {
            Some(i)
        } else {
            first_bad_spinner(v, i + 1)
        }
    } else {
        None
    }
}

/// What checking a catalog gives: it is refused when empty, or at its first
/// spinner without frames or with a zero interval.
pub open spec fn catalog_check(v: Seq<Spinner>) -> Result<(), SetupError> {
    if v.len() == 0 {
        Err(SetupError::EmptyCatalog)
    } else {
        match first_bad_spinner(v, 0) {
            Some(i) => if v[i].frames@.len() == 0 {
                Err(SetupError::NoFrames(i as usize))
            } else {
                Err(SetupError::ZeroInterval(i as usize))
            },
            None => Ok(()),
        }
    }
}

proof fn lemma_first_bad_none(v: Seq<Spinner>, i: int)
    requires
        0 <= i <= v.len(),
        first_bad_spinner(v, i) is None,
    ensures
        forall|k: int| i <= k < v.len() ==> spinner_ok(#[trigger] v[k]),
    decreases v.len() - i,
{
    if i < v.len() {
        lemma_first_bad_none(v, i + 1);
    }
}

/// Checks the spinner catalog once, when a session is set up, so that no turn
/// meets an empty catalog or a spinner that cannot be animated.
pub fn check_catalog(catalog: &Vec<Spinner>) -> (r: Result<(), SetupError>)
    ensures
        r == catalog_check(catalog@),
        r is Ok <==> catalog@.len() > 0 && forall|k: int| 0 <= k < catalog@.len() ==> spinner_ok(#[trigger] catalog@[k]),
{
    if catalog.len() == 0 {
        return Err(SetupError::EmptyCatalog);
    }
    let mut i: usize = 0;
    while i < catalog.len()
        invariant
            0 < catalog@.len(),
            i <= catalog@.len(),
            first_bad_spinner(catalog@, i as int) == first_bad_spinner(catalog@, 0),
            forall|k: int| 0 <= k < i ==> spinner_ok(#[trigger] catalog@[k]),
        decreases catalog.len() - i,
    {
        let s = &catalog[i];
        if s.frames.len() == 0 {
            return Err(SetupError::NoFrames(i));
        }
        if s.interval == 0 {
            return Err(SetupError::ZeroInterval(i));
        }
        i = i + 1;
    }
    proof {
        lemma_first_bad_none(catalog@, 0);
    }
    Ok(())
}

/// Relies on `rand::thread_rng` and `Rng::gen_range`: an index drawn below `n`.
#[verifier::external_body]
fn random_below(n: usize) -> (r: usize)
    requires
        n > 0,
    ensures
        r < n,
{
    rand::thread_rng().gen_range(0..n)
}

/// Draws the position of the spinner for a turn, at random.
pub fn choose_spinner(catalog: &Vec<Spinner>) -> (r: usize)
    requires
        catalog@.len() > 0,
    ensures
        r < catalog@.len(),
{
    random_below(catalog.len())
}

/// The period of the paint activity: the longer of the spinner's interval and
/// the colour-cycle delay, in milliseconds.
pub fn paint_period(interval: u32, rainbow_delay: u64) -> (r: u64)
    ensures
        r == if (interval as u64) < rainbow_delay { rainbow_delay } else { interval as u64 },
{
    if (interval as u64) < rainbow_delay {
        rainbow_delay
    } else {
        interval as u64
    }
}

/// The dots that follow the spinner frame, shown in turn.
pub open spec fn dots_of(i: int) -> Seq<char> {
    if i == 0 { ".    "@ } else if i == 1 { "..   "@ } else if i == 2 { "...  "@ }
    else if i == 3 { ".... "@ } else if i == 4 { "....."@ } else if i == 5 { " ...."@ }
    else if i == 6 { "  ..."@ } else if i == 7 { "   .."@ } else if i == 8 { "    ."@ }
    else { "     "@ }
}

/// The dots frame shown at paint `tick`.
pub fn dots_frame(tick: u64) -> (r: &'static str)
    ensures
        r@ == dots_of((tick % 10) as int),
{
    let i = tick % 10;
    if i == 0 { ".    " } else if i == 1 { "..   " } else if i == 2 { "...  " }
    else if i == 3 { ".... " } else if i == 4 { "....." } else if i == 5 { " ...." }
    else if i == 6 { "  ..." } else if i == 7 { "   .." } else if i == 8 { "    ." }
    else { "     " }
}

/// The unit label for an elapsed time in nanoseconds: under a second "ms",
/// under a minute "s", under an hour "m", else "h".
pub open spec fn suffix_for_nanos(n: int) -> Seq<char> {
    if n < 1_000_000_000 {
        "ms"@
    } else if n < 60_000_000_000 {
        "s"@
    } else if n < 3_600_000_000_000 {
        "m"@
    } else {
        "h"@
    }
}

/// The unit label for an elapsed time given in nanoseconds.
pub fn time_suffix(nanos: u128) -> (r: &'static str)
    ensures
        r@ == suffix_for_nanos(nanos as int),
{
    if nanos < 1_000_000_000 {
        "ms"
    } else if nanos < 60_000_000_000 {
        "s"
    } else if nanos < 3_600_000_000_000 {
        "m"
    } else {
        "h"
    }
}

/// The whole nanoseconds of a duration, as `Duration::as_nanos` gives them.
pub uninterp spec fn nanos_of(d: Duration) -> u128;

/// Relies on `Duration::as_nanos`: the whole nanoseconds of a duration, which
/// depend on the duration alone.
pub assume_specification[ Duration::as_nanos ](d: &Duration) -> (r: u128)
    ensures
        r == nanos_of(*d),
;

/// The unit label for an elapsed time, chosen by whole seconds, minutes and hours.
pub fn get_time_suffix(elapsed: &Duration) -> (r: &'static str)
    ensures
        r@ == suffix_for_nanos(nanos_of(*elapsed) as int),
{
    let n = elapsed.as_nanos();
    time_suffix(n)
}

/// Where a turn's animation stands.
#[derive(Clone, Copy, Debug, PartialEq, Eq, Structural)]
pub enum Phase {
    /// Created; the activities are not running yet.
    Idle,
    /// Both activities run.
    Running,
    /// Cancellation has been signalled; the activities are being joined.
    Cancelling,
    /// Over; nothing more happens.
    Stopped,
}

/// What happens to the animation.
#[derive(Clone, Copy, Debug, PartialEq, Eq, Structural)]
pub enum Event {
    /// The request went out: start animating.
    Start,
    /// The frame activity's timer fired.
    FrameTick,
    /// The paint activity's timer fired.
    PaintTick,
    /// The response arrived (or the request failed): stop animating.
    Cancel,
    /// Both activities have ended; `cancelled` tells whether both ended by cancellation.
    Joined { cancelled: bool },
}

/// What the paint activity draws: the frame, the dots and the colour phase.
#[derive(Clone, Copy, Debug, PartialEq, Eq, Structural)]
pub struct PaintFrame {
    pub frame: usize,
    pub dots: u64,
    pub tick: u64,
}

/// What the caller is to do.
#[derive(Clone, Copy, Debug, PartialEq, Eq, Structural)]
pub enum Action {
    /// Nothing.
    Nothing,
    /// Launch the two activities.
    Launch,
    /// Make this frame the current one.
    ShowFrame(usize),
    /// Draw the line: cursor to column 0, colour, frame, dots, elapsed time, clear to the end.
    Paint(PaintFrame),
    /// Signal both activities to stop.
    StopActivities,
    /// Show the cursor, reset the colour and clear the rest of the line.
    Normalize,
    /// An activity ended other than by cancellation: a fatal error.
    Fault,
}

/// The animation of one turn.
#[derive(Clone, Copy, Debug, PartialEq, Eq, Structural)]
pub struct Animation {
    pub phase: Phase,
    /// The number of frames of the spinner.
    pub frame_count: usize,
    /// The current frame.
    pub frame: usize,
    /// The number of paints so far, which drives the colour cycle.
    pub tick: u64,
}

impl Animation {
    /// The frame is one of the spinner's.
    pub open spec fn wf(self) -> bool {
        self.frame_count > 0 && self.frame < self.frame_count
    }

    /// A new animation over `frame_count` frames, at the first one.
    pub fn new(frame_count: usize) -> (r: Animation)
        requires
            frame_count > 0,
        ensures
            r == (Animation { phase: Phase::Idle, frame_count, frame: 0, tick: 0 }),
            r.wf(),
    {
        Animation { phase: Phase::Idle, frame_count, frame: 0, tick: 0 }
    }

    /// The state and action that follow an event.
    pub open spec fn next(self, e: Event) -> (Animation, Action) {
        match (self.phase, e) {
            (Phase::Idle, Event::Start) => (Animation { phase: Phase::Running, ..self }, Action::Launch),
            (Phase::Running, Event::FrameTick) => {
                let f = ((self.frame + 1) % (self.frame_count as int)) as usize;
                (Animation { frame: f, ..self }, Action::ShowFrame(f))
            },
            (Phase::Running, Event::PaintTick) => {
                let t = if self.tick == u64::MAX { 0 } else { (self.tick + 1) as u64 };
                (
                    Animation { tick: t, ..self },
                    Action::Paint(PaintFrame { frame: self.frame, dots: self.tick % 10, tick: self.tick }),
                )
            },
            (Phase::Running, Event::Cancel) => (Animation { phase: Phase::Cancelling, ..self }, Action::StopActivities),
            (Phase::Running, Event::Joined { cancelled: _ }) => (Animation { phase: Phase::Stopped, ..self }, Action::Fault),
            (Phase::Cancelling, Event::Joined { cancelled }) => (
                Animation { phase: Phase::Stopped, ..self },
                if cancelled { Action::Normalize } else { Action::Fault },
            ),
            _ => (self, Action::Nothing),
        }
    }

    /// Applies an event and returns the action to perform.
    pub fn step(&mut self, e: Event) -> (act: Action)
        requires
            old(self).wf(),
        ensures
            (*final(self), act) == old(self).next(e),
            final(self).wf(),
    {
        match (self.phase, e) {
            (Phase::Idle, Event::Start) => {
                self.phase = Phase::Running;
                Action::Launch
            },
            (Phase::Running, Event::FrameTick) => {
                let f = (self.frame + 1) % self.frame_count;
                self.frame = f;
                Action::ShowFrame(f)
            },
            (Phase::Running, Event::PaintTick) => {
                let p = PaintFrame { frame: self.frame, dots: self.tick % 10, tick: self.tick };
                self.tick = if self.tick == u64::MAX { 0 } else { self.tick + 1 };
                Action::Paint(p)
            },
            (Phase::Running, Event::Cancel) => {
                self.phase = Phase::Cancelling;
                Action::StopActivities
            },
            (Phase::Running, Event::Joined { cancelled: _ }) => {
                self.phase = Phase::Stopped;
                Action::Fault
            },
            (Phase::Cancelling, Event::Joined { cancelled }) => {
                self.phase = Phase::Stopped;
                if cancelled { Action::Normalize } else { Action::Fault }
            },
            _ => Action::Nothing,
        }
    }
}

/// The actions that a sequence of events brings about.
pub open spec fn run(a: Animation, evs: Seq<Event>) -> Seq<Action>
    decreases evs.len(),
{
    if evs.len() == 0 {
        Seq::empty()
    } else {
        let (b, act) = a.next(evs[0]);
        seq![act] + run(b, evs.drop_first())
    }
}

/// An action that changes what is shown while waiting.
pub open spec fn is_update(act: Action) -> bool {
    act is ShowFrame || act is Paint
}

/// An action that ends the turn's terminal handling.
pub open spec fn is_final(act: Action) -> bool {
    act is Normalize || act is Fault
}

/// How many actions end the turn's terminal handling.
pub open spec fn count_final(acts: Seq<Action>) -> nat
    decreases acts.len(),
{
    if acts.len() == 0 {
        0
    } else {
        (if is_final(acts[0]) { 1nat } else { 0nat }) + count_final(acts.drop_first())
    }
}

/// Some event of `evs` reports the activities joined.
pub open spec fn has_join(evs: Seq<Event>) -> bool {
    exists|i: int| 0 <= i < evs.len() && #[trigger] evs[i] is Joined
}

proof fn lemma_run_stopped(a: Animation, evs: Seq<Event>)
    requires
        a.phase == Phase::Stopped,
    ensures
        run(a, evs).len() == evs.len(),
        forall|i: int| 0 <= i < evs.len() ==> #[trigger] run(a, evs)[i] == Action::Nothing,
        count_final(run(a, evs)) == 0,
    decreases evs.len(),
{
    if evs.len() > 0 {
        lemma_run_stopped(a, evs.drop_first());
        let r = run(a, evs);
        assert(r.drop_first() =~= run(a, evs.drop_first()));
        assert forall|i: int| 0 <= i < evs.len() implies #[trigger] r[i] == Action::Nothing by {
            if i > 0 {
                assert(r[i] == run(a, evs.drop_first())[i - 1]);
            }
        }
    }
}

proof fn lemma_run_cancelling(a: Animation, evs: Seq<Event>)
    requires
        a.phase == Phase::Cancelling,
    ensures
        run(a, evs).len() == evs.len(),
        forall|i: int| 0 <= i < evs.len() ==> !is_update(#[trigger] run(a, evs)[i]),
        count_final(run(a, evs)) == if has_join(evs) { 1nat } else { 0nat },
    decreases evs.len(),
{
    if evs.len() > 0 {
        let (b, act) = a.next(evs[0]);
        let rest = evs.drop_first();
        let r = run(a, evs);
        assert(r.drop_first() =~= run(b, rest));
        if evs[0] is Joined {
            lemma_run_stopped(b, rest);
            assert(has_join(evs));
            assert forall|i: int| 0 <= i < evs.len() implies !is_update(#[trigger] r[i]) by {
                if i > 0 {
                    assert(r[i] == run(b, rest)[i - 1]);
                }
            }
        } else {
            assert(b == a);
            lemma_run_cancelling(a, rest);
            assert(has_join(evs) == has_join(rest)) by {
                if has_join(evs) {
                    let i = choose|i: int| 0 <= i < evs.len() && #[trigger] evs[i] is Joined;
                    assert(rest[i - 1] is Joined);
                }
                if has_join(rest) {
                    let i = choose|i: int| 0 <= i < rest.len() && #[trigger] rest[i] is Joined;
                    assert(evs[i + 1] is Joined);
                }
            }
            assert forall|i: int| 0 <= i < evs.len() implies !is_update(#[trigger] r[i]) by {
                if i > 0 {
                    assert(r[i] == run(a, rest)[i - 1]);
                }
            }
        }
    } else {
        assert(!has_join(evs));
    }
}

/// Once a running animation is cancelled, whatever events follow bring no
/// further frame or paint update, and the terminal is put back in order (or a
/// fault reported) exactly once, when the activities are joined; before that, never.
pub proof fn law_cancel_stops_updates(a: Animation, evs: Seq<Event>)
    requires
        a.phase == Phase::Running,
    ensures
        a.next(Event::Cancel).1 == Action::StopActivities,
        forall|i: int| 0 <= i < evs.len() ==> !is_update(#[trigger] run(a.next(Event::Cancel).0, evs)[i]),
        count_final(run(a.next(Event::Cancel).0, evs)) == if has_join(evs) { 1nat } else { 0nat },
{
    lemma_run_cancelling(a.next(Event::Cancel).0, evs);
}

} // verus!
