//! The channel-multiplexed acquisition state machine.
//!
//! The machine is a pure transition function from a state and an event to a
//! successor state and the next action to perform.  The driver performs each
//! returned action on the hardware (issue a channel switch, suspend until
//! the ready line's falling edge, read the latest conversion, emit a
//! filtered value) and feeds the action's completion back as the next
//! event.  One channel cycle runs select -> ready edge -> one discarded
//! read -> `AVG_LENGTH` times (ready edge -> one stored read) -> filter ->
//! report, then moves to the other channel.  Raw readings are negated
//! before storage to match the probe polarity.  A bus fault halts the
//! machine for good.

use vstd::prelude::*;
use crate::filter::{AVG_LENGTH, average_readings, sorted_window, trimmed_mean};

verus! {

/// One of the two differential input channel pairs, in round-robin order.
#[derive(Clone, Copy, PartialEq, Eq, Structural, Debug)]
pub enum Channel {
    A0A1,
    A2A3,
}

pub open spec fn next_channel_spec(c: Channel) -> Channel {
    match c {
        Channel::A0A1 => Channel::A2A3,
        Channel::A2A3 => Channel::A0A1,
    }
}

/// The round-robin successor of a channel.
pub fn next_channel(c: Channel) -> (r: Channel)
    ensures
        r == next_channel_spec(c),
{
    match c {
        Channel::A0A1 => Channel::A2A3,
        Channel::A2A3 => Channel::A0A1,
    }
}

/// The channel sampled on the k-th completed channel cycle since startup.
pub open spec fn channel_of_cycle(k: nat) -> Channel {
    if k % 2 == 0 {
        Channel::A0A1
    } else {
        Channel::A2A3
    }
}

/// The channel sequence starts at A0A1 and strictly alternates.
pub proof fn lemma_channel_cycle_alternation(k: nat)
    ensures
        channel_of_cycle(0) == Channel::A0A1,
        channel_of_cycle(k + 1) == next_channel_spec(channel_of_cycle(k)),
        channel_of_cycle(k + 1) != channel_of_cycle(k),
{
}

/// The sample stored for a raw converter reading: the reading negated, to
/// match the physical probe polarity.
pub open spec fn stored_sample(raw: i16) -> i16 {
    (0 - raw as int) as i16
}

/// Negates a raw converter reading into its stored sample.
pub fn negate_reading(raw: i16) -> (s: i16)
    requires
        raw != i16::MIN,
    ensures
        s == stored_sample(raw),
        s as int == -(raw as int),
{
    -raw
}

/// Where the machine stands inside one channel cycle; each phase awaits the
/// completion of exactly one action.
#[derive(Clone, Copy, PartialEq, Eq, Structural, Debug)]
pub enum AcqPhase {
    /// Not started yet; awaits the start event.
    Starting,
    /// A channel switch is outstanding.
    Selecting,
    /// Awaiting the first ready edge after a channel switch.
    AwaitingReadyEdge,
    /// A read is outstanding whose value is stale and will be discarded.
    Discarding,
    /// Awaiting the ready edge before the fill read at `index`.
    AwaitingFillEdge { index: usize },
    /// A read is outstanding whose value is stored at `index`.
    Filling { index: usize },
    /// A filtered value is being reported.
    Emitting,
    /// A bus fault occurred; the machine never leaves this phase.
    Halted,
}

/// The completion of the previously returned action, fed back by the driver.
#[derive(Clone, Copy, PartialEq, Eq, Structural, Debug)]
pub enum AcqEvent {
    /// The driver is ready to run the machine.
    Start,
    /// The channel switch was issued.
    SelectDone,
    /// The ready line's falling edge occurred.
    ReadyEdge,
    /// The latest conversion was read; `raw` is the register value.
    ReadDone { raw: i16 },
    /// The filtered value was reported.
    EmitDone,
    /// A bus transaction failed; unrecoverable.
    BusFault,
}

/// What the driver must do next on the hardware.
#[derive(Clone, Copy, PartialEq, Eq, Structural, Debug)]
pub enum AcqAction {
    /// Issue a switch to the given channel; does not itself await a conversion.
    SelectChannel { channel: Channel },
    /// Suspend until the ready line's next falling edge.
    AwaitReadyEdge,
    /// Read the most recently completed conversion and feed it back.
    ReadLatest,
    /// Report the filtered value for the given channel.
    Emit { channel: Channel, value: i32 },
    /// Stop the acquisition activity for good.
    Halt,
}

/// The mathematical state of the machine.
pub struct AcqView {
    pub phase: AcqPhase,
    pub channel: Channel,
    pub window: Seq<i16>,
    pub cycles: nat,
}

/// A raw reading that the stored-sample negation can represent.
pub open spec fn event_in_range(ev: AcqEvent) -> bool {
    match ev {
        AcqEvent::ReadDone { raw } => raw != i16::MIN,
        _ => true,
    }
}

pub open spec fn view_wf(s: AcqView) -> bool {
    &&& s.window.len() == AVG_LENGTH
    &&& (s.phase matches AcqPhase::AwaitingFillEdge { index } ==> index < AVG_LENGTH)
    &&& (s.phase matches AcqPhase::Filling { index } ==> index < AVG_LENGTH)
}

/// The state the machine is constructed in: ready to start on channel A0A1
/// with a zeroed window and no completed cycles.
pub open spec fn initial_view() -> AcqView {
    AcqView {
        phase: AcqPhase::Starting,
        channel: Channel::A0A1,
        window: Seq::new(AVG_LENGTH as nat, |i: int| 0i16),
        cycles: 0,
    }
}

/// The transition function: from a state and the completion event of the
/// previous action to the successor state and the next action.  A bus
/// fault, or an event that does not complete the outstanding action, halts
/// the machine.  The reading consumed in the discard phase is dropped
/// without touching the window; each fill reading is stored negated at its
/// index; the final fill reading completes the window, which is filtered
/// (sorting it in place) and reported.
pub open spec fn acq_step_spec(s: AcqView, ev: AcqEvent) -> (AcqView, AcqAction) {
    match (s.phase, ev) {
        (_, AcqEvent::BusFault) => ((AcqView { phase: AcqPhase::Halted, ..s }), AcqAction::Halt),
        (AcqPhase::Starting, AcqEvent::Start) => (
            (AcqView { phase: AcqPhase::Selecting, ..s }),
            (AcqAction::SelectChannel { channel: s.channel }),
        ),
        (AcqPhase::Selecting, AcqEvent::SelectDone) => (
            (AcqView { phase: AcqPhase::AwaitingReadyEdge, ..s }),
            AcqAction::AwaitReadyEdge,
        ),
        (AcqPhase::AwaitingReadyEdge, AcqEvent::ReadyEdge) => (
            (AcqView { phase: AcqPhase::Discarding, ..s }),
            AcqAction::ReadLatest,
        ),
        (AcqPhase::Discarding, AcqEvent::ReadDone { .. }) => (
            (AcqView { phase: AcqPhase::AwaitingFillEdge { index: 0 }, ..s }),
            AcqAction::AwaitReadyEdge,
        ),
        (AcqPhase::AwaitingFillEdge { index }, AcqEvent::ReadyEdge) => (
            (AcqView { phase: AcqPhase::Filling { index }, ..s }),
            AcqAction::ReadLatest,
        ),
        (AcqPhase::Filling { index }, AcqEvent::ReadDone { raw }) => {
            if index < AVG_LENGTH {
                let w = s.window.update(index as int, stored_sample(raw));
                if index + 1 == AVG_LENGTH {
                    (
                        (AcqView { phase: AcqPhase::Emitting, window: sorted_window(w), ..s }),
                        (AcqAction::Emit { channel: s.channel, value: trimmed_mean(w) as i32 }),
                    )
                } else {
                    (
                        (AcqView {
                            phase: AcqPhase::AwaitingFillEdge { index: (index + 1) as usize },
                            window: w,
                            ..s
                        }),
                        AcqAction::AwaitReadyEdge,
                    )
                }
            } else {
                ((AcqView { phase: AcqPhase::Halted, ..s }), AcqAction::Halt)
            }
        },
        (AcqPhase::Emitting, AcqEvent::EmitDone) => (
            (AcqView {
                phase: AcqPhase::Selecting,
                channel: next_channel_spec(s.channel),
                cycles: s.cycles + 1,
                ..s
            }),
            (AcqAction::SelectChannel { channel: next_channel_spec(s.channel) }),
        ),
        _ => ((AcqView { phase: AcqPhase::Halted, ..s }), AcqAction::Halt),
    }
}

/// The machine announces the channel of the current cycle whenever it
/// issues a channel switch: the channel named by every `SelectChannel`
/// action is the one `channel_of_cycle` assigns to the machine's cycle
/// count, so the switches visit A0A1 and A2A3 strictly alternately.
pub open spec fn channel_tracks_cycles(s: AcqView) -> bool {
    s.channel == channel_of_cycle(s.cycles)
}

/// One transition preserves the channel/cycle correspondence, and any
/// channel switch it issues names the channel of the machine's cycle.
pub proof fn lemma_step_preserves_channel_tracking(s: AcqView, ev: AcqEvent)
    requires
        channel_tracks_cycles(s),
    ensures
        channel_tracks_cycles(acq_step_spec(s, ev).0),
        (acq_step_spec(s, ev).1 matches AcqAction::SelectChannel { channel } ==> channel
            == channel_of_cycle(acq_step_spec(s, ev).0.cycles)),
{
    lemma_channel_cycle_alternation(s.cycles);
}

/// The state after feeding a machine every event of `evs` in order,
/// starting from the freshly constructed state.
pub open spec fn run_view(evs: Seq<AcqEvent>) -> AcqView
    decreases evs.len(),
{
    if evs.len() == 0 {
        initial_view()
    } else {
        acq_step_spec(run_view(evs.drop_last()), evs.last()).0
    }
}

/// Along every possible run of the machine, the current channel is the one
/// `channel_of_cycle` assigns to the number of completed cycles; with
/// `lemma_channel_cycle_alternation` and
/// `lemma_step_preserves_channel_tracking`, the channels a run selects
/// start at A0A1 and strictly alternate.
pub proof fn lemma_run_channel_tracking(evs: Seq<AcqEvent>)
    ensures
        channel_tracks_cycles(run_view(evs)),
    decreases evs.len(),
{
    if evs.len() > 0 {
        lemma_run_channel_tracking(evs.drop_last());
        lemma_step_preserves_channel_tracking(run_view(evs.drop_last()), evs.last());
    }
}

/// The reading consumed right after a channel switch is discarded without a
/// trace: the machine leaves its window untouched, and its successor state
/// and action are the same whatever value that reading had, so a stale
/// first reading can never reach a stored window.
pub proof fn lemma_discarded_read_no_influence(s: AcqView, r1: i16, r2: i16)
    requires
        s.phase == AcqPhase::Discarding,
    ensures
        acq_step_spec(s, AcqEvent::ReadDone { raw: r1 }) == acq_step_spec(
            s,
            AcqEvent::ReadDone { raw: r2 },
        ),
        acq_step_spec(s, AcqEvent::ReadDone { raw: r1 }).0.window == s.window,
{
}

/// The state after feeding a machine every event of `evs` in order,
/// starting from the state `s`.
pub open spec fn run_from(s: AcqView, evs: Seq<AcqEvent>) -> AcqView
    decreases evs.len(),
{
    if evs.len() == 0 {
        s
    } else {
        run_from(acq_step_spec(s, evs.first()).0, evs.drop_first())
    }
}

/// The events a fill sequence delivers: one ready edge, then the read it
/// announced, for each raw reading in arrival order.
pub open spec fn fill_events(raws: Seq<i16>) -> Seq<AcqEvent>
    decreases raws.len(),
{
    if raws.len() == 0 {
        Seq::empty()
    } else {
        seq![AcqEvent::ReadyEdge, (AcqEvent::ReadDone { raw: raws.first() })] + fill_events(
            raws.drop_first(),
        )
    }
}

/// The window after storing the readings `raws`, negated, at consecutive
/// positions starting at `index`.
pub open spec fn stored_fill(w: Seq<i16>, index: int, raws: Seq<i16>) -> Seq<i16>
    decreases raws.len(),
{
    if raws.len() == 0 {
        w
    } else {
        stored_fill(w.update(index, stored_sample(raws.first())), index + 1, raws.drop_first())
    }
}

proof fn lemma_stored_fill_elems(w: Seq<i16>, index: int, raws: Seq<i16>)
    requires
        0 <= index,
        index + raws.len() <= w.len(),
    ensures
        stored_fill(w, index, raws).len() == w.len(),
        forall|j: int| 0 <= j < index ==> stored_fill(w, index, raws)[j] == w[j],
        forall|j: int|
            index <= j < index + raws.len() ==> stored_fill(w, index, raws)[j] == stored_sample(
                raws[j - index],
            ),
        forall|j: int|
            index + raws.len() <= j < w.len() ==> stored_fill(w, index, raws)[j] == w[j],
    decreases raws.len(),
{
    if raws.len() > 0 {
        let w1 = w.update(index, stored_sample(raws.first()));
        lemma_stored_fill_elems(w1, index + 1, raws.drop_first());
        assert(stored_fill(w, index, raws) == stored_fill(w1, index + 1, raws.drop_first()));
        assert forall|j: int|
            index <= j < index + raws.len() implies stored_fill(w, index, raws)[j]
            == stored_sample(raws[j - index]) by {
            if j == index {
                assert(stored_fill(w1, index + 1, raws.drop_first())[j] == w1[j]);
            } else {
                assert(stored_fill(w1, index + 1, raws.drop_first())[j] == stored_sample(
                    raws.drop_first()[j - index - 1],
                ));
                assert(raws.drop_first()[j - index - 1] == raws[j - index]);
            }
        };
        assert forall|j: int| 0 <= j < index implies stored_fill(w, index, raws)[j] == w[j] by {
            assert(stored_fill(w1, index + 1, raws.drop_first())[j] == w1[j]);
        };
        assert forall|j: int|
            index + raws.len() <= j < w.len() implies stored_fill(w, index, raws)[j] == w[j] by {
            assert(stored_fill(w1, index + 1, raws.drop_first())[j] == w1[j]);
        };
    }
}

/// Running a fill sequence from its first awaited edge stores every
/// reading, negated, at its own position and ends reporting the filtered
/// window: within one fill sequence the i-th stored sample is the reading
/// announced by the i-th ready edge.
pub proof fn lemma_fill_sequence_runs_to_emit(s: AcqView, raws: Seq<i16>)
    requires
        view_wf(s),
        1 <= raws.len() <= AVG_LENGTH,
        s.phase == (AcqPhase::AwaitingFillEdge { index: (AVG_LENGTH - raws.len()) as usize }),
    ensures
        ({
            let t = run_from(s, fill_events(raws));
            &&& t.phase == AcqPhase::Emitting
            &&& t.channel == s.channel
            &&& t.cycles == s.cycles
            &&& t.window == sorted_window(
                stored_fill(s.window, AVG_LENGTH - raws.len(), raws),
            )
        }),
    decreases raws.len(),
{
    let index = AVG_LENGTH - raws.len();
    let evs = fill_events(raws);
    let r0 = raws.first();
    let rest = raws.drop_first();
    let head: Seq<AcqEvent> = seq![AcqEvent::ReadyEdge, (AcqEvent::ReadDone { raw: r0 })];
    assert(evs == head + fill_events(rest));
    let s1 = acq_step_spec(s, AcqEvent::ReadyEdge).0;
    let s2 = acq_step_spec(s1, AcqEvent::ReadDone { raw: r0 }).0;
    assert(evs.len() >= 2);
    assert(evs.first() == AcqEvent::ReadyEdge);
    assert(evs.drop_first() =~= seq![(AcqEvent::ReadDone { raw: r0 })] + fill_events(rest));
    assert(evs.drop_first().first() == (AcqEvent::ReadDone { raw: r0 }));
    assert(evs.drop_first().drop_first() =~= fill_events(rest));
    assert(run_from(s, evs) == run_from(s1, evs.drop_first()));
    assert(run_from(s1, evs.drop_first()) == run_from(s2, evs.drop_first().drop_first()));
    assert(run_from(s, evs) == run_from(s2, fill_events(rest)));
    if raws.len() == 1 {
        assert(rest.len() == 0);
        assert(stored_fill(s.window.update(index, stored_sample(r0)), index + 1, rest)
            == s.window.update(index, stored_sample(r0)));
        assert(stored_fill(s.window, index, raws) == s.window.update(
            index,
            stored_sample(r0),
        ));
    } else {
        lemma_fill_sequence_runs_to_emit(s2, rest);
        assert(stored_fill(s.window, index, raws) == stored_fill(
            s.window.update(index, stored_sample(r0)),
            index + 1,
            rest,
        ));
    }
}

/// The full-overwrite guarantee for one channel cycle: from the discard
/// phase, the stale first reading and then `AVG_LENGTH` announced readings
/// leave the machine reporting the filtered window of exactly the negated
/// fill readings in arrival order.  Neither the discarded reading nor
/// anything the window held before can be present among the stored
/// samples.
pub proof fn lemma_cycle_window_fully_overwritten(s: AcqView, discard_raw: i16, raws: Seq<i16>)
    requires
        view_wf(s),
        s.phase == AcqPhase::Discarding,
        raws.len() == AVG_LENGTH,
    ensures
        ({
            let t = run_from(
                s,
                seq![(AcqEvent::ReadDone { raw: discard_raw })] + fill_events(raws),
            );
            &&& t.phase == AcqPhase::Emitting
            &&& t.channel == s.channel
            &&& t.cycles == s.cycles
            &&& t.window == sorted_window(
                Seq::new(AVG_LENGTH as nat, |i: int| stored_sample(raws[i])),
            )
        }),
{
    let evs = seq![(AcqEvent::ReadDone { raw: discard_raw })] + fill_events(raws);
    let s1 = acq_step_spec(s, AcqEvent::ReadDone { raw: discard_raw }).0;
    assert(evs.first() == (AcqEvent::ReadDone { raw: discard_raw }));
    assert(evs.drop_first() =~= fill_events(raws));
    assert(run_from(s, evs) == run_from(s1, fill_events(raws)));
    assert(s1.window == s.window);
    lemma_fill_sequence_runs_to_emit(s1, raws);
    lemma_stored_fill_elems(s.window, 0, raws);
    assert(stored_fill(s.window, 0, raws) =~= Seq::new(
        AVG_LENGTH as nat,
        |i: int| stored_sample(raws[i]),
    ));
}

/// The acquisition state machine, executable form.
pub struct Acquisition {
    phase: AcqPhase,
    channel: Channel,
    window: Vec<i16>,
    cycles: Ghost<nat>,
}

impl View for Acquisition {
    type V = AcqView;

    closed spec fn view(&self) -> AcqView {
        AcqView {
            phase: self.phase,
            channel: self.channel,
            window: self.window@,
            cycles: self.cycles@,
        }
    }
}

impl Acquisition {
    pub open spec fn wf(&self) -> bool {
        view_wf(self@)
    }

    /// A fresh machine, ready to start its first cycle on channel A0A1.
    pub fn new() -> (m: Acquisition)
        ensures
            m@ == initial_view(),
            m.wf(),
    {
        let window: Vec<i16> = vec![0i16; AVG_LENGTH];
        let m = Acquisition {
            phase: AcqPhase::Starting,
            channel: Channel::A0A1,
            window,
            cycles: Ghost(0nat),
        };
        proof {
            assert(m@.window =~= initial_view().window);
        }
        m
    }

    /// Advances the machine by one transition, exactly as `acq_step_spec`
    /// describes, and returns the next action for the driver to perform.
    pub fn step(&mut self, ev: AcqEvent) -> (a: AcqAction)
        requires
            old(self).wf(),
            event_in_range(ev),
        ensures
            final(self).wf(),
            (final(self)@, a) == acq_step_spec(old(self)@, ev),
    {
        let phase = self.phase;
        match (phase, ev) {
            (_, AcqEvent::BusFault) => {
                self.phase = AcqPhase::Halted;
                AcqAction::Halt
            },
            (AcqPhase::Starting, AcqEvent::Start) => {
                self.phase = AcqPhase::Selecting;
                AcqAction::SelectChannel { channel: self.channel }
            },
            (AcqPhase::Selecting, AcqEvent::SelectDone) => {
                self.phase = AcqPhase::AwaitingReadyEdge;
                AcqAction::AwaitReadyEdge
            },
            (AcqPhase::AwaitingReadyEdge, AcqEvent::ReadyEdge) => {
                self.phase = AcqPhase::Discarding;
                AcqAction::ReadLatest
            },
            (AcqPhase::Discarding, AcqEvent::ReadDone { .. }) => {
                self.phase = AcqPhase::AwaitingFillEdge { index: 0 };
                AcqAction::AwaitReadyEdge
            },
            (AcqPhase::AwaitingFillEdge { index }, AcqEvent::ReadyEdge) => {
                self.phase = AcqPhase::Filling { index };
                AcqAction::ReadLatest
            },
            (AcqPhase::Filling { index }, AcqEvent::ReadDone { raw }) => {
                let sample = negate_reading(raw);
                self.window.set(index, sample);
                if index + 1 == AVG_LENGTH {
                    let value = average_readings(&mut self.window);
                    self.phase = AcqPhase::Emitting;
                    AcqAction::Emit { channel: self.channel, value }
                } else {
                    self.phase = AcqPhase::AwaitingFillEdge { index: index + 1 };
                    AcqAction::AwaitReadyEdge
                }
            },
            (AcqPhase::Emitting, AcqEvent::EmitDone) => {
                self.channel = next_channel(self.channel);
                self.cycles = Ghost(self.cycles@ + 1);
                self.phase = AcqPhase::Selecting;
                AcqAction::SelectChannel { channel: self.channel }
            },
            _ => {
                self.phase = AcqPhase::Halted;
                AcqAction::Halt
            },
        }
    }
}

} // verus!
