use adc_sampler::acquisition::{next_channel, negate_reading, AcqAction, AcqEvent, Acquisition, Channel};
use adc_sampler::filter::AVG_LENGTH;

/// Drives the machine through one full channel cycle: the discarded read
/// returns `discard_raw`, the i-th stored read returns `fill_raws[i]`.
/// Returns the channel switch action that opened the cycle and the emitted
/// value that closed it.
fn run_one_cycle(m: &mut Acquisition, start: AcqEvent, discard_raw: i16, fill_raws: &[i16]) -> (AcqAction, i32) {
    assert_eq!(fill_raws.len(), AVG_LENGTH);
    let select = m.step(start);
    assert!(matches!(select, AcqAction::SelectChannel { .. }));
    let a = m.step(AcqEvent::SelectDone);
    assert_eq!(a, AcqAction::AwaitReadyEdge);
    let a = m.step(AcqEvent::ReadyEdge);
    assert_eq!(a, AcqAction::ReadLatest);
    let a = m.step(AcqEvent::ReadDone { raw: discard_raw });
    assert_eq!(a, AcqAction::AwaitReadyEdge);
    let mut emitted: Option<i32> = None;
    for (i, raw) in fill_raws.iter().enumerate() {
        let a = m.step(AcqEvent::ReadyEdge);
        assert_eq!(a, AcqAction::ReadLatest);
        let a = m.step(AcqEvent::ReadDone { raw: *raw });
        if i + 1 == AVG_LENGTH {
            match a {
                AcqAction::Emit { value, .. } => emitted = Some(value),
                other => panic!("expected an emit action, got {:?}", other),
            }
        } else {
            assert_eq!(a, AcqAction::AwaitReadyEdge);
        }
    }
    (select, emitted.unwrap())
}

#[test]
fn channels_alternate_starting_with_a0a1() {
    assert_eq!(next_channel(Channel::A0A1), Channel::A2A3);
    assert_eq!(next_channel(Channel::A2A3), Channel::A0A1);

    let mut m = Acquisition::new();
    let raws = [0i16; 12];
    let mut start = AcqEvent::Start;
    let mut seen: Vec<Channel> = Vec::new();
    for _ in 0..4 {
        let (select, _) = run_one_cycle(&mut m, start, 0, &raws);
        match select {
            AcqAction::SelectChannel { channel } => seen.push(channel),
            other => panic!("expected a channel switch, got {:?}", other),
        }
        start = AcqEvent::EmitDone;
    }
    assert_eq!(seen, vec![Channel::A0A1, Channel::A2A3, Channel::A0A1, Channel::A2A3]);
}

#[test]
fn discarded_first_read_never_reaches_the_window() {
    let raws = [-5i16; 12];
    let mut m1 = Acquisition::new();
    let (_, v1) = run_one_cycle(&mut m1, AcqEvent::Start, 30000, &raws);
    let mut m2 = Acquisition::new();
    let (_, v2) = run_one_cycle(&mut m2, AcqEvent::Start, -30000, &raws);
    // The stale reading influences nothing: only the twelve fill reads count.
    assert_eq!(v1, v2);
    assert_eq!(v1, 5);
}

#[test]
fn raw_readings_are_stored_negated() {
    assert_eq!(negate_reading(100), -100);
    assert_eq!(negate_reading(-100), 100);
    assert_eq!(negate_reading(0), 0);
    assert_eq!(negate_reading(32767), -32767);

    // A constant raw reading of 100 is filtered as -100.
    let raws = [100i16; 12];
    let mut m = Acquisition::new();
    let (_, v) = run_one_cycle(&mut m, AcqEvent::Start, 0, &raws);
    assert_eq!(v, -100);
}

#[test]
fn emitted_value_is_the_trimmed_mean_of_the_fill_reads() {
    // Stored samples are the negated raws: [-5,...,-5, 100, 100, -1000, -1000];
    // the sorted window discards the two -1000s and the two 100s.
    let raws: [i16; 12] = [5, 5, 5, 5, 5, 5, 5, 5, -100, -100, 1000, 1000];
    let mut m = Acquisition::new();
    let (_, v) = run_one_cycle(&mut m, AcqEvent::Start, 0, &raws);
    assert_eq!(v, -5);
}

#[test]
fn bus_fault_halts_the_machine_for_good() {
    let mut m = Acquisition::new();
    let a = m.step(AcqEvent::Start);
    assert_eq!(a, AcqAction::SelectChannel { channel: Channel::A0A1 });
    let a = m.step(AcqEvent::BusFault);
    assert_eq!(a, AcqAction::Halt);
    // Whatever arrives afterwards, the machine stays halted.
    assert_eq!(m.step(AcqEvent::Start), AcqAction::Halt);
    assert_eq!(m.step(AcqEvent::ReadyEdge), AcqAction::Halt);
    assert_eq!(m.step(AcqEvent::ReadDone { raw: 1 }), AcqAction::Halt);
}

#[test]
fn unexpected_event_halts_the_machine() {
    let mut m = Acquisition::new();
    let _ = m.step(AcqEvent::Start);
    // A read completion arrives while a channel switch is outstanding.
    let a = m.step(AcqEvent::ReadDone { raw: 0 });
    assert_eq!(a, AcqAction::Halt);
    assert_eq!(m.step(AcqEvent::SelectDone), AcqAction::Halt);
}
