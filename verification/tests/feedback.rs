use sendspin::audio::sync_correction::CorrectionSchedule;
use sendspin::audio::synced_player::handoff_probe::timeline::feedback::{
    decide, decode_plan, encode_plan, find_plan, find_reading, is_carried, measure, Feedback,
    ModelHealth, ModelReading, ModelValidity, Observation, Observed, PlanMailbox, PlanWords, Processed, ValidatedFeedback,
    ValidatedObservation, ValidatedPlanMailbox, ValidatedPlanReader, ValidatedWords,
};
use sendspin::audio::synced_player::ring::channel;
use std::sync::OnceLock;
use std::time::{Duration, Instant};

/// The moment that the test's clocks count from, far enough from every edge.
static ORIGIN: OnceLock<Instant> = OnceLock::new();

fn at(micros: i64) -> Instant {
    let base = *ORIGIN.get_or_init(Instant::now) + Duration::from_secs(1_000_000);
    let distance = Duration::from_micros(micros.unsigned_abs());
    if micros >= 0 {
        base + distance
    } else {
        base - distance
    }
}

fn drop_every(frames: u32) -> CorrectionSchedule {
    CorrectionSchedule {
        drop_every_n_frames: frames,
        ..CorrectionSchedule::default()
    }
}

fn insert_every(frames: u32) -> CorrectionSchedule {
    CorrectionSchedule {
        insert_every_n_frames: frames,
        ..CorrectionSchedule::default()
    }
}

fn reanchor() -> CorrectionSchedule {
    CorrectionSchedule {
        reanchor: true,
        ..CorrectionSchedule::default()
    }
}

/// A filter that is warm from its 101st sample on, and that begins anew whenever
/// the feedback forgets.
struct Filter {
    forgotten: u64,
    samples: usize,
}

impl Filter {
    fn new() -> Self {
        Self {
            forgotten: 0,
            samples: 0,
        }
    }

    fn follow(&mut self, feedback: &Feedback) {
        if self.forgotten != feedback.forgotten {
            self.forgotten = feedback.forgotten;
            self.samples = 0;
        }
    }

    fn advise(&mut self, feedback: &Feedback, outcome: Observed) -> CorrectionSchedule {
        self.follow(feedback);
        match outcome {
            Observed::Measured { error_us } => {
                self.samples += 1;
                if self.samples < 101 {
                    CorrectionSchedule::default()
                } else if error_us > 0 {
                    drop_every(500)
                } else {
                    insert_every(500)
                }
            }
            _ => CorrectionSchedule::default(),
        }
    }

    fn is_warm(&mut self, feedback: &Feedback) -> bool {
        self.follow(feedback);
        self.samples >= 101
    }
}

/// Where source times are due: offset by what the model has learned.
#[derive(Clone, Copy)]
struct Model {
    settled: bool,
    offset_us: Option<i64>,
    delay_us: i64,
}

impl Model {
    fn reading(&self, input: &Observation) -> ModelReading {
        ModelReading {
            settled: self.settled,
            expected: self
                .offset_us
                .map(|offset| at(input.source_cursor_us - offset - self.delay_us)),
        }
    }
}

const SAME_CLOCK: Model = Model {
    settled: true,
    offset_us: Some(0),
    delay_us: 0,
};

fn observe(
    feedback: &mut Feedback,
    filter: &mut Filter,
    model: &Model,
    input: Observation,
) -> Result<Option<(i64, CorrectionSchedule)>, ()> {
    let reading = model.reading(&input);
    let outcome = feedback.observe(reading, input);
    let advised = filter.advise(feedback, outcome);
    match (outcome, decide(outcome, reading, input, advised)) {
        (Observed::Measured { error_us }, Some(Some(plan))) => Ok(Some((error_us, plan))),
        (Observed::Withdrawn, Some(None)) => Err(()),
        (Observed::Nothing, None) => Ok(None),
        _ => unreachable!(),
    }
}

fn publish_observation(
    feedback: &mut Feedback,
    filter: &mut Filter,
    model: &Model,
    input: Observation,
    timeline: u64,
    plans: &PlanMailbox,
) {
    let reading = model.reading(&input);
    let outcome = feedback.compute_observation(reading, input, timeline);
    let advised = filter.advise(feedback, outcome);
    feedback.publish_observation(decide(outcome, reading, input, advised), timeline, plans);
}

fn process(
    worker: &mut ValidatedFeedback,
    filter: &mut Filter,
    model: &Model,
    validity: ModelValidity,
    input: ValidatedObservation,
    timeline: u64,
    plans: &ValidatedPlanMailbox,
) -> Option<ValidatedObservation> {
    let reading = model.reading(&input.input);
    let (reset, outcome) = worker.begin_process(reading, input, timeline)?;
    let advised = filter.advise(&worker.feedback, outcome);
    let decision = decide(outcome, reading, input.input, advised);
    worker.finish_process(decision, reset, input, timeline, validity, plans)
}

#[test]
fn realtime_handoff_probe_feedback_pairs_actual_cursor_and_deduplicates_measurements() {
    let sync = Model {
        delay_us: 20_000,
        ..SAME_CLOCK
    };
    let mut feedback = Feedback::new();
    let mut filter = Filter::new();
    let mut input = Observation {
        settled_seen: true,
        timeline: 0,
        serial: 1,
        source_cursor_us: 1_000_000,
        presentation: Some(at(990_000)),
        actual_schedule: CorrectionSchedule::default(),
    };
    // Expected: source 1 s - output delay 20 ms; observed 990 ms => +10 ms.
    assert_eq!(
        observe(&mut feedback, &mut filter, &sync, input),
        Ok(Some((10_000, CorrectionSchedule::default())))
    );
    for _ in 0..200 {
        assert_eq!(observe(&mut feedback, &mut filter, &sync, input), Ok(None));
    }
    assert!(!filter.is_warm(&feedback));
    input.serial = 2;
    input.presentation = None;
    assert_eq!(observe(&mut feedback, &mut filter, &sync, input), Ok(None));
    assert!(!filter.is_warm(&feedback));
    // 100 distinct measured observations total must still be cold, regardless
    // of worker polls or the interleaved fallback observation.
    for serial in 3..=101 {
        input.serial = serial;
        input.presentation = Some(at(990_000));
        assert_eq!(
            observe(&mut feedback, &mut filter, &sync, input),
            Ok(Some((10_000, CorrectionSchedule::default())))
        );
    }
    assert!(!filter.is_warm(&feedback));
    input.serial = 102;
    let (_, schedule) = observe(&mut feedback, &mut filter, &sync, input)
        .unwrap()
        .unwrap();
    assert!(filter.is_warm(&feedback));
    assert_eq!(schedule.drop_every_n_frames, 500);
    input.serial = 103;
    input.presentation = None;
    assert_eq!(observe(&mut feedback, &mut filter, &sync, input), Ok(None));
    assert!(
        filter.is_warm(&feedback),
        "fallback retains valid measurement history"
    );
}

#[test]
fn realtime_handoff_probe_feedback_model_unavailable_clears_active_history_even_on_fallback() {
    let valid = Model {
        delay_us: 20_000,
        ..SAME_CLOCK
    };
    let unavailable = Model {
        settled: false,
        offset_us: None,
        delay_us: 20_000,
    };
    let mut feedback = Feedback::new();
    let mut filter = Filter::new();
    let mut input = Observation {
        settled_seen: true,
        timeline: 0,
        serial: 0,
        source_cursor_us: 1_000_000,
        presentation: Some(at(990_000)),
        actual_schedule: CorrectionSchedule::default(),
    };
    for serial in 1..=101 {
        input.serial = serial;
        let (_, schedule) = observe(&mut feedback, &mut filter, &valid, input)
            .unwrap()
            .unwrap();
        input.actual_schedule = schedule;
    }
    assert!(input.actual_schedule.is_correcting());
    assert!(filter.is_warm(&feedback));
    input.serial = 102;
    input.presentation = None;
    assert_eq!(
        observe(&mut feedback, &mut filter, &unavailable, input),
        Err(()),
        "unavailable model must invalidate an active plan, unlike timestamp fallback"
    );
    assert!(!filter.is_warm(&feedback));
    input.serial = 103;
    input.actual_schedule = CorrectionSchedule::default();
    input.presentation = Some(at(990_000));
    assert_eq!(
        observe(&mut feedback, &mut filter, &valid, input),
        Ok(Some((10_000, CorrectionSchedule::default())))
    );
}

#[test]
fn realtime_handoff_probe_feedback_delayed_old_timeline_cannot_rewarm_or_publish_new_plan() {
    let sync = SAME_CLOCK;
    let plans = PlanMailbox::default();
    let mut feedback = Feedback::new();
    let mut filter = Filter::new();
    let mut input = Observation {
        settled_seen: true,
        timeline: 0,
        serial: 0,
        source_cursor_us: 1_000_000,
        presentation: Some(at(1_010_000)),
        actual_schedule: CorrectionSchedule::default(),
    };
    for serial in 1..=101 {
        input.serial = serial;
        publish_observation(&mut feedback, &mut filter, &sync, input, 0, &plans);
    }
    assert_eq!(plans.read(0).unwrap().unwrap().drop_every_n_frames, 500);
    input.serial = 102;
    publish_observation(&mut feedback, &mut filter, &sync, input, 1, &plans);
    assert_eq!(plans.read(1), None, "old observation must not be relabeled");
    input.timeline = 1;
    for serial in 103..=202 {
        input.serial = serial;
        publish_observation(&mut feedback, &mut filter, &sync, input, 1, &plans);
        assert_eq!(plans.read(1), Some(Some(CorrectionSchedule::default())));
    }
    assert!(!filter.is_warm(&feedback));
    let mut delayed = input;
    delayed.timeline = 0;
    delayed.serial = 999;
    publish_observation(&mut feedback, &mut filter, &sync, delayed, 1, &plans);
    assert_eq!(feedback.seen, Some(202));
    assert!(!filter.is_warm(&feedback));
    input.serial = 203;
    publish_observation(&mut feedback, &mut filter, &sync, input, 1, &plans);
    assert_eq!(plans.read(1).unwrap().unwrap().drop_every_n_frames, 500);
    assert_eq!(feedback.seen, Some(203));
}

#[test]
fn realtime_handoff_probe_feedback_bounded_transport_gap_preserves_measured_history() {
    let sync = SAME_CLOCK;
    let plans = PlanMailbox::default();
    let mut feedback = Feedback::new();
    let mut filter = Filter::new();
    let mut input = Observation {
        settled_seen: true,
        timeline: 0,
        serial: 0,
        source_cursor_us: 1_000_000,
        presentation: Some(at(1_010_000)),
        actual_schedule: CorrectionSchedule::default(),
    };
    for serial in 1..=101 {
        input.serial = serial;
        publish_observation(&mut feedback, &mut filter, &sync, input, 0, &plans);
    }
    input.actual_schedule = plans.read(0).unwrap().unwrap();
    assert!(input.actual_schedule.is_correcting());
    let (mut tx, mut rx) = channel::<Observation>(2).unwrap();
    for serial in [102, 103] {
        input.serial = serial;
        assert!(tx.offer(input).is_ok());
    }
    input.serial = 104;
    assert!(
        matches!(tx.offer(input), Err(_)),
        "one nonblocking attempt on full transport"
    );
    for _ in 0..2 {
        let received = rx.receive().unwrap();
        publish_observation(&mut feedback, &mut filter, &sync, received, 0, &plans);
    }
    assert!(rx.receive().is_none());
    // A transport gap is not a model or timeline invalidation. Fallback
    // skips measurement just as the player's callback does.
    input.serial = 105;
    input.presentation = None;
    assert!(tx.offer(input).is_ok());
    let received = rx.receive().unwrap();
    publish_observation(&mut feedback, &mut filter, &sync, received, 0, &plans);
    assert!(filter.is_warm(&feedback));
    assert_eq!(plans.read(0).unwrap().unwrap().drop_every_n_frames, 500);
    // A second gap followed by a measurement must not require rewarming.
    input.serial = 107;
    input.presentation = Some(at(1_010_000));
    assert!(tx.offer(input).is_ok());
    let received = rx.receive().unwrap();
    publish_observation(&mut feedback, &mut filter, &sync, received, 0, &plans);
    assert!(filter.is_warm(&feedback));
    assert_eq!(plans.read(0).unwrap().unwrap().drop_every_n_frames, 500);

    // Gaps and duplicate/out-of-order deliveries do not invent measurements.
    let mut cold = Feedback::new();
    let mut filter = Filter::new();
    input.actual_schedule = CorrectionSchedule::default();
    for serial in (1..=199).step_by(2) {
        input.serial = serial;
        publish_observation(&mut cold, &mut filter, &sync, input, 0, &plans);
        publish_observation(&mut cold, &mut filter, &sync, input, 0, &plans);
        input.serial = serial - 1;
        publish_observation(&mut cold, &mut filter, &sync, input, 0, &plans);
    }
    assert!(
        !filter.is_warm(&cold),
        "only 100 distinct measured samples"
    );
    assert_eq!(plans.read(0), Some(Some(CorrectionSchedule::default())));
    input.serial = 201;
    publish_observation(&mut cold, &mut filter, &sync, input, 0, &plans);
    assert!(filter.is_warm(&cold));
    assert_eq!(plans.read(0).unwrap().unwrap().drop_every_n_frames, 500);
}

#[test]
fn realtime_handoff_probe_feedback_validity_matches_canonical_clock_health() {
    let fresh = ModelHealth {
        synchronized: false,
        settled: false,
        last_valid_t4_us: None,
    };
    assert_eq!(ModelValidity::from_sync(fresh), ModelValidity::Invalid);
    let sampled = ModelHealth {
        synchronized: true,
        settled: true,
        last_valid_t4_us: Some(9_002_000),
    };
    let validity = ModelValidity::from_sync(sampled);
    assert_eq!(validity, ModelValidity::Sampled(9_002_000));
    for (now, synchronized) in [
        (9_001_999, false),
        (9_002_000, true),
        (14_002_000, true),
        (14_002_001, false),
        (i64::MIN, false),
        (i64::MAX, false),
    ] {
        assert_eq!(validity.allows(now), synchronized);
    }
    let same = ModelHealth {
        synchronized: true,
        settled: true,
        last_valid_t4_us: None,
    };
    let validity = ModelValidity::from_sync(same);
    assert_eq!(validity, ModelValidity::SameClock);
    assert!(validity.allows(i64::MIN));
    assert!(validity.allows(i64::MAX));
}

#[test]
fn realtime_handoff_probe_feedback_late_result_cannot_acknowledge_reader_invalidation() {
    for timeline in [0, 1 << 40] {
        let plans = ValidatedPlanMailbox::default();
        let mut reader = ValidatedPlanReader::default();
        let drop_plan = drop_every(500);
        plans.publish(timeline, Some(drop_plan), ModelValidity::Sampled(0));
        assert_eq!(
            reader.read(&plans, timeline, 5_000_000, CorrectionSchedule::default()),
            Some(Some(drop_plan))
        );
        assert_eq!(
            reader.read(&plans, timeline, 5_000_001, drop_plan),
            Some(None)
        );
        // A delayed result from before the reader's reset has a fresh publication
        // revision and fresh model, but has not reset the old filtering history.
        plans.publish(timeline, Some(drop_plan), ModelValidity::Sampled(5_000_001));
        assert_eq!(
            reader.read(&plans, timeline, 5_000_001, CorrectionSchedule::default()),
            Some(None)
        );
    }
}

#[test]
fn realtime_handoff_probe_feedback_first_settled_discards_converging_history_on_fallback() {
    // The model has learned that the source's clock is 100 ms ahead.
    let mut sync = Model {
        settled: false,
        offset_us: Some(100_000),
        delay_us: 0,
    };
    let mut validity = ModelValidity::SampledUnsettled(8_002_000);
    let plans = ValidatedPlanMailbox::default();
    let mut worker = ValidatedFeedback::new();
    let mut filter = Filter::new();
    let mut observation = ValidatedObservation {
        latency_floor_ns: None,
        input: Observation {
            settled_seen: false,
            timeline: 0,
            serial: 0,
            source_cursor_us: 9_100_000,
            presentation: Some(at(9_010_000)),
            actual_schedule: CorrectionSchedule::default(),
        },
        reset_epoch: 0,
    };
    for serial in 1..=101 {
        observation.input.serial = serial;
        assert!(process(
            &mut worker,
            &mut filter,
            &sync,
            validity,
            observation,
            0,
            &plans
        )
        .is_none());
    }
    assert!(filter.is_warm(&worker.feedback));
    let now = 9_002_000;
    sync.settled = true;
    validity = ModelValidity::Sampled(9_002_000);
    // A settled model discards before the timestamp is looked at: even fallback
    // must discard measurements collected while the clock was converging.
    observation.input.settled_seen = true;
    observation.input.serial = 102;
    observation.input.presentation = None;
    assert!(process(
        &mut worker,
        &mut filter,
        &sync,
        validity,
        observation,
        0,
        &plans
    )
    .is_none());
    assert!(!filter.is_warm(&worker.feedback));
    observation.input.presentation = Some(at(9_010_000));
    let mut reader = ValidatedPlanReader::default();
    for serial in 103..=202 {
        observation.input.serial = serial;
        assert!(process(
            &mut worker,
            &mut filter,
            &sync,
            validity,
            observation,
            0,
            &plans
        )
        .is_none());
        assert_eq!(
            reader.read(&plans, 0, now, CorrectionSchedule::default()),
            Some(Some(CorrectionSchedule::default()))
        );
    }
    observation.input.serial = 203;
    assert!(process(
        &mut worker,
        &mut filter,
        &sync,
        validity,
        observation,
        0,
        &plans
    )
    .is_none());
    assert_eq!(
        reader
            .read(&plans, 0, now, CorrectionSchedule::default())
            .unwrap()
            .unwrap()
            .drop_every_n_frames,
        500
    );
}

#[test]
fn realtime_handoff_probe_feedback_queued_before_settled_does_not_prewarm() {
    // Same model, PCM coordinates and measurements, different processing order.
    // Measurements collected before settling must not prewarm the new window.
    let mut sync = Model {
        settled: false,
        offset_us: Some(100_000),
        delay_us: 0,
    };
    let mut immediate = Feedback::new();
    let mut immediate_filter = Filter::new();
    let mut delayed = Feedback::new();
    let mut delayed_filter = Filter::new();
    let (mut tx, mut rx) = channel::<Observation>(2).unwrap();
    for (serial, source_cursor_us, offset) in [(1, 100_000, 10_000), (2, 110_000, 20_000)] {
        let input = Observation {
            settled_seen: false,
            timeline: 0,
            serial,
            source_cursor_us,
            presentation: Some(at(offset)),
            actual_schedule: CorrectionSchedule::default(),
        };
        assert_eq!(
            observe(&mut immediate, &mut immediate_filter, &sync, input),
            Ok(Some((10_000, CorrectionSchedule::default())))
        );
        assert!(tx.offer(input).is_ok());
    }
    sync.settled = true;
    for _ in 0..2 {
        let received = rx.receive().unwrap();
        assert_eq!(
            observe(&mut delayed, &mut delayed_filter, &sync, received),
            Ok(Some((10_000, CorrectionSchedule::default())))
        );
    }
    let mut input = Observation {
        settled_seen: true,
        timeline: 0,
        serial: 3,
        source_cursor_us: 120_000,
        presentation: None,
        actual_schedule: CorrectionSchedule::default(),
    };
    assert_eq!(
        observe(&mut immediate, &mut immediate_filter, &sync, input),
        Ok(None)
    );
    assert_eq!(
        observe(&mut delayed, &mut delayed_filter, &sync, input),
        Ok(None)
    );
    let mut delayed_plan = CorrectionSchedule::default();
    for serial in 4..=102 {
        input.serial = serial;
        input.presentation = Some(at(30_000));
        assert_eq!(
            observe(&mut immediate, &mut immediate_filter, &sync, input),
            Ok(Some((10_000, CorrectionSchedule::default())))
        );
        delayed_plan = observe(&mut delayed, &mut delayed_filter, &sync, input)
            .unwrap()
            .unwrap()
            .1;
    }
    assert_eq!(
        delayed_plan,
        CorrectionSchedule::default(),
        "queued pre-settle measurements must not count toward post-settle warmth"
    );
    assert!(!immediate_filter.is_warm(&immediate));
    assert!(!delayed_filter.is_warm(&delayed));
}

#[test]
fn realtime_handoff_probe_feedback_reset_ack_rewarms_real_filter_before_correction() {
    let sync = SAME_CLOCK;
    let validity = ModelValidity::SameClock;
    let plans = ValidatedPlanMailbox::default();
    let mut worker = ValidatedFeedback::new();
    let mut filter = Filter::new();
    let mut reader = ValidatedPlanReader::default();
    let observation = |serial, reset_epoch| ValidatedObservation {
        latency_floor_ns: None,
        input: Observation {
            settled_seen: true,
            timeline: 0,
            serial,
            source_cursor_us: 1_000_000,
            presentation: Some(at(1_010_000)),
            actual_schedule: CorrectionSchedule::default(),
        },
        reset_epoch,
    };
    for serial in 1..=101 {
        let input = observation(serial, 0);
        let _ = process(&mut worker, &mut filter, &sync, validity, input, 0, &plans);
    }
    let drop_plan = drop_every(500);
    assert_eq!(
        reader.read(&plans, 0, 0, CorrectionSchedule::default()),
        Some(Some(drop_plan))
    );
    assert!(filter.is_warm(&worker.feedback));
    // A sampled validity exercises the reader's reset; a mapping to the same
    // clock does not expire by itself.
    plans.publish(0, Some(drop_plan), ModelValidity::Sampled(0));
    assert_eq!(reader.read(&plans, 0, 5_000_001, drop_plan), Some(None));
    assert_eq!(reader.reset_epoch(), 1);
    let input = observation(102, 0);
    let _ = process(&mut worker, &mut filter, &sync, validity, input, 0, &plans);
    assert_eq!(
        reader.read(&plans, 0, 5_000_001, CorrectionSchedule::default()),
        Some(None),
        "late computation cannot acknowledge reset"
    );
    let input = observation(103, reader.reset_epoch());
    let _ = process(&mut worker, &mut filter, &sync, validity, input, 0, &plans);
    assert!(!filter.is_warm(&worker.feedback));
    assert_eq!(
        reader.read(&plans, 0, 5_000_001, CorrectionSchedule::default()),
        Some(Some(CorrectionSchedule::default()))
    );
    for serial in 104..=202 {
        let input = observation(serial, 1);
        let _ = process(&mut worker, &mut filter, &sync, validity, input, 0, &plans);
    }
    assert!(!filter.is_warm(&worker.feedback));
    assert_eq!(
        reader.read(&plans, 0, 5_000_001, CorrectionSchedule::default()),
        Some(Some(CorrectionSchedule::default()))
    );
    let input = observation(203, 1);
    let _ = process(&mut worker, &mut filter, &sync, validity, input, 0, &plans);
    assert!(filter.is_warm(&worker.feedback));
    assert_eq!(
        reader.read(&plans, 0, 5_000_001, CorrectionSchedule::default()),
        Some(Some(drop_plan))
    );
}

#[test]
fn realtime_handoff_probe_feedback_real_model_reset_invalidates_without_observation() {
    let mut health = ModelHealth {
        synchronized: true,
        settled: true,
        last_valid_t4_us: Some(9_002_000),
    };
    let plans = ValidatedPlanMailbox::default();
    let mut reader = ValidatedPlanReader::default();
    let mut worker = ValidatedFeedback::new();
    let mut filter = Filter::new();
    let drop_plan = drop_every(500);
    plans.publish(0, Some(drop_plan), ModelValidity::from_sync(health));
    let now = 9_002_000;
    assert_eq!(
        reader.read(&plans, 0, now, CorrectionSchedule::default()),
        Some(Some(drop_plan))
    );
    health = ModelHealth {
        synchronized: false,
        settled: false,
        last_valid_t4_us: None,
    };
    // A reset of the model need not coincide with an audio observation.
    worker.model_changed(health, 0, &plans);
    assert_eq!(reader.read(&plans, 0, now, drop_plan), Some(None));
    assert_eq!(reader.reset_epoch(), 1);
    // A model that is available again must not acknowledge the callback's pending
    // filter reset.
    health = ModelHealth {
        synchronized: true,
        settled: true,
        last_valid_t4_us: Some(19_002_000),
    };
    let now = 19_002_000;
    worker.model_changed(health, 0, &plans);
    assert_eq!(
        reader.read(&plans, 0, now, CorrectionSchedule::default()),
        Some(None)
    );
    let sync = Model {
        settled: true,
        offset_us: Some(100_000),
        delay_us: 0,
    };
    let input = ValidatedObservation {
        latency_floor_ns: None,
        input: Observation {
            settled_seen: true,
            timeline: 0,
            serial: 1,
            source_cursor_us: 100_000,
            presentation: None,
            actual_schedule: CorrectionSchedule::default(),
        },
        reset_epoch: reader.reset_epoch(),
    };
    let validity = ModelValidity::from_sync(health);
    let _ = process(&mut worker, &mut filter, &sync, validity, input, 0, &plans);
    assert_eq!(
        reader.read(&plans, 0, now, CorrectionSchedule::default()),
        Some(Some(CorrectionSchedule::default()))
    );
}

#[test]
fn plans_travel_in_one_word() {
    assert_eq!(encode_plan(None), 0x4000_0000_0000_0000);
    assert_eq!(encode_plan(Some(CorrectionSchedule::default())), 0);
    assert_eq!(encode_plan(Some(drop_every(500))), 500);
    assert_eq!(encode_plan(Some(insert_every(500))), 0x1_0000_01f4);
    for plan in [
        None,
        Some(CorrectionSchedule::default()),
        Some(drop_every(1)),
        Some(drop_every(u32::MAX)),
        Some(insert_every(1)),
        Some(insert_every(u32::MAX)),
    ] {
        assert!(is_carried(plan));
        assert_eq!(decode_plan(encode_plan(plan)), plan);
    }
    assert!(!is_carried(Some(reanchor())));
    assert!(!is_carried(Some(CorrectionSchedule {
        insert_every_n_frames: 1,
        ..drop_every(1)
    })));
}

#[test]
fn a_mailbox_holds_one_plan_for_one_timeline() {
    let plans = PlanMailbox::default();
    assert_eq!(plans.read(0), None, "nothing was published");
    assert!(plans.publish(7, Some(drop_every(500))));
    assert_eq!(plans.read(7), Some(Some(drop_every(500))));
    assert_eq!(plans.read(8), None);
    assert!(plans.publish(7, None));
    assert_eq!(plans.read(7), Some(None));
    assert!(plans.publish(8, Some(insert_every(3))));
    assert_eq!(plans.read(7), None);
    assert_eq!(plans.read(8), Some(Some(insert_every(3))));
}

#[test]
fn a_reader_is_turned_away_during_a_publication() {
    let plans = ValidatedPlanMailbox::default();
    assert!(plans.publish_acknowledged(3, Some(drop_every(9)), ModelValidity::Sampled(-4), 6));
    let found = plans.read(3).unwrap();
    assert_eq!(found.plan, Some(drop_every(9)));
    assert_eq!(found.validity, ModelValidity::Sampled(-4));
    assert_eq!(found.acknowledged, 6);
    assert!(plans.publish_after_open(3, None, ModelValidity::Invalid, 7, || {
        assert_eq!(plans.read(3), None);
        assert!(
            !plans.publish(3, None, ModelValidity::SameClock),
            "there is one writer"
        );
    }));
    let found = plans.read(3).unwrap();
    assert_eq!(found.plan, None);
    assert_eq!(found.validity, ModelValidity::Invalid);
    assert_eq!(found.acknowledged, 7);
}

#[test]
fn validities_come_back() {
    for validity in [
        ModelValidity::Invalid,
        ModelValidity::SameClock,
        ModelValidity::Sampled(i64::MIN),
        ModelValidity::SampledUnsettled(i64::MAX),
    ] {
        let (kind, last) = validity.encode();
        assert_eq!(ModelValidity::decode(kind, last), validity);
    }
    assert_eq!(ModelValidity::decode(9, 4), ModelValidity::Invalid);
    let unsettled = ModelHealth {
        synchronized: true,
        settled: false,
        last_valid_t4_us: Some(5),
    };
    assert_eq!(
        ModelValidity::from_sync(unsettled),
        ModelValidity::SampledUnsettled(5)
    );
}

#[test]
fn a_plan_given_up_is_not_followed_again() {
    let plans = ValidatedPlanMailbox::default();
    let mut reader = ValidatedPlanReader::default();
    plans.publish(0, Some(drop_every(500)), ModelValidity::SampledUnsettled(0));
    assert_eq!(
        reader.read(&plans, 0, 0, CorrectionSchedule::default()),
        Some(Some(drop_every(500)))
    );
    assert!(!reader.settled_seen());
    assert_eq!(
        reader.read(&plans, 0, -1, CorrectionSchedule::default()),
        Some(None)
    );
    assert_eq!(reader.reset_epoch(), 0, "nothing was being corrected");
    assert_eq!(
        reader.read(&plans, 0, 0, CorrectionSchedule::default()),
        Some(None),
        "the clock going back does not bring it back"
    );
    plans.publish(0, Some(drop_every(400)), ModelValidity::Sampled(0));
    assert_eq!(
        reader.read(&plans, 0, 0, CorrectionSchedule::default()),
        Some(Some(drop_every(400)))
    );
    assert!(reader.settled_seen());
}

#[test]
fn a_reanchor_asks_the_source_and_is_never_published() {
    let measured = Some(Some(reanchor()));
    assert_eq!(
        ValidatedFeedback::settle_process(measured, false, Some(3)),
        Processed::Reanchor
    );
    assert_eq!(
        ValidatedFeedback::settle_process(measured, true, None),
        Processed::Nothing
    );
    assert_eq!(
        ValidatedFeedback::settle_process(None, true, None),
        Processed::Publish(Some(CorrectionSchedule::default()))
    );
    assert_eq!(
        ValidatedFeedback::settle_process(None, false, Some(3)),
        Processed::Nothing
    );
    assert_eq!(
        ValidatedFeedback::settle_process(Some(None), false, None),
        Processed::Publish(None)
    );
    let plans = PlanMailbox::default();
    assert!(!Feedback::new().publish_observation(measured, 0, &plans));
    assert_eq!(plans.read(0), None);
    let plans = ValidatedPlanMailbox::default();
    let input = ValidatedObservation {
        latency_floor_ns: Some(5),
        input: Observation {
            settled_seen: false,
            timeline: 0,
            serial: 1,
            source_cursor_us: 0,
            presentation: Some(at(0)),
            actual_schedule: CorrectionSchedule::default(),
        },
        reset_epoch: 0,
    };
    let worker = ValidatedFeedback::new();
    assert_eq!(
        worker.finish_process(measured, false, input, 0, ModelValidity::SameClock, &plans),
        Some(input)
    );
    assert_eq!(plans.read(0), None);
}

#[test]
fn lateness_drops_parts_of_a_microsecond_on_either_side() {
    let due = at(0);
    let ns = Duration::from_nanos;
    assert_eq!(measure(due, due), 0);
    assert_eq!(measure(due + ns(1_999), due), 1);
    assert_eq!(measure(due - ns(1_999), due), -1);
    assert_eq!(measure(due - ns(2_000), due), -2);
    assert_eq!(measure(due - ns(999), due), 0);
    let mut feedback = Feedback::new();
    let input = Observation {
        settled_seen: true,
        timeline: 0,
        serial: 1,
        source_cursor_us: 0,
        presentation: Some(due + ns(2_500)),
        actual_schedule: CorrectionSchedule::default(),
    };
    let model = ModelReading {
        settled: true,
        expected: Some(due),
    };
    assert_eq!(
        feedback.observe(model, input),
        Observed::Measured { error_us: 2 }
    );
    assert_eq!(feedback.forgotten, 1, "a first settling forgets");
}

#[test]
fn what_is_found_of_a_plan_decides() {
    let plan = PlanWords {
        before: 2,
        tag: 7,
        word: encode_plan(Some(drop_every(9))),
        after: 2,
    };
    assert_eq!(find_plan(plan, 7), Some(Some(drop_every(9))));
    assert_eq!(find_plan(plan, 8), None, "it is for another timeline");
    assert_eq!(find_plan(PlanWords { after: 4, ..plan }, 7), None);
    let nothing = PlanWords {
        before: 0,
        after: 0,
        ..plan
    };
    assert_eq!(find_plan(nothing, 7), None, "nothing was published");
    let writing = PlanWords {
        before: 3,
        after: 3,
        ..plan
    };
    assert_eq!(find_plan(writing, 7), None, "the writer is at work");
    let (kind, last) = ModelValidity::Sampled(5).encode();
    let found = ValidatedWords {
        plan,
        kind,
        last,
        acknowledged: 6,
    };
    let reading = find_reading(found, 7).unwrap();
    assert_eq!(reading.revision, 2);
    assert_eq!(reading.plan, Some(drop_every(9)));
    assert_eq!(reading.validity, ModelValidity::Sampled(5));
    assert_eq!(reading.acknowledged, 6);
    assert_eq!(find_reading(found, 8), None);
}
