use mini_transformer::utils::lr_scheduler::{learning_rate_scale, LrScale, SchedulePhase};

fn value(s: LrScale) -> f64 {
    s.numerator as f64 / s.denominator as f64
}

#[test]
fn half_way_through_the_warmup_the_rate_is_halved() {
    let s = learning_rate_scale(50, 100, 200);
    assert_eq!(s, LrScale { phase: SchedulePhase::Warmup, numerator: 50, denominator: 100 });
    let lr = 0.1f32 * (s.numerator as f32 / s.denominator as f32);
    assert_eq!(lr, 0.05);
}

#[test]
fn the_schedule_starts_at_zero_peaks_at_the_warmup_and_ends_at_zero() {
    let start = learning_rate_scale(0, 100, 200);
    assert_eq!(start.numerator, 0);
    assert_eq!(start.phase, SchedulePhase::Warmup);
    let peak = learning_rate_scale(100, 100, 200);
    assert_eq!(peak, LrScale { phase: SchedulePhase::Decay, numerator: 100, denominator: 100 });
    let end = learning_rate_scale(200, 100, 200);
    assert_eq!(end, LrScale { phase: SchedulePhase::Finished, numerator: 0, denominator: 1 });
}

#[test]
fn the_rate_decays_linearly() {
    assert_eq!(
        learning_rate_scale(150, 100, 200),
        LrScale { phase: SchedulePhase::Decay, numerator: 50, denominator: 100 }
    );
    assert_eq!(
        learning_rate_scale(199, 100, 200),
        LrScale { phase: SchedulePhase::Decay, numerator: 1, denominator: 100 }
    );
    let s = learning_rate_scale(175, 100, 200);
    let direct = 1.0f32 - (175 - 100) as f32 / (200 - 100) as f32;
    assert_eq!(s.numerator as f32 / s.denominator as f32, direct);
}

#[test]
fn the_rate_rises_through_the_warmup_and_falls_after_it() {
    let mut last = -1.0;
    for step in 0..100 {
        let s = learning_rate_scale(step, 100, 250);
        assert_eq!(s.phase, SchedulePhase::Warmup);
        assert!(value(s) > last);
        last = value(s);
    }
    let mut last = 2.0;
    for step in 100..250 {
        let s = learning_rate_scale(step, 100, 250);
        assert_eq!(s.phase, SchedulePhase::Decay);
        assert!(value(s) < last);
        last = value(s);
    }
    for step in 250..300 {
        assert_eq!(value(learning_rate_scale(step, 100, 250)), 0.0);
    }
}

#[test]
fn the_rate_is_clamped_where_the_bounds_coincide() {
    for (step, warmup, total) in [(100, 100, 100), (101, 100, 100), (0, 0, 0), (5, 0, 0)] {
        assert_eq!(
            learning_rate_scale(step, warmup, total),
            LrScale { phase: SchedulePhase::Finished, numerator: 0, denominator: 1 }
        );
    }
    assert_eq!(
        learning_rate_scale(99, 100, 100),
        LrScale { phase: SchedulePhase::Warmup, numerator: 99, denominator: 100 }
    );
}

#[test]
fn the_rate_never_turns_negative() {
    for step in [200, 201, 1000, usize::MAX] {
        let s = learning_rate_scale(step, 100, 200);
        assert_eq!(s.numerator, 0);
        assert!(s.denominator > 0);
    }
    // The last step lies inside the warmup: the ramp goes on.
    assert_eq!(
        learning_rate_scale(60, 100, 50),
        LrScale { phase: SchedulePhase::Warmup, numerator: 60, denominator: 100 }
    );
    assert_eq!(learning_rate_scale(100, 100, 50).numerator, 0);
}

#[test]
fn without_a_warmup_the_rate_starts_at_its_peak() {
    assert_eq!(
        learning_rate_scale(0, 0, 10),
        LrScale { phase: SchedulePhase::Decay, numerator: 10, denominator: 10 }
    );
    assert_eq!(
        learning_rate_scale(usize::MAX - 1, 0, usize::MAX),
        LrScale { phase: SchedulePhase::Decay, numerator: 1, denominator: usize::MAX }
    );
}
