use gpt_cli::animation::{
    check_catalog, choose_spinner, dots_frame, get_time_suffix, paint_period, time_suffix, Action, Animation, Event,
    PaintFrame, Phase, SetupError, Spinner,
};
use std::time::Duration;

fn spinner(interval: u32, frames: &[&str]) -> Spinner {
    Spinner { interval, frames: frames.iter().map(|f| f.to_string()).collect() }
}

#[test]
fn elapsed_unit_boundaries() {
    assert_eq!(get_time_suffix(&Duration::from_millis(999)), "ms");
    assert_eq!(get_time_suffix(&Duration::from_millis(1000)), "s");
    assert_eq!(get_time_suffix(&Duration::from_millis(59_999)), "s");
    assert_eq!(get_time_suffix(&Duration::from_millis(60_000)), "m");
    assert_eq!(get_time_suffix(&Duration::from_millis(3_599_999)), "m");
    assert_eq!(get_time_suffix(&Duration::from_millis(3_600_000)), "h");
    assert_eq!(get_time_suffix(&Duration::from_secs_f64(0.999)), "ms");
    assert_eq!(time_suffix(0), "ms");
    assert_eq!(time_suffix(999_999_999), "ms");
    assert_eq!(time_suffix(1_000_000_000), "s");
    assert_eq!(time_suffix(u128::MAX), "h");
}

#[test]
fn cancel_stops_updates_and_normalizes_once() {
    let mut a = Animation::new(3);
    assert_eq!(a.step(Event::Start), Action::Launch);
    assert_eq!(a.step(Event::FrameTick), Action::ShowFrame(1));
    assert_eq!(a.step(Event::PaintTick), Action::Paint(PaintFrame { frame: 1, dots: 0, tick: 0 }));
    assert_eq!(a.step(Event::Cancel), Action::StopActivities);
    assert_eq!(a.phase, Phase::Cancelling);
    assert_eq!(a.step(Event::FrameTick), Action::Nothing);
    assert_eq!(a.step(Event::PaintTick), Action::Nothing);
    assert_eq!(a.step(Event::Cancel), Action::Nothing);
    assert_eq!(a.step(Event::Joined { cancelled: true }), Action::Normalize);
    assert_eq!(a.phase, Phase::Stopped);
    assert_eq!(a.step(Event::Joined { cancelled: true }), Action::Nothing);
    assert_eq!(a.step(Event::PaintTick), Action::Nothing);
}

#[test]
fn frames_wrap_and_paint_counts() {
    let mut a = Animation::new(2);
    assert_eq!(a.step(Event::FrameTick), Action::Nothing);
    a.step(Event::Start);
    assert_eq!(a.step(Event::FrameTick), Action::ShowFrame(1));
    assert_eq!(a.step(Event::FrameTick), Action::ShowFrame(0));
    for t in 0..12u64 {
        assert_eq!(a.step(Event::PaintTick), Action::Paint(PaintFrame { frame: 0, dots: t % 10, tick: t }));
    }
    assert_eq!(a.tick, 12);
}

#[test]
fn unexpected_end_is_a_fault() {
    let mut a = Animation::new(1);
    a.step(Event::Start);
    assert_eq!(a.step(Event::Joined { cancelled: false }), Action::Fault);
    let mut b = Animation::new(1);
    b.step(Event::Start);
    b.step(Event::Cancel);
    assert_eq!(b.step(Event::Joined { cancelled: false }), Action::Fault);
}

#[test]
fn catalog_checks() {
    assert_eq!(check_catalog(&vec![]), Err(SetupError::EmptyCatalog));
    assert_eq!(check_catalog(&vec![spinner(80, &["a"]), spinner(80, &[])]), Err(SetupError::NoFrames(1)));
    assert_eq!(check_catalog(&vec![spinner(0, &["a"])]), Err(SetupError::ZeroInterval(0)));
    assert_eq!(check_catalog(&vec![spinner(80, &["a", "b"])]), Ok(()));
}

#[test]
fn chosen_spinner_in_range() {
    let v = vec![spinner(80, &["a"]), spinner(100, &["b"]), spinner(120, &["c"])];
    for _ in 0..50 {
        assert!(choose_spinner(&v) < 3);
    }
}

#[test]
fn periods_and_dots() {
    assert_eq!(paint_period(80, 100), 100);
    assert_eq!(paint_period(130, 100), 130);
    assert_eq!(paint_period(100, 100), 100);
    assert_eq!(dots_frame(0), ".    ");
    assert_eq!(dots_frame(4), ".....");
    assert_eq!(dots_frame(9), "     ");
    assert_eq!(dots_frame(13), ".... ");
}
