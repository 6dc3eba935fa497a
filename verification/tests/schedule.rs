use autosplash::schedule::{run_mode, Action, Phase, RunMode, Schedule};

fn arguments(list: &[&str]) -> Vec<String> {
    list.iter().map(|s| s.to_string()).collect()
}

#[test]
fn once_flag_selects_one_shot_mode() {
    assert_eq!(run_mode(&arguments(&["autosplash", "--once"])), RunMode::Once);
    assert_eq!(run_mode(&arguments(&["autosplash", "--once", "more"])), RunMode::Once);
}

#[test]
fn any_other_command_line_repeats() {
    assert_eq!(run_mode(&arguments(&[])), RunMode::Repeating);
    assert_eq!(run_mode(&arguments(&["autosplash"])), RunMode::Repeating);
    assert_eq!(run_mode(&arguments(&["--once"])), RunMode::Repeating);
    assert_eq!(run_mode(&arguments(&["autosplash", "once"])), RunMode::Repeating);
    assert_eq!(run_mode(&arguments(&["autosplash", "--Once"])), RunMode::Repeating);
    assert_eq!(run_mode(&arguments(&["autosplash", "--once "])), RunMode::Repeating);
    assert_eq!(run_mode(&arguments(&["autosplash", "-v", "--once"])), RunMode::Repeating);
}

#[test]
fn a_new_run_stands_at_the_start() {
    let run = Schedule::new(RunMode::Repeating, 1_000);
    assert_eq!(run.mode, RunMode::Repeating);
    assert_eq!(run.interval_ms, 1_000);
    assert_eq!(run.phase, Phase::Start);
    assert!(!run.is_over());
}

#[test]
fn one_shot_run_changes_once_and_exits() {
    let mut run = Schedule::new(RunMode::Once, 3_600_000);
    assert_eq!(run.step(), Action::ChangeWallpaper);
    assert!(!run.is_over());
    assert_eq!(run.step(), Action::Exit);
    assert!(run.is_over());
    for _ in 0..10 {
        assert_eq!(run.step(), Action::Exit);
        assert!(run.is_over());
    }
}

#[test]
fn repeating_run_changes_once_per_tick() {
    let mut run = Schedule::new(RunMode::Repeating, 3_600_000);
    assert_eq!(run.step(), Action::ChangeWallpaper);
    assert_eq!(run.step(), Action::StartTicker(3_600_000));
    let mut changes = 1;
    let mut ticks = 0;
    for _ in 0..1000 {
        assert_eq!(run.step(), Action::AwaitTick);
        ticks += 1;
        assert_eq!(run.step(), Action::ChangeWallpaper);
        changes += 1;
        assert_eq!(changes, ticks + 1);
        assert!(!run.is_over());
    }
}

#[test]
fn repeating_run_starts_its_ticker_once() {
    let mut run = Schedule::new(RunMode::Repeating, 250);
    let mut started = 0;
    for _ in 0..100 {
        if let Action::StartTicker(ms) = run.step() {
            assert_eq!(ms, 250);
            started += 1;
        }
    }
    assert_eq!(started, 1);
}

#[test]
fn repeating_run_never_exits() {
    let mut run = Schedule::new(RunMode::Repeating, 0);
    for _ in 0..10_000 {
        assert_ne!(run.step(), Action::Exit);
    }
}
