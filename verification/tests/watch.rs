use svg_sheet::cli::{
    effective_log_level, level_name, to_run_opts, Args, Commands, LogLevel, Shell,
};
use svg_sheet::svg::watch::{
    effective_debounce, watch_step, WatchAction, WatchEvent, WatchState,
};

#[test]
fn a_change_starts_the_timer_and_the_timer_starts_a_rebuild() {
    let (s, a) = watch_step(WatchState::Idle, WatchEvent::Changed, 300);
    assert_eq!(s, WatchState::Debouncing);
    assert_eq!(a, WatchAction::StartTimer { millis: 300 });
    let (s, a) = watch_step(s, WatchEvent::Changed, 300);
    assert_eq!(s, WatchState::Debouncing);
    assert_eq!(a, WatchAction::Wait);
    let (s, a) = watch_step(s, WatchEvent::TimerFired, 300);
    assert_eq!(s, WatchState::Rebuilding { pending: false });
    assert_eq!(a, WatchAction::Rebuild);
    let (s, a) = watch_step(s, WatchEvent::RebuildDone, 300);
    assert_eq!(s, WatchState::Idle);
    assert_eq!(a, WatchAction::Wait);
}

#[test]
fn a_change_during_a_rebuild_gives_a_trailing_rebuild() {
    let s = WatchState::Rebuilding { pending: false };
    let (s, a) = watch_step(s, WatchEvent::Changed, 50);
    assert_eq!(s, WatchState::Rebuilding { pending: true });
    assert_eq!(a, WatchAction::Wait);
    let (s, a) = watch_step(s, WatchEvent::Changed, 50);
    assert_eq!(s, WatchState::Rebuilding { pending: true });
    assert_eq!(a, WatchAction::Wait);
    let (s, a) = watch_step(s, WatchEvent::TimerFired, 50);
    assert_eq!(s, WatchState::Rebuilding { pending: true });
    assert_eq!(a, WatchAction::Wait);
    let (s, a) = watch_step(s, WatchEvent::RebuildDone, 50);
    assert_eq!(s, WatchState::Debouncing);
    assert_eq!(a, WatchAction::StartTimer { millis: 50 });
    let (s, a) = watch_step(s, WatchEvent::TimerFired, 50);
    assert_eq!(s, WatchState::Rebuilding { pending: false });
    assert_eq!(a, WatchAction::Rebuild);
}

#[test]
fn events_out_of_place_change_nothing() {
    for (state, event) in [
        (WatchState::Idle, WatchEvent::TimerFired),
        (WatchState::Idle, WatchEvent::RebuildDone),
        (WatchState::Debouncing, WatchEvent::RebuildDone),
        (WatchState::Debouncing, WatchEvent::Changed),
    ] {
        assert_eq!(watch_step(state, event, 10), (state, WatchAction::Wait));
    }
}

#[test]
fn the_timer_never_gets_zero() {
    assert_eq!(effective_debounce(0), 1);
    assert_eq!(effective_debounce(1), 1);
    assert_eq!(effective_debounce(300), 300);
    assert_eq!(effective_debounce(u64::MAX), u64::MAX);
    assert_eq!(
        watch_step(WatchState::Idle, WatchEvent::Changed, 0),
        (WatchState::Debouncing, WatchAction::StartTimer { millis: 1 })
    );
    assert_eq!(
        watch_step(WatchState::Rebuilding { pending: true }, WatchEvent::RebuildDone, 0),
        (WatchState::Debouncing, WatchAction::StartTimer { millis: 1 })
    );
}

#[test]
fn no_change_is_lost_over_every_step() {
    let states = [
        WatchState::Idle,
        WatchState::Debouncing,
        WatchState::Rebuilding { pending: false },
        WatchState::Rebuilding { pending: true },
    ];
    let events = [WatchEvent::Changed, WatchEvent::TimerFired, WatchEvent::RebuildDone];
    let owes = |s: WatchState| {
        s == WatchState::Debouncing || s == WatchState::Rebuilding { pending: true }
    };
    for state in states {
        for event in events {
            let (next, action) = watch_step(state, event, 5);
            if event == WatchEvent::Changed {
                assert!(owes(next));
            }
            if owes(state) {
                assert!(owes(next) || action == WatchAction::Rebuild);
            }
            if action == WatchAction::Rebuild {
                assert_eq!(state, WatchState::Debouncing);
            }
        }
    }
}

fn args() -> Args {
    Args {
        file: "sprite.svg".into(),
        directory: "svgs".into(),
        poll: false,
        debounce_ms: 300,
        quiet: false,
        verbose: false,
        dry_run: false,
        fail_on_warn: false,
        log_level: None,
        command: None,
    }
}

#[test]
fn run_options_come_from_the_arguments() {
    let a = Args {
        poll: true,
        debounce_ms: 7,
        quiet: true,
        dry_run: true,
        command: Some(Commands::Completions { shell: Shell::Fish, out_dir: None }),
        ..args()
    };
    let o = to_run_opts(&a);
    assert!(o.poll && o.quiet && o.dry_run);
    assert!(!o.verbose && !o.fail_on_warn);
    assert_eq!(o.debounce_ms, 7);
    let o = to_run_opts(&Args { verbose: true, fail_on_warn: true, ..args() });
    assert!(o.verbose && o.fail_on_warn);
    assert!(!o.poll && !o.quiet && !o.dry_run);
    assert_eq!(o.debounce_ms, 300);
}

#[test]
fn the_log_level_goes_by_the_flags_unless_given() {
    assert_eq!(effective_log_level(&args()), LogLevel::Warn);
    assert_eq!(effective_log_level(&Args { quiet: true, ..args() }), LogLevel::Error);
    assert_eq!(effective_log_level(&Args { verbose: true, ..args() }), LogLevel::Info);
    assert_eq!(
        effective_log_level(&Args { quiet: true, verbose: true, ..args() }),
        LogLevel::Error
    );
    for level in [
        LogLevel::Error,
        LogLevel::Warn,
        LogLevel::Info,
        LogLevel::Debug,
        LogLevel::Trace,
    ] {
        let a = Args { quiet: true, verbose: true, log_level: Some(level), ..args() };
        assert_eq!(effective_log_level(&a), level);
    }
    assert_eq!(level_name(LogLevel::Error), "error");
    assert_eq!(level_name(LogLevel::Warn), "warn");
    assert_eq!(level_name(LogLevel::Info), "info");
    assert_eq!(level_name(LogLevel::Debug), "debug");
    assert_eq!(level_name(LogLevel::Trace), "trace");
}
