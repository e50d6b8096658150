use seakarr::scanner::maybe_report_heartbeat;
use seakarr::scan_progress::{
    install_console_filter, installed_console_filter, scan_message, ConsoleFilter, ConsoleSlot,
    IndicatorAction, ScanIndicator,
};

struct NamedFilter(&'static str);

impl ConsoleFilter for NamedFilter {
    fn set_console_heartbeat(&self, _enabled: bool) {}
}

/// What the actions do: spinners shown and cleared, and the settings of the
/// console heartbeat.
fn played(actions: &[IndicatorAction]) -> (usize, usize, Vec<bool>) {
    let mut shown = 0;
    let mut cleared = 0;
    let mut heartbeat = Vec::new();
    for action in actions {
        match action {
            IndicatorAction::ShowBar(_) => shown += 1,
            IndicatorAction::ClearBar => cleared += 1,
            IndicatorAction::SetHeartbeat(on) => heartbeat.push(*on),
        }
    }
    (shown, cleared, heartbeat)
}

#[test]
fn scan_message_matches_the_shared_counts_formatter() {
    assert_eq!(
        scan_message(4948, 408, 180_000),
        "Scanning library: 4948 audio file(s), 408 album(s) (180s elapsed)"
    );
}

#[test]
fn a_headless_start_creates_no_bar_and_touches_no_filter() {
    let (mut indicator, mut actions) = ScanIndicator::start(false, true);
    assert!(indicator.update(10, 2, 1_000).is_none());
    actions.extend(indicator.release());
    assert_eq!(
        played(&actions),
        (0, 0, vec![]),
        "a headless run must not touch the console filter"
    );
}

#[test]
fn an_interactive_start_shows_one_bar_and_suppresses_then_restores() {
    let (mut indicator, mut actions) = ScanIndicator::start(true, true);
    assert_eq!(
        indicator.update(10, 2, 1_000).as_deref(),
        Some("Scanning library: 10 audio file(s), 2 album(s) (1s elapsed)")
    );
    assert_eq!(
        played(&actions),
        (1, 0, vec![false]),
        "the heartbeat must be suppressed while the spinner is live"
    );
    actions.extend(indicator.release());
    assert_eq!(
        played(&actions),
        (1, 1, vec![false, true]),
        "the heartbeat must come back when the walk is over"
    );
}

#[test]
fn finishing_twice_releases_once() {
    let (mut indicator, mut actions) = ScanIndicator::start(true, true);
    actions.extend(indicator.release());
    actions.extend(indicator.release());
    assert_eq!(played(&actions), (1, 1, vec![false, true]));
}

#[test]
fn a_display_without_a_filter_only_shows_the_bar() {
    let (mut indicator, mut actions) = ScanIndicator::start(true, false);
    actions.extend(indicator.release());
    assert_eq!(played(&actions), (1, 1, vec![]));
}

#[test]
fn installed_console_filter_is_absent_until_main_installs_one() {
    let mut slot: ConsoleSlot<NamedFilter> = ConsoleSlot::empty();
    assert!(
        installed_console_filter(&slot).is_none(),
        "no filter is there before one is installed"
    );
    install_console_filter(&mut slot, NamedFilter("first"));
    install_console_filter(&mut slot, NamedFilter("second"));
    assert_eq!(installed_console_filter(&slot).map(|f| f.0), Some("first"));
}

#[test]
fn the_spinner_shows_what_the_heartbeat_reports() {
    for now in [0, 499, 500, 1_500, 2_500, 60_501] {
        let mut last = 0;
        let beat = maybe_report_heartbeat(&mut last, now, 7, 3, 0, 0).unwrap();
        let spinner = scan_message(7, 3, now);
        assert_eq!(
            beat.strip_prefix("Library scan still running: "),
            spinner.strip_prefix("Scanning library: ")
        );
    }
    assert!(scan_message(7, 3, 1_500).ends_with("(2s elapsed)"));
}
