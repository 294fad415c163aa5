use ninety_nine::tui::app::{
    category_ordinal, outcome_ordinal, HistoryApp, RunRow, ScoreRow, ScoresApp, SessionDetail,
    SessionSortField, SortField,
};
use ninety_nine::tui::cursor::{clamp_selection, first_row, move_down, move_up};
use ninety_nine::tui::input::{handle_key_event, Action, AppMode, Key, KeyInput};
use ninety_nine::types::{FlakinessCategory, TestOutcome};

fn score_row(name: &str, probability: f64, category: FlakinessCategory) -> ScoreRow {
    ScoreRow {
        test_name: name.to_string(),
        total_runs: 100,
        pass_rate_rank: (1.0 - probability).to_bits(),
        score_rank: probability.to_bits(),
        category,
    }
}

fn sample_scores() -> Vec<ScoreRow> {
    vec![
        score_row("tests::stable", 0.005, FlakinessCategory::Stable),
        score_row("tests::occasional", 0.03, FlakinessCategory::Occasional),
        score_row("tests::moderate", 0.10, FlakinessCategory::Moderate),
        score_row("tests::frequent", 0.25, FlakinessCategory::Frequent),
        score_row("tests::critical", 0.50, FlakinessCategory::Critical),
    ]
}

fn key(k: Key) -> KeyInput {
    KeyInput { key: k, control: false, pressed: true }
}

fn ctrl_c() -> KeyInput {
    KeyInput { key: Key::Char('c'), control: true, pressed: true }
}

fn release(k: Key) -> KeyInput {
    KeyInput { key: k, control: false, pressed: false }
}

#[test]
fn new_creates_all_indices() {
    let app: ScoresApp<()> = ScoresApp::new(sample_scores());
    assert_eq!(app.filtered.len(), 5);
    assert_eq!(app.selected, Some(0));
}

#[test]
fn new_sorts_by_flakiness_descending() {
    let app: ScoresApp<()> = ScoresApp::new(sample_scores());
    assert_eq!(app.filtered, vec![4, 3, 2, 1, 0]);
    assert_eq!(app.sort_field, SortField::PFlaky);
    assert!(!app.sort_ascending);
}

#[test]
fn filter_by_category_matches_expected() {
    let mut app: ScoresApp<()> = ScoresApp::new(sample_scores());
    app.cycle_filter();
    assert_eq!(app.filter_category, Some(FlakinessCategory::Stable));
    assert_eq!(app.filtered.len(), 1);
    let row = &app.rows[app.filtered[0]];
    assert_eq!(row.category, FlakinessCategory::Stable);
    assert_eq!(app.filter_label(), "Stable");
}

#[test]
fn category_sort_orders_by_severity() {
    let mut app: ScoresApp<()> = ScoresApp::new(sample_scores());
    app.sort_field = SortField::Category;
    app.sort_ascending = true;
    app.sort_filtered();
    let cats: Vec<FlakinessCategory> = app.filtered.iter().map(|&i| app.rows[i].category).collect();
    for window in cats.windows(2) {
        assert!(category_ordinal(window[0]) <= category_ordinal(window[1]));
    }
}

#[test]
fn enter_exit_detail_roundtrip() {
    let mut app: ScoresApp<Vec<String>> = ScoresApp::new(sample_scores());
    app.move_down();
    app.enter_detail(Vec::new());
    assert_eq!(app.mode, AppMode::Detail(1));
    assert!(app.detail.is_some());

    app.exit_detail();
    assert_eq!(app.mode, AppMode::Browse);
    assert!(app.detail.is_none());
}

#[test]
fn cursor_never_exceeds_bounds() {
    for use_empty in [false, true] {
        for (downs, ups) in [(0, 0), (3, 0), (200, 0), (200, 7), (2, 199), (0, 5)] {
            let rows = if use_empty { Vec::new() } else { sample_scores() };
            let mut app: ScoresApp<()> = ScoresApp::new(rows);
            for _ in 0..downs {
                app.move_down();
            }
            for _ in 0..ups {
                app.move_up();
            }
            if app.filtered.is_empty() {
                assert!(app.selected.is_none());
            } else {
                let sel = app.selected.unwrap_or(0);
                assert!(sel < app.filtered.len());
            }
        }
    }
}

#[test]
fn sort_field_cycles_back() {
    for n in 1..20u32 {
        let mut app: ScoresApp<()> = ScoresApp::new(sample_scores());
        let initial = app.sort_field;
        for _ in 0..(n * 5) {
            app.cycle_sort();
        }
        assert_eq!(app.sort_field, initial);
    }
}

#[test]
fn filter_category_cycles_back() {
    for n in 1..20u32 {
        let mut app: ScoresApp<()> = ScoresApp::new(sample_scores());
        assert_eq!(app.filter_category, None);
        for _ in 0..(n * 6) {
            app.cycle_filter();
        }
        assert_eq!(app.filter_category, None);
        assert_eq!(app.filter_label(), "All");
    }
}

#[test]
fn sort_by_name_produces_ordered_output() {
    for ascending in [false, true] {
        let mut app: ScoresApp<()> = ScoresApp::new(sample_scores());
        app.sort_field = SortField::Name;
        app.sort_ascending = ascending;
        app.sort_filtered();
        let names: Vec<&str> = app.filtered.iter().map(|&i| app.rows[i].test_name.as_str()).collect();
        for window in names.windows(2) {
            if ascending {
                assert!(window[0] <= window[1]);
            } else {
                assert!(window[0] >= window[1]);
            }
        }
    }
}

#[test]
fn ties_keep_their_order() {
    let mut rows = sample_scores();
    for r in rows.iter_mut() {
        r.total_runs = 7;
    }
    let mut app: ScoresApp<()> = ScoresApp::new(rows);
    let before = app.filtered.clone();
    app.sort_field = SortField::Runs;
    app.sort_filtered();
    assert_eq!(app.filtered, before);
    app.reverse_sort();
    assert_eq!(app.filtered, before);
}

#[test]
fn selected_score_follows_the_cursor() {
    let mut app: ScoresApp<()> = ScoresApp::new(sample_scores());
    assert_eq!(app.selected_score().unwrap().test_name, "tests::critical");
    app.move_down();
    assert_eq!(app.selected_score().unwrap().test_name, "tests::frequent");
    assert_eq!(app.selected_index(), 1);
    let empty: ScoresApp<()> = ScoresApp::new(Vec::new());
    assert!(empty.selected_score().is_none());
    assert_eq!(empty.selected_index(), 0);
}

#[test]
fn sort_labels() {
    assert_eq!(SortField::PFlaky.label(), "P(flaky)");
    assert_eq!(SortField::Name.next(), SortField::Runs);
    assert_eq!(SessionSortField::Retries.next(), SessionSortField::Name);
    assert_eq!(SessionSortField::Duration.label(), "Duration");
    assert_eq!(outcome_ordinal(TestOutcome::Ignored), 4);
}

#[test]
fn ctrl_c_quits_in_any_mode() {
    assert_eq!(handle_key_event(ctrl_c(), &AppMode::Browse), Action::Quit);
    assert_eq!(handle_key_event(ctrl_c(), &AppMode::Detail(0)), Action::Quit);
}

#[test]
fn release_events_are_ignored() {
    assert_eq!(handle_key_event(release(Key::Char('q')), &AppMode::Browse), Action::NoOp);
    assert_eq!(handle_key_event(release(Key::Char('j')), &AppMode::Browse), Action::NoOp);
}

#[test]
fn browse_mode_keys() {
    let cases = [
        (key(Key::Char('j')), Action::MoveDown),
        (key(Key::Down), Action::MoveDown),
        (key(Key::Char('k')), Action::MoveUp),
        (key(Key::Up), Action::MoveUp),
        (key(Key::Char('s')), Action::CycleSort),
        (key(Key::Char('r')), Action::ReverseSort),
        (key(Key::Char('f')), Action::CycleFilter),
        (key(Key::Enter), Action::Enter),
        (key(Key::Char('q')), Action::Quit),
        (key(Key::Esc), Action::Quit),
        (key(Key::Char('x')), Action::NoOp),
    ];
    for (event, expected) in cases {
        assert_eq!(handle_key_event(event, &AppMode::Browse), expected);
    }
}

#[test]
fn detail_mode_keys() {
    let cases = [
        (key(Key::Char('q')), Action::Back),
        (key(Key::Esc), Action::Back),
        (key(Key::Enter), Action::Back),
        (key(Key::Char('j')), Action::NoOp),
    ];
    for (event, expected) in cases {
        assert_eq!(handle_key_event(event, &AppMode::Detail(0)), expected);
    }
}

#[test]
fn cursor_steps_saturate_and_clamp() {
    assert_eq!(move_down(3, Some(2)), Some(2));
    assert_eq!(move_down(3, None), Some(0));
    assert_eq!(move_up(3, Some(0)), Some(0));
    assert_eq!(move_up(3, None), Some(2));
    assert_eq!(move_up(0, None), None);
    assert_eq!(clamp_selection(Some(9), 4), Some(3));
    assert_eq!(clamp_selection(Some(usize::MAX), 0), Some(0));
    assert_eq!(first_row(0), None);
    assert_eq!(first_row(5), Some(0));
}

fn run(name: &str, outcome: TestOutcome, duration_nanos: u128, retry_count: u32) -> RunRow {
    RunRow { test_name: name.to_string(), outcome, duration_nanos, retry_count }
}

fn sample_runs() -> Vec<RunRow> {
    vec![
        run("b", TestOutcome::Failed, 30, 1),
        run("a", TestOutcome::Passed, 10, 0),
        run("c", TestOutcome::Panic, 20, 2),
        run("d", TestOutcome::Passed, 40, 0),
    ]
}

#[test]
fn session_detail_sorts_and_filters() {
    let mut d = SessionDetail::new(sample_runs());
    assert_eq!(d.filtered, vec![1, 0, 2, 3]);
    assert_eq!(d.selected, Some(0));
    d.cycle_sort();
    assert_eq!(d.sort_field, SessionSortField::Outcome);
    assert_eq!(d.filtered, vec![1, 3, 0, 2]);
    d.cycle_sort();
    assert_eq!(d.filtered, vec![1, 2, 0, 3]);
    d.reverse_sort();
    assert_eq!(d.filtered, vec![3, 0, 2, 1]);
    d.cycle_filter();
    assert_eq!(d.filter_outcome, Some(TestOutcome::Passed));
    assert_eq!(d.filter_label(), "Pass");
    assert_eq!(d.filtered, vec![3, 1]);
    d.move_down();
    d.move_down();
    assert_eq!(d.selected, Some(1));
    d.cycle_filter();
    d.cycle_filter();
    assert_eq!(d.filter_label(), "Timeout");
    assert!(d.filtered.is_empty());
    assert_eq!(d.selected, None);
}

#[test]
fn history_cursor_never_exceeds_bounds() {
    for use_empty in [false, true] {
        for (downs, ups) in [(0, 0), (200, 0), (5, 199), (1, 0)] {
            let sessions = if use_empty { Vec::new() } else { vec!["abc", "def"] };
            let mut app = HistoryApp::new(sessions);
            for _ in 0..downs {
                app.move_down();
            }
            for _ in 0..ups {
                app.move_up();
            }
            if app.sessions.is_empty() {
                assert!(app.selected.is_none());
            } else {
                let sel = app.selected.unwrap_or(0);
                assert!(sel < app.sessions.len());
            }
        }
    }
}

#[test]
fn history_detail_roundtrip() {
    let mut app = HistoryApp::new(vec!["abc", "def"]);
    app.move_down();
    assert_eq!(app.selected_session(), Some(&"def"));
    app.enter_detail(SessionDetail::new(sample_runs()));
    assert_eq!(app.mode, AppMode::Detail(1));
    app.detail_move_down();
    assert_eq!(app.detail.as_ref().unwrap().selected, Some(1));
    app.detail_cycle_filter();
    assert_eq!(app.detail.as_ref().unwrap().filter_outcome, Some(TestOutcome::Passed));
    app.detail_cycle_sort();
    app.detail_reverse_sort();
    app.detail_move_up();
    app.exit_detail();
    assert_eq!(app.mode, AppMode::Browse);
    assert!(app.detail.is_none());
}

#[test]
fn session_detail_counts_passed_and_failed_runs() {
    let mut runs = sample_runs();
    runs.push(run("e", TestOutcome::Ignored, 5, 0));
    runs.push(run("f", TestOutcome::Timeout, 50, 0));
    assert_eq!(SessionDetail::new(runs).outcome_summary(), (2, 3));
    assert_eq!(SessionDetail::new(Vec::new()).outcome_summary(), (0, 0));
}
