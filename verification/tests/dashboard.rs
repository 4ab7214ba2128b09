use sat_cli::dashboard::{Action, App, AppEvent, Key, ViewState};
use sat_cli::{ManagerType, Package, Platform};

fn pkg(name: &str, version: &str, m: ManagerType) -> Package {
    Package { name: name.to_string(), version: version.to_string(), latest_version: None, manager: m, selected: false }
}

fn loaded_app() -> App {
    let mut app = App::new(Platform::Unix);
    app.apply_event(AppEvent::ManagerLoaded(
        ManagerType::Npm,
        vec![pkg("eslint", "8.0.0", ManagerType::Npm), pkg("Prettier", "3.0.0", ManagerType::Npm), pkg("tsx", "4.0.0", ManagerType::Npm)],
    ));
    app
}

fn names(app: &App, idx: usize) -> Vec<String> {
    app.managers[idx].packages.iter().map(|p| p.name.clone()).collect()
}

#[test]
fn starts_with_every_manager_loading() {
    let app = App::new(Platform::Unix);
    assert_eq!(app.managers.len(), 10);
    assert!(app.managers.iter().all(|m| m.loading && m.packages.is_empty()));
    assert_eq!(app.managers[0].manager, ManagerType::Npm);
    assert_eq!(app.managers_selected, Some(0));
    assert_eq!(app.packages_selected, None);
    assert_eq!(app.view_state, ViewState::Managers);
    assert_eq!(app.loading_count(), 10);
}

#[test]
fn loading_a_manager_counts_down() {
    let app = loaded_app();
    assert_eq!(app.loading_count(), 9);
    assert!(!app.managers[0].loading);
    assert_eq!(names(&app, 0), vec!["eslint", "Prettier", "tsx"]);
}

#[test]
fn upgrades_match_names_trimmed_and_ignoring_case() {
    let mut app = loaded_app();
    app.apply_event(AppEvent::OutdatedLoaded(
        ManagerType::Npm,
        vec![(" prettier ".to_string(), " 3.2.5 ".to_string()), ("missing".to_string(), "1".to_string())],
    ));
    assert_eq!(app.managers[0].packages[1].latest_version, Some("3.2.5".to_string()));
    assert_eq!(app.managers[0].packages[0].latest_version, None);
    app.apply_event(AppEvent::OutdatedLoaded(ManagerType::Brew, vec![("eslint".to_string(), "9".to_string())]));
    assert_eq!(app.managers[0].packages[0].latest_version, None);
}

#[test]
fn log_scrolls_to_the_last_ten_lines() {
    let mut app = App::new(Platform::Unix);
    for i in 0..10 {
        app.apply_event(AppEvent::LogLine(format!("line {}", i)));
    }
    assert_eq!(app.logs.len(), 10);
    assert_eq!(app.logs_scroll, 0);
    app.apply_event(AppEvent::LogLine("eleven".to_string()));
    assert_eq!(app.logs_scroll, 1);
    app.apply_event(AppEvent::LogLine("twelve".to_string()));
    assert_eq!(app.logs_scroll, 2);
    assert_eq!(app.logs[11], "twelve");
}

#[test]
fn finished_update_settles_versions() {
    let mut app = loaded_app();
    app.apply_event(AppEvent::OutdatedLoaded(ManagerType::Npm, vec![("eslint".to_string(), "9.0.0".to_string())]));
    app.managers[0].packages[0].selected = true;
    app.managers[0].packages[2].selected = true;
    let done = vec![app.managers[0].packages[0].clone(), app.managers[0].packages[2].clone()];
    app.apply_event(AppEvent::OperationFinished(true, done));
    let p = &app.managers[0].packages[0];
    assert_eq!(p.version, "9.0.0");
    assert_eq!(p.latest_version, None);
    assert!(!p.selected);
    assert_eq!(app.managers[0].packages[2].version, "4.0.0");
    assert!(!app.managers[0].packages[2].selected);
}

#[test]
fn finished_removal_drops_packages() {
    let mut app = loaded_app();
    let done = vec![pkg("eslint", "8.0.0", ManagerType::Npm), pkg("tsx", "x", ManagerType::Npm)];
    app.apply_event(AppEvent::OperationFinished(false, done));
    assert_eq!(names(&app, 0), vec!["Prettier"]);
}

#[test]
fn navigation_wraps_around() {
    let mut app = App::new(Platform::Unix);
    assert!(matches!(app.handle_key(Key::Up), Action::Continue));
    assert_eq!(app.managers_selected, Some(9));
    app.handle_key(Key::Char('j'));
    assert_eq!(app.managers_selected, Some(0));
    app.handle_key(Key::Down);
    app.handle_key(Key::Char('k'));
    assert_eq!(app.managers_selected, Some(0));
    app.managers_selected = None;
    app.handle_key(Key::Down);
    assert_eq!(app.managers_selected, Some(0));
}

#[test]
fn enter_opens_only_loaded_managers() {
    let mut app = loaded_app();
    app.handle_key(Key::Down);
    app.handle_key(Key::Enter);
    assert_eq!(app.view_state, ViewState::Managers);
    app.handle_key(Key::Up);
    app.handle_key(Key::Enter);
    assert_eq!(app.view_state, ViewState::Packages(0));
    assert_eq!(app.packages_selected, Some(0));
}

#[test]
fn marking_twice_unmarks() {
    let mut app = loaded_app();
    app.handle_key(Key::Enter);
    app.handle_key(Key::Down);
    app.handle_key(Key::Char(' '));
    assert!(app.managers[0].packages[1].selected);
    app.handle_key(Key::Char(' '));
    assert!(!app.managers[0].packages[1].selected);
    app.handle_key(Key::Up);
    app.handle_key(Key::Up);
    assert_eq!(app.packages_selected, Some(2));
}

#[test]
fn batch_runs_the_marked_packages() {
    let mut app = loaded_app();
    app.handle_key(Key::Enter);
    assert!(matches!(app.handle_key(Key::Char('u')), Action::Continue));
    assert_eq!(app.view_state, ViewState::Packages(0));
    app.handle_key(Key::Char(' '));
    app.handle_key(Key::Down);
    app.handle_key(Key::Down);
    app.handle_key(Key::Char(' '));
    match app.handle_key(Key::Char('d')) {
        Action::Run(ps, is_update) => {
            assert!(!is_update);
            let ns: Vec<String> = ps.iter().map(|p| p.name.clone()).collect();
            assert_eq!(ns, vec!["eslint", "tsx"]);
        }
        other => panic!("{:?}", other),
    }
    assert_eq!(app.view_state, ViewState::Logs);
    assert!(matches!(app.handle_key(Key::Char('q')), Action::Continue));
    app.handle_key(Key::Down);
    assert_eq!(app.logs_scroll, 1);
    app.handle_key(Key::Up);
    app.handle_key(Key::Up);
    assert_eq!(app.logs_scroll, 0);
    app.apply_event(AppEvent::LogLine("x".to_string()));
    assert!(matches!(app.handle_key(Key::Esc), Action::Continue));
    assert_eq!(app.view_state, ViewState::Managers);
    assert!(app.logs.is_empty());
}

#[test]
fn going_back_clears_marks_and_quits_from_home() {
    let mut app = loaded_app();
    app.handle_key(Key::Enter);
    app.handle_key(Key::Char(' '));
    assert!(matches!(app.handle_key(Key::Backspace), Action::Continue));
    assert_eq!(app.view_state, ViewState::Managers);
    assert!(app.managers[0].packages.iter().all(|p| !p.selected));
    assert!(matches!(app.handle_key(Key::Esc), Action::Quit));
    assert!(matches!(app.handle_key(Key::Char('q')), Action::Quit));
    assert!(matches!(app.handle_key(Key::Other), Action::Continue));
}

#[test]
fn empty_package_list_ignores_movement() {
    let mut app = App::new(Platform::Unix);
    app.apply_event(AppEvent::ManagerLoaded(ManagerType::Npm, vec![]));
    app.handle_key(Key::Enter);
    assert_eq!(app.view_state, ViewState::Packages(0));
    app.packages_selected = None;
    app.handle_key(Key::Down);
    assert_eq!(app.packages_selected, None);
}

#[test]
fn rows_keep_their_managers() {
    let mut app = loaded_app();
    let before: Vec<ManagerType> = app.managers.iter().map(|m| m.manager).collect();
    app.apply_event(AppEvent::OperationFinished(false, vec![pkg("eslint", "1", ManagerType::Npm)]));
    app.apply_event(AppEvent::ManagerLoaded(ManagerType::Apt, vec![pkg("vim", "9", ManagerType::Apt)]));
    app.apply_event(AppEvent::ManagerLoaded(ManagerType::Winget, vec![pkg("git", "2", ManagerType::Winget)]));
    for k in [Key::Down, Key::Enter, Key::Char(' '), Key::Char('u'), Key::Esc, Key::Up] {
        app.handle_key(k);
    }
    let after: Vec<ManagerType> = app.managers.iter().map(|m| m.manager).collect();
    assert_eq!(before, after);
    assert!(app.is_well_formed());
    app.view_state = ViewState::Packages(42);
    assert!(!app.is_well_formed());
}
