use sat_cli::ops::{error_line, operation_steps, start_failure_line, Step};
use sat_cli::order::sort_by_name;
use sat_cli::screen::{decimal_string, help_text, manager_rows, package_rows, packages_title, padded, status_text, title_text, Tone};
use sat_cli::dashboard::{App, AppEvent, ViewState};
use sat_cli::{ManagerType, Package, Platform};

fn pkg(name: &str, m: ManagerType) -> Package {
    Package { name: name.to_string(), version: "1.0".to_string(), latest_version: None, manager: m, selected: false }
}

fn describe(steps: &[Step]) -> Vec<String> {
    steps
        .iter()
        .map(|s| match s {
            Step::Log(l) => format!("log {}", l),
            Step::Run(c) => format!("run {} {}", c.program, c.args.join(" ")),
        })
        .collect()
}

const RULE: &str = "log ========================================";
const DONE: &str = "log Operations complete. Press 'Esc' to return to dashboard.";

#[test]
fn batch_steps_for_each_package() {
    let steps = operation_steps(&vec![pkg("eslint", ManagerType::Npm), pkg("vim", ManagerType::Apt)], true, Platform::Unix);
    assert_eq!(
        describe(&steps),
        vec![
            RULE,
            "log Updating eslint via npm...",
            "run npm update -g eslint",
            RULE,
            "log Updating vim via apt...",
            "log WARNING: apt requires sudo privileges. Using 'sudo -n' (will fail if password prompt is needed).",
            "run sudo -n apt-get --only-upgrade install -y vim",
            RULE,
            DONE,
        ]
    );
}

#[test]
fn removal_of_an_unoffered_manager_only_logs() {
    let steps = operation_steps(&vec![pkg("git", ManagerType::Winget)], false, Platform::Unix);
    assert_eq!(describe(&steps), vec![RULE, "log Uninstalling git via winget...", RULE, DONE]);
    let steps = operation_steps(&vec![pkg("git", ManagerType::Winget)], false, Platform::Windows);
    assert_eq!(
        describe(&steps),
        vec![RULE, "log Uninstalling git via winget...", "run cmd /C winget uninstall git", RULE, DONE]
    );
    assert_eq!(describe(&operation_steps(&vec![], true, Platform::Unix)), vec![RULE, DONE]);
}

#[test]
fn output_lines() {
    assert_eq!(error_line("boom"), "ERROR: boom");
    assert_eq!(start_failure_line("not found"), "Failed to start command: not found");
}

#[test]
fn sorting_is_by_lowercase_name_and_stable() {
    let mut a = pkg("b", ManagerType::Npm);
    a.version = "first".to_string();
    let mut b = pkg("B", ManagerType::Npm);
    b.version = "second".to_string();
    let ps = vec![pkg("Zeta", ManagerType::Npm), a, pkg("alpha", ManagerType::Npm), b, pkg("Éclair", ManagerType::Npm)];
    let sorted = sort_by_name(&ps);
    let got: Vec<(String, String)> = sorted.iter().map(|p| (p.name.clone(), p.version.clone())).collect();
    let mut expected = ps.clone();
    expected.sort_by(|x, y| x.name.to_lowercase().cmp(&y.name.to_lowercase()));
    let want: Vec<(String, String)> = expected.iter().map(|p| (p.name.clone(), p.version.clone())).collect();
    assert_eq!(got, want);
    assert_eq!(got[0].0, "alpha");
    assert_eq!(got[1], ("b".to_string(), "first".to_string()));
    assert_eq!(got[2], ("B".to_string(), "second".to_string()));
}

#[test]
fn numbers_and_padding() {
    assert_eq!(decimal_string(0), "0");
    assert_eq!(decimal_string(1234), "1234");
    assert_eq!(decimal_string(usize::MAX), usize::MAX.to_string());
    assert_eq!(padded("npm", 6), "npm   ");
    assert_eq!(padded("toolong", 3), "toolong");
    assert_eq!(padded("é", 3), format!("{:<3}", "é"));
}

#[test]
fn titles() {
    assert_eq!(title_text(0), "Satellite - Universal Package Manager");
    assert_eq!(title_text(3), "Satellite - Loading 3 managers...");
    let app = App::new(Platform::Windows);
    assert_eq!(status_text(&app), "Satellite - Loading 10 managers...");
    assert_eq!(help_text(ViewState::Managers), "q: Quit | j/k or Up/Down: Navigate | Enter: View Packages");
    assert_eq!(help_text(ViewState::Packages(2)), "Space: Select | u: Update | d: Delete | Esc: Back");
    assert_eq!(help_text(ViewState::Logs), "j/k: Scroll | Esc: Back to Dashboard");
}

#[test]
fn manager_rows_show_counts() {
    let mut app = App::new(Platform::Unix);
    app.apply_event(AppEvent::ManagerLoaded(ManagerType::Npm, vec![pkg("a", ManagerType::Npm), pkg("b", ManagerType::Npm)]));
    app.apply_event(AppEvent::ManagerLoaded(ManagerType::Pip, vec![]));
    let rows = manager_rows(&app);
    assert_eq!(rows.len(), 10);
    assert_eq!(rows[0].name, format!("{:<15}", "npm"));
    assert_eq!(rows[0].count, "2 packages");
    assert_eq!(rows[0].tone, Tone::Ready);
    assert_eq!(rows[2].count, "[Not Installed]");
    assert_eq!(rows[2].tone, Tone::Missing);
    assert_eq!(rows[1].count, "...");
    assert_eq!(rows[1].tone, Tone::Pending);
    assert_eq!(packages_title(&app, 0), "npm Packages");
}

#[test]
fn package_rows_show_marks_and_updates() {
    let mut app = App::new(Platform::Unix);
    let mut p = pkg("eslint", ManagerType::Npm);
    p.selected = true;
    p.latest_version = Some("9".to_string());
    app.apply_event(AppEvent::ManagerLoaded(ManagerType::Npm, vec![p, pkg("tsx", ManagerType::Npm)]));
    let rows = package_rows(&app, 0);
    assert_eq!(rows[0].label, format!("{} {:<30} ", "[X]", "eslint"));
    assert!(rows[0].marked);
    assert!(rows[0].update_available);
    assert_eq!(rows[0].version, "1.0");
    assert_eq!(rows[1].label, format!("{} {:<30} ", "[ ]", "tsx"));
    assert!(!rows[1].update_available);
}
