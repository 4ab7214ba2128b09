use sat_cli::installed::{
    can_list_gem, can_list_winget, list_apt, list_brew, list_cargo, list_choco, list_dotnet,
    list_gem, list_pacman, list_scoop, list_uv, list_winget,
};
use sat_cli::json::{list_npm, list_pip, list_pnpm, outdated_npm, outdated_pip, outdated_pnpm};
use sat_cli::upgrades::{
    can_read_outdated_gem, can_read_outdated_winget, outdated_apt, outdated_brew, outdated_choco,
    outdated_gem, outdated_pacman, outdated_scoop, outdated_winget,
};
use sat_cli::{JsonValue, ManagerType, Package, Platform};

fn pairs(ps: &[Package]) -> Vec<(String, String)> {
    ps.iter().map(|p| (p.name.clone(), p.version.clone())).collect()
}

fn exp(v: &[(&str, &str)]) -> Vec<(String, String)> {
    v.iter().map(|(a, b)| (a.to_string(), b.to_string())).collect()
}

fn fresh(ps: &[Package], m: ManagerType) -> bool {
    ps.iter().all(|p| p.manager == m && !p.selected && p.latest_version.is_none())
}

fn s(x: &str) -> JsonValue {
    JsonValue::Str(x.to_string())
}

fn obj(members: Vec<(&str, JsonValue)>) -> JsonValue {
    JsonValue::Object(members.into_iter().map(|(k, v)| (k.to_string(), v)).collect())
}

#[test]
fn uv_versions_lose_their_v() {
    let out = list_uv("black v24.2.0\n- black\n- blackd\nruff v0.4.1\n");
    assert!(fresh(&out, ManagerType::Uv));
    assert_eq!(
        pairs(&out),
        exp(&[("black", "24.2.0"), ("-", "black"), ("-", "blackd"), ("ruff", "0.4.1")])
    );
    assert_eq!(pairs(&list_uv("tool vvv1.0\n")), exp(&[("tool", "1.0")]));
}

#[test]
fn cargo_reads_crate_headers_only() {
    let text = "ripgrep v14.1.0:\n    rg\ncargo-edit v0.12.2:\n    cargo-add\n    cargo-rm\n";
    assert_eq!(pairs(&list_cargo(text)), exp(&[("ripgrep", "14.1.0"), ("cargo-edit", "0.12.2")]));
    assert_eq!(pairs(&list_cargo(" indented v1.0:\nsolo:\n")), exp(&[]));
}

#[test]
fn choco_list_skips_banner_and_summary() {
    let text = "Chocolatey v2.2.2\ngit 2.44.0\nnodejs 21.7.1\n2 packages installed.\n";
    assert_eq!(pairs(&list_choco(text)), exp(&[("git", "2.44.0"), ("nodejs", "21.7.1")]));
}

#[test]
fn scoop_and_dotnet_skip_two_heading_lines() {
    let scoop = "Name Version Source\n---- ------- ------\n7zip 23.01 main\ngit 2.44.0 main\n";
    assert_eq!(pairs(&list_scoop(scoop)), exp(&[("7zip", "23.01"), ("git", "2.44.0")]));
    let dotnet = "Package Id      Version      Commands\n-------------------------------------\ndotnet-ef       8.0.2        dotnet-ef\n";
    assert_eq!(pairs(&list_dotnet(dotnet)), exp(&[("dotnet-ef", "8.0.2")]));
    assert_eq!(pairs(&list_dotnet("only one line")), exp(&[]));
}

#[test]
fn gem_keeps_the_first_version() {
    let text = "*** LOCAL GEMS ***\n\nrake (13.1.0, 13.0.6)\nbundler (default: 2.4.19)\n";
    assert!(can_list_gem(text));
    let out = list_gem(text);
    assert!(fresh(&out, ManagerType::Gem));
    assert_eq!(pairs(&out), exp(&[("rake", "13.1.0"), ("bundler", "default: 2.4.19")]));
}

#[test]
fn gem_lines_that_cannot_be_sliced_are_refused() {
    assert!(!can_list_gem("broken ("));
    assert!(!can_list_gem("name (1.0é"));
    assert!(can_list_gem("name ()"));
    assert_eq!(pairs(&list_gem("name ()")), exp(&[("name", "")]));
}

#[test]
fn brew_and_pacman_lists() {
    assert_eq!(pairs(&list_brew("git 2.44.0\nnode 21.7.1 20.11.0\nlonely\n")), exp(&[("git", "2.44.0"), ("node", "21.7.1")]));
    assert_eq!(pairs(&list_pacman("bash 5.2.026-2\r\nvim 9.1.0-1\r\n")), exp(&[("bash", "5.2.026-2"), ("vim", "9.1.0-1")]));
}

#[test]
fn apt_list_reads_name_and_version() {
    let text = "Listing... Done\nvim/jammy,now 2:8.2.3995-1ubuntu2 amd64 [installed]\ncurl/jammy 7.81.0 amd64\nno-slash here\n";
    let out = list_apt(text);
    assert!(fresh(&out, ManagerType::Apt));
    assert_eq!(pairs(&out), exp(&[("vim", "2:8.2.3995-1ubuntu2"), ("curl", "7.81.0")]));
    assert_eq!(pairs(&list_apt("Listing...\nodd/  \n")), exp(&[("odd", "unknown")]));
}

#[test]
fn winget_list_cuts_rows_at_header_columns() {
    let text = "Name        Id              Version   Source\n\
                ---------------------------------------------\n\
                Git         Git.Git         2.44.0    winget\n\
                Broken      has space here  1.0\n\
                Short\n";
    assert!(can_list_winget(text));
    let out = list_winget(text);
    assert!(fresh(&out, ManagerType::Winget));
    assert_eq!(pairs(&out), exp(&[("Git.Git", "2.44.0")]));
}

#[test]
fn winget_list_counts_columns_in_bytes() {
    // "é" takes two bytes, so the row's columns start one character early.
    let text = "Name  Id    Version\n---\nCafé Cafe.A 1.0 x\n";
    assert!(can_list_winget(text));
    assert_eq!(pairs(&list_winget(text)), exp(&[("Cafe.A", "1.0")]));
    // A cut inside a character is refused.
    let bad = "Name  Id    Version\n---\nCaféé X     1.0\n";
    assert!(!can_list_winget(bad));
    assert!(can_list_winget("no header at all\n"));
    assert_eq!(pairs(&list_winget("no header at all\n")), exp(&[]));
}

#[test]
fn upgrades_from_text() {
    let gem = "rake (13.0.6 < 13.1.0)\nrubocop (1.60.0 < 1.62.1, 1.61.0)\n";
    assert!(can_read_outdated_gem(gem));
    assert_eq!(outdated_gem(gem), exp(&[("rake", "13.1.0"), ("rubocop", "1.62.1")]));
    assert!(!can_read_outdated_gem("x (1 < "));
    assert_eq!(outdated_brew("git (2.43.0) < 2.44.0\nnode 21.6 < 21.7\nplain 1.0\n"), exp(&[("git", "2.44.0"), ("node", "21.7")]));
    assert_eq!(
        outdated_apt("Listing...\nvim/jammy-updates 2:8.2.3995-1ubuntu2.15 amd64 [upgradable from: 2:8.2.3995-1ubuntu2]\n"),
        exp(&[("vim", "2:8.2.3995-1ubuntu2.15")])
    );
    assert_eq!(outdated_pacman("vim 9.0-1 -> 9.1-1\nbad line here\n"), exp(&[("vim", "9.1-1")]));
    assert_eq!(outdated_choco("git|2.43.0|2.44.0|false\nnope\n"), exp(&[("git", "2.44.0")]));
    assert_eq!(
        outdated_scoop("Scoop is up to date.\nName Installed Latest\n---- --------- ------\ngit 2.43.0 2.44.0\n"),
        exp(&[("git", "2.44.0")])
    );
    assert_eq!(outdated_scoop("git 1 2\n"), exp(&[]));
}

#[test]
fn winget_upgrades() {
    let text = "Name   Id        Version  Available  Source\n\
                -----------------------------------------\n\
                Git    Git.Git   2.43.0   2.44.0     winget\n\
                Name   Id        x        y\n\
                1 upgrades available.\n";
    assert!(can_read_outdated_winget(text));
    assert_eq!(outdated_winget(text), exp(&[("Git.Git", "2.44.0")]));
}

#[test]
fn json_listings() {
    let npm = obj(vec![(
        "dependencies",
        obj(vec![("eslint", obj(vec![("version", s("8.57.0"))])), ("odd", obj(vec![]))]),
    )]);
    let out = list_npm(&npm);
    assert!(fresh(&out, ManagerType::Npm));
    assert_eq!(pairs(&out), exp(&[("eslint", "8.57.0"), ("odd", "unknown")]));

    let pnpm = JsonValue::Array(vec![obj(vec![(
        "dependencies",
        obj(vec![("typescript", obj(vec![("version", s("5.4.2"))]))]),
    )])]);
    assert_eq!(pairs(&list_pnpm(&pnpm)), exp(&[("typescript", "5.4.2")]));
    assert_eq!(pairs(&list_pnpm(&JsonValue::Array(vec![]))), exp(&[]));

    let pip = JsonValue::Array(vec![
        obj(vec![("name", s("requests")), ("version", s("2.31.0"))]),
        obj(vec![("name", s("nover"))]),
    ]);
    assert_eq!(pairs(&list_pip(&pip)), exp(&[("requests", "2.31.0")]));
    assert_eq!(pairs(&list_pip(&obj(vec![]))), exp(&[]));
}

#[test]
fn json_upgrades() {
    let npm = obj(vec![
        ("eslint", obj(vec![("current", s("8.0.0")), ("latest", s("9.0.0"))])),
        ("weird", obj(vec![("latest", JsonValue::Number("3".to_string()))])),
    ]);
    assert_eq!(outdated_npm(&npm), exp(&[("eslint", "9.0.0")]));
    assert_eq!(outdated_pnpm(&npm), exp(&[("eslint", "9.0.0")]));
    let pip = JsonValue::Array(vec![obj(vec![("name", s("pip")), ("latest_version", s("24.0"))])]);
    assert_eq!(outdated_pip(&pip), exp(&[("pip", "24.0")]));
    assert_eq!(outdated_pip(&JsonValue::Null), exp(&[]));
}

#[test]
fn invalid_utf8_is_replaced() {
    let out = b"pk\xffg 1.0\n".to_vec();
    let ps = ManagerType::Brew.list_packages(Platform::Unix, Some(&out));
    assert_eq!(pairs(&ps), exp(&[("pk\u{FFFD}g", "1.0")]));
}

#[test]
fn list_packages_dispatches_by_manager() {
    let text = b"git 2.44.0\n".to_vec();
    assert_eq!(pairs(&ManagerType::Brew.list_packages(Platform::Unix, Some(&text))), exp(&[("git", "2.44.0")]));
    assert!(ManagerType::Brew.list_packages(Platform::Windows, Some(&text)).is_empty());
    assert!(ManagerType::Brew.list_packages(Platform::Unix, None).is_empty());
    assert!(ManagerType::Npm.list_packages(Platform::Unix, Some(&text)).is_empty());
    let json = br#"[{"name": "a", "version": "1"}]"#.to_vec();
    assert_eq!(pairs(&ManagerType::Pip.list_packages(Platform::Unix, Some(&json))), exp(&[("a", "1")]));
    assert!(ManagerType::Pip.list_packages(Platform::Unix, Some(b"not json")).is_empty());
}

#[test]
fn json_bytes_are_parsed_for_npm_pnpm_and_pip() {
    let npm = br#"{"name": "lib", "dependencies": {"typescript": {"version": "5.4.2"}, "eslint": {}}}"#;
    let ps = ManagerType::Npm.list_packages(Platform::Unix, Some(npm));
    assert!(fresh(&ps, ManagerType::Npm));
    assert_eq!(pairs(&ps), exp(&[("eslint", "unknown"), ("typescript", "5.4.2")]));
    let pnpm = br#"[{"dependencies": {"pnpm": {"version": "9.1.0"}}}, {"dependencies": {"x": {}}}]"#;
    assert_eq!(pairs(&ManagerType::Pnpm.list_packages(Platform::Windows, Some(pnpm))), exp(&[("pnpm", "9.1.0")]));
    assert!(ManagerType::Pnpm.list_packages(Platform::Unix, Some(npm)).is_empty());
    let pip = br#"[{"name": "requests", "version": "2.31.0"}, {"name": "odd", "version": 3}]"#;
    assert_eq!(pairs(&ManagerType::Pip.list_packages(Platform::Unix, Some(pip))), exp(&[("requests", "2.31.0")]));
    assert!(ManagerType::Pip.list_packages(Platform::Unix, Some(br#"{"name": "x", "version": "1"}"#)).is_empty());
    assert!(ManagerType::Npm.list_packages(Platform::Unix, Some(b"{\"dependencies\": ")).is_empty());
    let outdated = br#"{"eslint": {"current": "8.57.0", "latest": "9.0.0"}, "broken": {"latest": null}}"#;
    assert_eq!(ManagerType::Npm.list_outdated(Platform::Unix, Some(outdated)), exp(&[("eslint", "9.0.0")]));
    assert_eq!(ManagerType::Pnpm.read_upgrades(Platform::Unix, Some(outdated)), Some(exp(&[("eslint", "9.0.0")])));
    let pip_up = br#"[{"name": "pip", "version": "23.0", "latest_version": "24.0"}]"#;
    assert_eq!(ManagerType::Pip.list_outdated(Platform::Unix, Some(pip_up)), exp(&[("pip", "24.0")]));
    assert!(ManagerType::Pip.list_outdated(Platform::Unix, Some(b"")).is_empty());
}

#[test]
fn read_installed_refuses_unsliceable_output() {
    let bad = b"oops (".to_vec();
    assert!(ManagerType::Gem.read_installed(Platform::Unix, Some(&bad)).is_none());
    let good = b"rake (13.0.6)\n".to_vec();
    let ps = ManagerType::Gem.read_installed(Platform::Unix, Some(&good)).unwrap();
    assert_eq!(pairs(&ps), exp(&[("rake", "13.0.6")]));
}

#[test]
fn list_outdated_dispatches_by_manager() {
    let text = b"vim 9.0-1 -> 9.1-1\n".to_vec();
    assert_eq!(ManagerType::Pacman.list_outdated(Platform::Unix, Some(&text)), exp(&[("vim", "9.1-1")]));
    assert!(ManagerType::Cargo.list_outdated(Platform::Unix, Some(&text)).is_empty());
    assert!(ManagerType::Pacman.list_outdated(Platform::Windows, Some(&text)).is_empty());
    let bad = b"x (1 < ".to_vec();
    assert!(ManagerType::Gem.read_upgrades(Platform::Unix, Some(&bad)).is_none());
    assert_eq!(
        ManagerType::Gem.read_upgrades(Platform::Unix, Some(b"x (1 < 2)")),
        Some(exp(&[("x", "2")]))
    );
}

#[test]
fn unoffered_managers_read_nothing() {
    let bad = "Name  Id    Version\n---\nCaféé X     1.0\n".as_bytes().to_vec();
    assert!(ManagerType::Winget.read_installed(Platform::Windows, Some(&bad)).is_none());
    assert_eq!(ManagerType::Winget.read_installed(Platform::Unix, Some(&bad)).map(|v| v.len()), Some(0));
    assert_eq!(ManagerType::Winget.read_upgrades(Platform::Unix, Some(&bad)), Some(vec![]));
}
