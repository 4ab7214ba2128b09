use sat_cli::{build_command, get_managers, CommandLine, ManagerType, Platform};

fn cmd(c: &CommandLine) -> (String, Vec<String>) {
    (c.program.clone(), c.args.clone())
}

fn owned(program: &str, args: &[&str]) -> (String, Vec<String>) {
    (program.to_string(), args.iter().map(|a| a.to_string()).collect())
}

const ALL: [ManagerType; 13] = [
    ManagerType::Winget,
    ManagerType::Npm,
    ManagerType::Pnpm,
    ManagerType::Pip,
    ManagerType::Uv,
    ManagerType::Cargo,
    ManagerType::Choco,
    ManagerType::Scoop,
    ManagerType::Gem,
    ManagerType::Dotnet,
    ManagerType::Brew,
    ManagerType::Apt,
    ManagerType::Pacman,
];

#[test]
fn unix_managers_in_order() {
    assert_eq!(
        get_managers(Platform::Unix),
        vec![
            ManagerType::Npm,
            ManagerType::Pnpm,
            ManagerType::Pip,
            ManagerType::Uv,
            ManagerType::Cargo,
            ManagerType::Gem,
            ManagerType::Dotnet,
            ManagerType::Brew,
            ManagerType::Apt,
            ManagerType::Pacman,
        ]
    );
}

#[test]
fn windows_managers_in_order() {
    assert_eq!(
        get_managers(Platform::Windows),
        vec![
            ManagerType::Npm,
            ManagerType::Pnpm,
            ManagerType::Pip,
            ManagerType::Uv,
            ManagerType::Cargo,
            ManagerType::Gem,
            ManagerType::Dotnet,
            ManagerType::Winget,
            ManagerType::Choco,
            ManagerType::Scoop,
        ]
    );
}

#[test]
fn platform_filtering_leaves_out_the_other_os() {
    let unix = get_managers(Platform::Unix);
    for m in [ManagerType::Winget, ManagerType::Choco, ManagerType::Scoop] {
        assert!(!unix.contains(&m));
    }
    let windows = get_managers(Platform::Windows);
    for m in [ManagerType::Brew, ManagerType::Apt, ManagerType::Pacman] {
        assert!(!windows.contains(&m));
    }
}

#[test]
fn names_are_the_tools() {
    let names: Vec<&str> = ALL.iter().map(|m| m.name()).collect();
    assert_eq!(
        names,
        vec![
            "winget", "npm", "pnpm", "pip", "uv", "cargo", "choco", "scoop", "gem", "dotnet",
            "brew", "apt", "pacman"
        ]
    );
}

#[test]
fn names_are_distinct() {
    for (i, a) in ALL.iter().enumerate() {
        for (j, b) in ALL.iter().enumerate() {
            assert_eq!(i == j, a.name() == b.name());
        }
    }
}

#[test]
fn only_system_managers_need_sudo() {
    for m in ALL {
        assert_eq!(m.requires_sudo(), m == ManagerType::Apt || m == ManagerType::Pacman);
    }
}

#[test]
fn build_command_wraps_on_windows() {
    assert_eq!(
        cmd(&build_command("npm", &["list", "-g"], Platform::Windows)),
        owned("cmd", &["/C", "npm", "list", "-g"])
    );
    assert_eq!(cmd(&build_command("npm", &["list", "-g"], Platform::Unix)), owned("npm", &["list", "-g"]));
    assert_eq!(cmd(&build_command("scoop", &[], Platform::Windows)), owned("cmd", &["/C", "scoop"]));
}

#[test]
fn update_commands() {
    let u = Platform::Unix;
    assert_eq!(cmd(&ManagerType::Npm.update_command("eslint", u)), owned("npm", &["update", "-g", "eslint"]));
    assert_eq!(cmd(&ManagerType::Pnpm.update_command("x", u)), owned("pnpm", &["update", "-g", "x"]));
    assert_eq!(cmd(&ManagerType::Pip.update_command("x", u)), owned("pip", &["install", "--upgrade", "x"]));
    assert_eq!(cmd(&ManagerType::Uv.update_command("x", u)), owned("uv", &["tool", "upgrade", "x"]));
    assert_eq!(cmd(&ManagerType::Cargo.update_command("x", u)), owned("cargo", &["install", "x"]));
    assert_eq!(cmd(&ManagerType::Gem.update_command("x", u)), owned("gem", &["update", "x"]));
    assert_eq!(cmd(&ManagerType::Dotnet.update_command("x", u)), owned("dotnet", &["tool", "update", "-g", "x"]));
    assert_eq!(cmd(&ManagerType::Winget.update_command("x", u)), owned("winget", &["upgrade", "x"]));
    assert_eq!(cmd(&ManagerType::Choco.update_command("x", u)), owned("choco", &["upgrade", "x", "-y"]));
    assert_eq!(cmd(&ManagerType::Scoop.update_command("x", u)), owned("scoop", &["update", "x"]));
    assert_eq!(cmd(&ManagerType::Brew.update_command("x", u)), owned("brew", &["upgrade", "x"]));
    assert_eq!(
        cmd(&ManagerType::Apt.update_command("vim", u)),
        owned("sudo", &["-n", "apt-get", "--only-upgrade", "install", "-y", "vim"])
    );
    assert_eq!(
        cmd(&ManagerType::Pacman.update_command("vim", u)),
        owned("sudo", &["-n", "pacman", "-S", "--noconfirm", "vim"])
    );
    assert_eq!(
        cmd(&ManagerType::Choco.update_command("git", Platform::Windows)),
        owned("cmd", &["/C", "choco", "upgrade", "git", "-y"])
    );
}

#[test]
fn delete_commands() {
    let u = Platform::Unix;
    assert_eq!(cmd(&ManagerType::Npm.delete_command("x", u)), owned("npm", &["uninstall", "-g", "x"]));
    assert_eq!(cmd(&ManagerType::Pnpm.delete_command("x", u)), owned("pnpm", &["remove", "-g", "x"]));
    assert_eq!(cmd(&ManagerType::Pip.delete_command("x", u)), owned("pip", &["uninstall", "-y", "x"]));
    assert_eq!(cmd(&ManagerType::Uv.delete_command("x", u)), owned("uv", &["tool", "uninstall", "x"]));
    assert_eq!(cmd(&ManagerType::Cargo.delete_command("x", u)), owned("cargo", &["uninstall", "x"]));
    assert_eq!(cmd(&ManagerType::Gem.delete_command("x", u)), owned("gem", &["uninstall", "x"]));
    assert_eq!(
        cmd(&ManagerType::Dotnet.delete_command("x", u)),
        owned("dotnet", &["tool", "uninstall", "-g", "x"])
    );
    assert_eq!(cmd(&ManagerType::Winget.delete_command("x", u)), owned("winget", &["uninstall", "x"]));
    assert_eq!(cmd(&ManagerType::Choco.delete_command("x", u)), owned("choco", &["uninstall", "x", "-y"]));
    assert_eq!(cmd(&ManagerType::Scoop.delete_command("x", u)), owned("scoop", &["uninstall", "x"]));
    assert_eq!(cmd(&ManagerType::Brew.delete_command("x", u)), owned("brew", &["uninstall", "x"]));
    assert_eq!(
        cmd(&ManagerType::Apt.delete_command("vim", u)),
        owned("sudo", &["-n", "apt-get", "remove", "-y", "vim"])
    );
    assert_eq!(
        cmd(&ManagerType::Pacman.delete_command("vim", u)),
        owned("sudo", &["-n", "pacman", "-R", "--noconfirm", "vim"])
    );
    assert_eq!(
        cmd(&ManagerType::Apt.delete_command("vim", Platform::Windows)),
        owned("cmd", &["/C", "sudo", "-n", "apt-get", "remove", "-y", "vim"])
    );
}

#[test]
fn list_commands() {
    let u = Platform::Unix;
    let w = Platform::Windows;
    assert_eq!(
        ManagerType::Npm.list_command(u).map(|c| cmd(&c)),
        Some(owned("npm", &["list", "-g", "--json"]))
    );
    assert_eq!(
        ManagerType::Pnpm.list_command(u).map(|c| cmd(&c)),
        Some(owned("pnpm", &["ls", "-g", "--json"]))
    );
    assert_eq!(ManagerType::Pip.list_command(u).map(|c| cmd(&c)), Some(owned("pip", &["list", "--format=json"])));
    assert_eq!(ManagerType::Uv.list_command(u).map(|c| cmd(&c)), Some(owned("uv", &["tool", "list"])));
    assert_eq!(ManagerType::Cargo.list_command(u).map(|c| cmd(&c)), Some(owned("cargo", &["install", "--list"])));
    assert_eq!(ManagerType::Gem.list_command(u).map(|c| cmd(&c)), Some(owned("gem", &["list", "--local"])));
    assert_eq!(ManagerType::Dotnet.list_command(u).map(|c| cmd(&c)), Some(owned("dotnet", &["tool", "list", "-g"])));
    assert_eq!(ManagerType::Brew.list_command(u).map(|c| cmd(&c)), Some(owned("brew", &["list", "--versions"])));
    assert_eq!(ManagerType::Apt.list_command(u).map(|c| cmd(&c)), Some(owned("apt", &["list", "--installed"])));
    assert_eq!(ManagerType::Pacman.list_command(u).map(|c| cmd(&c)), Some(owned("pacman", &["-Qe"])));
    assert!(ManagerType::Winget.list_command(u).is_none());
    assert!(ManagerType::Choco.list_command(u).is_none());
    assert!(ManagerType::Scoop.list_command(u).is_none());
    assert_eq!(
        ManagerType::Winget.list_command(w).map(|c| cmd(&c)),
        Some(owned("cmd", &["/C", "winget", "list"]))
    );
    assert_eq!(ManagerType::Choco.list_command(w).map(|c| cmd(&c)), Some(owned("cmd", &["/C", "choco", "list", "-lo"])));
    assert_eq!(ManagerType::Scoop.list_command(w).map(|c| cmd(&c)), Some(owned("cmd", &["/C", "scoop", "list"])));
    assert!(ManagerType::Brew.list_command(w).is_none());
    assert!(ManagerType::Apt.list_command(w).is_none());
    assert!(ManagerType::Pacman.list_command(w).is_none());
}

#[test]
fn outdated_commands() {
    let u = Platform::Unix;
    let w = Platform::Windows;
    assert_eq!(ManagerType::Npm.outdated_command(u).map(|c| cmd(&c)), Some(owned("npm", &["outdated", "-g", "--json"])));
    assert_eq!(ManagerType::Pnpm.outdated_command(u).map(|c| cmd(&c)), Some(owned("pnpm", &["outdated", "-g", "--json"])));
    assert_eq!(
        ManagerType::Pip.outdated_command(u).map(|c| cmd(&c)),
        Some(owned("pip", &["list", "--outdated", "--format=json"]))
    );
    assert_eq!(ManagerType::Gem.outdated_command(u).map(|c| cmd(&c)), Some(owned("gem", &["outdated"])));
    assert_eq!(ManagerType::Brew.outdated_command(u).map(|c| cmd(&c)), Some(owned("brew", &["outdated"])));
    assert_eq!(ManagerType::Apt.outdated_command(u).map(|c| cmd(&c)), Some(owned("apt", &["list", "--upgradable"])));
    assert_eq!(ManagerType::Pacman.outdated_command(u).map(|c| cmd(&c)), Some(owned("pacman", &["-Qu"])));
    assert_eq!(
        ManagerType::Winget.outdated_command(w).map(|c| cmd(&c)),
        Some(owned("cmd", &["/C", "winget", "upgrade", "--accept-source-agreements"]))
    );
    assert_eq!(ManagerType::Choco.outdated_command(w).map(|c| cmd(&c)), Some(owned("cmd", &["/C", "choco", "outdated"])));
    assert_eq!(ManagerType::Scoop.outdated_command(w).map(|c| cmd(&c)), Some(owned("cmd", &["/C", "scoop", "status"])));
    for m in [ManagerType::Uv, ManagerType::Cargo, ManagerType::Dotnet] {
        assert!(m.outdated_command(u).is_none());
        assert!(m.outdated_command(w).is_none());
    }
    assert!(ManagerType::Winget.outdated_command(u).is_none());
    assert!(ManagerType::Apt.outdated_command(w).is_none());
}

#[test]
fn every_command_names_the_package() {
    for m in ALL {
        for p in [Platform::Unix, Platform::Windows] {
            assert!(m.update_command("pkg-x", p).args.iter().any(|a| a == "pkg-x"));
            assert!(m.delete_command("pkg-x", p).args.iter().any(|a| a == "pkg-x"));
        }
    }
}
