use vstd::prelude::*;

use crate::command::{build_command, spec_build_command, CommandLine, Platform};

verus! {

/// The package managers the dashboard knows.
#[derive(Clone, Copy, PartialEq, Eq, Structural, Debug)]
pub enum ManagerType {
    Winget,
    Npm,
    Pnpm,
    Pip,
    Uv,
    Cargo,
    Choco,
    Scoop,
    Gem,
    Dotnet,
    Brew,
    Apt,
    Pacman,
}

/// The managers offered on `platform`, in the order the dashboard lists them:
/// the seven cross-platform ones, then the three of the platform.
pub open spec fn spec_managers(platform: Platform) -> Seq<ManagerType> {
    seq![
        ManagerType::Npm,
        ManagerType::Pnpm,
        ManagerType::Pip,
        ManagerType::Uv,
        ManagerType::Cargo,
        ManagerType::Gem,
        ManagerType::Dotnet,
    ] + match platform {
        Platform::Windows => seq![ManagerType::Winget, ManagerType::Choco, ManagerType::Scoop],
        Platform::Unix => seq![ManagerType::Brew, ManagerType::Apt, ManagerType::Pacman],
    }
}

/// The managers offered on `platform`.
pub fn get_managers(platform: Platform) -> (r: Vec<ManagerType>)
    ensures
        r@ == spec_managers(platform),
{
    let mut m = vec![
        ManagerType::Npm,
        ManagerType::Pnpm,
        ManagerType::Pip,
        ManagerType::Uv,
        ManagerType::Cargo,
        ManagerType::Gem,
        ManagerType::Dotnet,
    ];
    match platform {
        Platform::Windows => {
            m.push(ManagerType::Winget);
            m.push(ManagerType::Choco);
            m.push(ManagerType::Scoop);
        },
        Platform::Unix => {
            m.push(ManagerType::Brew);
            m.push(ManagerType::Apt);
            m.push(ManagerType::Pacman);
        },
    }
    assert(m@ =~= spec_managers(platform));
    m
}

impl ManagerType {
    /// The name the dashboard shows and packages are tagged with.
    pub open spec fn spec_name(self) -> Seq<char> {
        match self {
            ManagerType::Winget => "winget"@,
            ManagerType::Npm => "npm"@,
            ManagerType::Pnpm => "pnpm"@,
            ManagerType::Pip => "pip"@,
            ManagerType::Uv => "uv"@,
            ManagerType::Cargo => "cargo"@,
            ManagerType::Choco => "choco"@,
            ManagerType::Scoop => "scoop"@,
            ManagerType::Gem => "gem"@,
            ManagerType::Dotnet => "dotnet"@,
            ManagerType::Brew => "brew"@,
            ManagerType::Apt => "apt"@,
            ManagerType::Pacman => "pacman"@,
        }
    }

    pub fn name(&self) -> (s: &'static str)
        ensures
            s@ == self.spec_name(),
    {
        match self {
            ManagerType::Winget => "winget",
            ManagerType::Npm => "npm",
            ManagerType::Pnpm => "pnpm",
            ManagerType::Pip => "pip",
            ManagerType::Uv => "uv",
            ManagerType::Cargo => "cargo",
            ManagerType::Choco => "choco",
            ManagerType::Scoop => "scoop",
            ManagerType::Gem => "gem",
            ManagerType::Dotnet => "dotnet",
            ManagerType::Brew => "brew",
            ManagerType::Apt => "apt",
            ManagerType::Pacman => "pacman",
        }
    }

    /// System package managers, whose changes go through `sudo`.
    pub open spec fn spec_requires_sudo(self) -> bool {
        self is Apt || self is Pacman
    }

    pub fn requires_sudo(&self) -> (b: bool)
        ensures
            b == self.spec_requires_sudo(),
    {
        matches!(self, ManagerType::Apt | ManagerType::Pacman)
    }

    /// The command that upgrades package `pkg`.
    pub open spec fn spec_update_command(self, pkg: Seq<char>, platform: Platform) -> (
        Seq<char>,
        Seq<Seq<char>>,
    ) {
        match self {
            ManagerType::Npm => spec_build_command("npm"@, seq!["update"@, "-g"@, pkg], platform),
            ManagerType::Pnpm => spec_build_command("pnpm"@, seq!["update"@, "-g"@, pkg], platform),
            ManagerType::Pip => spec_build_command("pip"@, seq!["install"@, "--upgrade"@, pkg], platform),
            ManagerType::Uv => spec_build_command("uv"@, seq!["tool"@, "upgrade"@, pkg], platform),
            ManagerType::Cargo => spec_build_command("cargo"@, seq!["install"@, pkg], platform),
            ManagerType::Gem => spec_build_command("gem"@, seq!["update"@, pkg], platform),
            ManagerType::Dotnet => spec_build_command(
                "dotnet"@,
                seq!["tool"@, "update"@, "-g"@, pkg],
                platform,
            ),
            ManagerType::Winget => spec_build_command("winget"@, seq!["upgrade"@, pkg], platform),
            ManagerType::Choco => spec_build_command("choco"@, seq!["upgrade"@, pkg, "-y"@], platform),
            ManagerType::Scoop => spec_build_command("scoop"@, seq!["update"@, pkg], platform),
            ManagerType::Brew => spec_build_command("brew"@, seq!["upgrade"@, pkg], platform),
            ManagerType::Apt => spec_build_command(
                "sudo"@,
                seq!["-n"@, "apt-get"@, "--only-upgrade"@, "install"@, "-y"@, pkg],
                platform,
            ),
            ManagerType::Pacman => spec_build_command(
                "sudo"@,
                seq!["-n"@, "pacman"@, "-S"@, "--noconfirm"@, pkg],
                platform,
            ),
        }
    }

    /// The command that upgrades package `pkg`.
    pub fn update_command(&self, pkg: &str, platform: Platform) -> (r: CommandLine)
        ensures
            r@ == self.spec_update_command(pkg@, platform),
    {
        match self {
            ManagerType::Npm => build_command("npm", &["update", "-g", pkg], platform),
            ManagerType::Pnpm => build_command("pnpm", &["update", "-g", pkg], platform),
            ManagerType::Pip => build_command("pip", &["install", "--upgrade", pkg], platform),
            ManagerType::Uv => build_command("uv", &["tool", "upgrade", pkg], platform),
            ManagerType::Cargo => build_command("cargo", &["install", pkg], platform),
            ManagerType::Gem => build_command("gem", &["update", pkg], platform),
            ManagerType::Dotnet => build_command("dotnet", &["tool", "update", "-g", pkg], platform),
            ManagerType::Winget => build_command("winget", &["upgrade", pkg], platform),
            ManagerType::Choco => build_command("choco", &["upgrade", pkg, "-y"], platform),
            ManagerType::Scoop => build_command("scoop", &["update", pkg], platform),
            ManagerType::Brew => build_command("brew", &["upgrade", pkg], platform),
            ManagerType::Apt => build_command(
                "sudo",
                &["-n", "apt-get", "--only-upgrade", "install", "-y", pkg],
                platform,
            ),
            ManagerType::Pacman => build_command(
                "sudo",
                &["-n", "pacman", "-S", "--noconfirm", pkg],
                platform,
            ),
        }
    }
    /// The command that uninstalls package `pkg`.
    pub open spec fn spec_delete_command(self, pkg: Seq<char>, platform: Platform) -> (
        Seq<char>,
        Seq<Seq<char>>,
    ) {
        match self {
            ManagerType::Npm => spec_build_command("npm"@, seq!["uninstall"@, "-g"@, pkg], platform),
            ManagerType::Pnpm => spec_build_command("pnpm"@, seq!["remove"@, "-g"@, pkg], platform),
            ManagerType::Pip => spec_build_command("pip"@, seq!["uninstall"@, "-y"@, pkg], platform),
            ManagerType::Uv => spec_build_command("uv"@, seq!["tool"@, "uninstall"@, pkg], platform),
            ManagerType::Cargo => spec_build_command("cargo"@, seq!["uninstall"@, pkg], platform),
            ManagerType::Gem => spec_build_command("gem"@, seq!["uninstall"@, pkg], platform),
            ManagerType::Dotnet => spec_build_command(
                "dotnet"@,
                seq!["tool"@, "uninstall"@, "-g"@, pkg],
                platform,
            ),
            ManagerType::Winget => spec_build_command("winget"@, seq!["uninstall"@, pkg], platform),
            ManagerType::Choco => spec_build_command("choco"@, seq!["uninstall"@, pkg, "-y"@], platform),
            ManagerType::Scoop => spec_build_command("scoop"@, seq!["uninstall"@, pkg], platform),
            ManagerType::Brew => spec_build_command("brew"@, seq!["uninstall"@, pkg], platform),
            ManagerType::Apt => spec_build_command(
                "sudo"@,
                seq!["-n"@, "apt-get"@, "remove"@, "-y"@, pkg],
                platform,
            ),
            ManagerType::Pacman => spec_build_command(
                "sudo"@,
                seq!["-n"@, "pacman"@, "-R"@, "--noconfirm"@, pkg],
                platform,
            ),
        }
    }

    /// The command that uninstalls package `pkg`.
    pub fn delete_command(&self, pkg: &str, platform: Platform) -> (r: CommandLine)
        ensures
            r@ == self.spec_delete_command(pkg@, platform),
    {
        match self {
            ManagerType::Npm => build_command("npm", &["uninstall", "-g", pkg], platform),
            ManagerType::Pnpm => build_command("pnpm", &["remove", "-g", pkg], platform),
            ManagerType::Pip => build_command("pip", &["uninstall", "-y", pkg], platform),
            ManagerType::Uv => build_command("uv", &["tool", "uninstall", pkg], platform),
            ManagerType::Cargo => build_command("cargo", &["uninstall", pkg], platform),
            ManagerType::Gem => build_command("gem", &["uninstall", pkg], platform),
            ManagerType::Dotnet => build_command("dotnet", &["tool", "uninstall", "-g", pkg], platform),
            ManagerType::Winget => build_command("winget", &["uninstall", pkg], platform),
            ManagerType::Choco => build_command("choco", &["uninstall", pkg, "-y"], platform),
            ManagerType::Scoop => build_command("scoop", &["uninstall", pkg], platform),
            ManagerType::Brew => build_command("brew", &["uninstall", pkg], platform),
            ManagerType::Apt => build_command("sudo", &["-n", "apt-get", "remove", "-y", pkg], platform),
            ManagerType::Pacman => build_command(
                "sudo",
                &["-n", "pacman", "-R", "--noconfirm", pkg],
                platform,
            ),
        }
    }

    /// Whether the manager is offered on `platform`.
    pub open spec fn spec_offered_on(self, platform: Platform) -> bool {
        match self {
            ManagerType::Winget | ManagerType::Choco | ManagerType::Scoop => platform is Windows,
            ManagerType::Brew | ManagerType::Apt | ManagerType::Pacman => platform is Unix,
            _ => true,
        }
    }

    /// Whether the manager is offered on `platform`.
    pub fn offered_on(&self, platform: Platform) -> (b: bool)
        ensures
            b == self.spec_offered_on(platform),
    {
        match (self, platform) {
            (ManagerType::Winget, Platform::Unix) | (ManagerType::Choco, Platform::Unix) | (
                ManagerType::Scoop,
                Platform::Unix,
            ) | (ManagerType::Brew, Platform::Windows) | (ManagerType::Apt, Platform::Windows) | (
                ManagerType::Pacman,
                Platform::Windows,
            ) => false,
            _ => true,
        }
    }

    /// The command whose output lists the installed packages; none where the
    /// manager is not offered on the platform.
    pub open spec fn spec_list_command(self, platform: Platform) -> Option<
        (Seq<char>, Seq<Seq<char>>),
    > {
        if !self.spec_offered_on(platform) {
            None
        } else {
            Some(
                match self {
                    ManagerType::Npm => spec_build_command("npm"@, seq!["list"@, "-g"@, "--json"@], platform),
                    ManagerType::Pnpm => spec_build_command("pnpm"@, seq!["ls"@, "-g"@, "--json"@], platform),
                    ManagerType::Pip => spec_build_command("pip"@, seq!["list"@, "--format=json"@], platform),
                    ManagerType::Uv => spec_build_command("uv"@, seq!["tool"@, "list"@], platform),
                    ManagerType::Cargo => spec_build_command("cargo"@, seq!["install"@, "--list"@], platform),
                    ManagerType::Gem => spec_build_command("gem"@, seq!["list"@, "--local"@], platform),
                    ManagerType::Dotnet => spec_build_command(
                        "dotnet"@,
                        seq!["tool"@, "list"@, "-g"@],
                        platform,
                    ),
                    ManagerType::Winget => spec_build_command("winget"@, seq!["list"@], platform),
                    ManagerType::Choco => spec_build_command("choco"@, seq!["list"@, "-lo"@], platform),
                    ManagerType::Scoop => spec_build_command("scoop"@, seq!["list"@], platform),
                    ManagerType::Brew => spec_build_command("brew"@, seq!["list"@, "--versions"@], platform),
                    ManagerType::Apt => spec_build_command("apt"@, seq!["list"@, "--installed"@], platform),
                    ManagerType::Pacman => spec_build_command("pacman"@, seq!["-Qe"@], platform),
                },
            )
        }
    }

    /// The command whose output lists the installed packages, if the manager
    /// is offered on `platform`.
    pub fn list_command(&self, platform: Platform) -> (r: Option<CommandLine>)
        ensures
            match r {
                Some(c) => self.spec_list_command(platform) == Some(c@),
                None => self.spec_list_command(platform) is None,
            },
    {
        match (self, platform) {
            (ManagerType::Npm, _) => Some(build_command("npm", &["list", "-g", "--json"], platform)),
            (ManagerType::Pnpm, _) => Some(build_command("pnpm", &["ls", "-g", "--json"], platform)),
            (ManagerType::Pip, _) => Some(build_command("pip", &["list", "--format=json"], platform)),
            (ManagerType::Uv, _) => Some(build_command("uv", &["tool", "list"], platform)),
            (ManagerType::Cargo, _) => Some(build_command("cargo", &["install", "--list"], platform)),
            (ManagerType::Gem, _) => Some(build_command("gem", &["list", "--local"], platform)),
            (ManagerType::Dotnet, _) => Some(build_command("dotnet", &["tool", "list", "-g"], platform)),
            (ManagerType::Winget, Platform::Windows) => Some(build_command("winget", &["list"], platform)),
            (ManagerType::Choco, Platform::Windows) => Some(build_command("choco", &["list", "-lo"], platform)),
            (ManagerType::Scoop, Platform::Windows) => Some(build_command("scoop", &["list"], platform)),
            (ManagerType::Brew, Platform::Unix) => Some(build_command("brew", &["list", "--versions"], platform)),
            (ManagerType::Apt, Platform::Unix) => Some(build_command("apt", &["list", "--installed"], platform)),
            (ManagerType::Pacman, Platform::Unix) => Some(build_command("pacman", &["-Qe"], platform)),
            _ => None,
        }
    }

    /// Whether the dashboard asks the manager for available upgrades on
    /// `platform`: uv, cargo and dotnet are never asked.
    pub open spec fn spec_checks_outdated(self, platform: Platform) -> bool {
        self.spec_offered_on(platform) && !(self is Uv || self is Cargo || self is Dotnet)
    }

    /// Whether the dashboard asks the manager for upgrades on `platform`.
    pub fn checks_outdated(&self, platform: Platform) -> (b: bool)
        ensures
            b == self.spec_checks_outdated(platform),
    {
        self.offered_on(platform) && !matches!(self, ManagerType::Uv | ManagerType::Cargo | ManagerType::Dotnet)
    }

    /// The command whose output lists the packages with an upgrade available.
    pub open spec fn spec_outdated_command(self, platform: Platform) -> Option<
        (Seq<char>, Seq<Seq<char>>),
    > {
        if !self.spec_checks_outdated(platform) {
            None
        } else {
            Some(
                match self {
                    ManagerType::Npm => spec_build_command("npm"@, seq!["outdated"@, "-g"@, "--json"@], platform),
                    ManagerType::Pnpm => spec_build_command(
                        "pnpm"@,
                        seq!["outdated"@, "-g"@, "--json"@],
                        platform,
                    ),
                    ManagerType::Pip => spec_build_command(
                        "pip"@,
                        seq!["list"@, "--outdated"@, "--format=json"@],
                        platform,
                    ),
                    ManagerType::Gem => spec_build_command("gem"@, seq!["outdated"@], platform),
                    ManagerType::Winget => spec_build_command(
                        "winget"@,
                        seq!["upgrade"@, "--accept-source-agreements"@],
                        platform,
                    ),
                    ManagerType::Choco => spec_build_command("choco"@, seq!["outdated"@], platform),
                    ManagerType::Scoop => spec_build_command("scoop"@, seq!["status"@], platform),
                    ManagerType::Brew => spec_build_command("brew"@, seq!["outdated"@], platform),
                    ManagerType::Apt => spec_build_command("apt"@, seq!["list"@, "--upgradable"@], platform),
                    _ => spec_build_command("pacman"@, seq!["-Qu"@], platform),
                },
            )
        }
    }

    /// The command whose output lists the packages with an upgrade available,
    /// if the manager is asked on `platform`.
    pub fn outdated_command(&self, platform: Platform) -> (r: Option<CommandLine>)
        ensures
            match r {
                Some(c) => self.spec_outdated_command(platform) == Some(c@),
                None => self.spec_outdated_command(platform) is None,
            },
    {
        match (self, platform) {
            (ManagerType::Npm, _) => Some(build_command("npm", &["outdated", "-g", "--json"], platform)),
            (ManagerType::Pnpm, _) => Some(build_command("pnpm", &["outdated", "-g", "--json"], platform)),
            (ManagerType::Pip, _) => Some(
                build_command("pip", &["list", "--outdated", "--format=json"], platform),
            ),
            (ManagerType::Gem, _) => Some(build_command("gem", &["outdated"], platform)),
            (ManagerType::Winget, Platform::Windows) => Some(
                build_command("winget", &["upgrade", "--accept-source-agreements"], platform),
            ),
            (ManagerType::Choco, Platform::Windows) => Some(build_command("choco", &["outdated"], platform)),
            (ManagerType::Scoop, Platform::Windows) => Some(build_command("scoop", &["status"], platform)),
            (ManagerType::Brew, Platform::Unix) => Some(build_command("brew", &["outdated"], platform)),
            (ManagerType::Apt, Platform::Unix) => Some(build_command("apt", &["list", "--upgradable"], platform)),
            (ManagerType::Pacman, Platform::Unix) => Some(build_command("pacman", &["-Qu"], platform)),
            _ => None,
        }
    }
}

/// Each platform offers ten managers, each once: exactly those offered on it.
/// The Windows-only managers are left out on Unix and the Unix-only ones on
/// Windows.
pub proof fn lemma_managers_of_platform(platform: Platform)
    ensures
        spec_managers(platform).len() == 10,
        forall|i: int, j: int|
            0 <= i < j < 10 ==> spec_managers(platform)[i] != spec_managers(platform)[j],
        forall|i: int| 0 <= i < 10 ==> (#[trigger] spec_managers(platform)[i]).spec_offered_on(platform),
        forall|m: ManagerType| m.spec_offered_on(platform) ==> #[trigger] spec_managers(platform).contains(m),
{
    let ms = spec_managers(platform);
    assert forall|m: ManagerType| m.spec_offered_on(platform) implies #[trigger] ms.contains(m) by {
        match m {
            ManagerType::Npm => assert(ms[0] == m),
            ManagerType::Pnpm => assert(ms[1] == m),
            ManagerType::Pip => assert(ms[2] == m),
            ManagerType::Uv => assert(ms[3] == m),
            ManagerType::Cargo => assert(ms[4] == m),
            ManagerType::Gem => assert(ms[5] == m),
            ManagerType::Dotnet => assert(ms[6] == m),
            ManagerType::Winget | ManagerType::Brew => assert(ms[7] == m),
            ManagerType::Choco | ManagerType::Apt => assert(ms[8] == m),
            ManagerType::Scoop | ManagerType::Pacman => assert(ms[9] == m),
        }
    }
}

/// Different managers have different names, so a package's manager can be
/// found again by name.
pub proof fn lemma_names_distinct(a: ManagerType, b: ManagerType)
    ensures
        a != b ==> a.spec_name() != b.spec_name(),
{
    reveal_strlit("winget");
    reveal_strlit("npm");
    reveal_strlit("pnpm");
    reveal_strlit("pip");
    reveal_strlit("uv");
    reveal_strlit("cargo");
    reveal_strlit("choco");
    reveal_strlit("scoop");
    reveal_strlit("gem");
    reveal_strlit("dotnet");
    reveal_strlit("brew");
    reveal_strlit("apt");
    reveal_strlit("pacman");
    if a != b && a.spec_name() == b.spec_name() {
        assert(a.spec_name().len() == b.spec_name().len());
        assert(a.spec_name()[0] == b.spec_name()[0]);
        assert(a.spec_name()[1] == b.spec_name()[1]);
    }
}

/// Every update and removal acts on the package it is given. On Unix the
/// manager's own program runs it, except for apt and pacman, which go through
/// `sudo -n`; on Windows `cmd /C` starts that same program.
pub proof fn lemma_commands_name_the_package(m: ManagerType, pkg: Seq<char>, platform: Platform)
    ensures
        m.spec_update_command(pkg, platform).1.contains(pkg),
        m.spec_delete_command(pkg, platform).1.contains(pkg),
        ({
            let program = if m.spec_requires_sudo() {
                "sudo"@
            } else {
                m.spec_name()
            };
            match platform {
                Platform::Unix => {
                    &&& m.spec_update_command(pkg, platform).0 == program
                    &&& m.spec_delete_command(pkg, platform).0 == program
                    &&& m.spec_requires_sudo() ==> m.spec_update_command(pkg, platform).1[0] == "-n"@
                        && m.spec_delete_command(pkg, platform).1[0] == "-n"@
                },
                Platform::Windows => {
                    &&& m.spec_update_command(pkg, platform).0 == "cmd"@
                    &&& m.spec_delete_command(pkg, platform).0 == "cmd"@
                    &&& m.spec_update_command(pkg, platform).1[0] == "/C"@
                    &&& m.spec_update_command(pkg, platform).1[1] == program
                    &&& m.spec_delete_command(pkg, platform).1[0] == "/C"@
                    &&& m.spec_delete_command(pkg, platform).1[1] == program
                },
            }
        }),
{
    let u = m.spec_update_command(pkg, platform).1;
    let d = m.spec_delete_command(pkg, platform).1;
    assert(u[u.len() - 1] == pkg || u[u.len() - 2] == pkg);
    assert(d[d.len() - 1] == pkg || d[d.len() - 2] == pkg);
}

} // verus!
