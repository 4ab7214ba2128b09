//! What a manager's commands print, and the packages and upgrades read from it.
use vstd::prelude::*;

use crate::command::Platform;
use crate::installed::{
    can_list_gem, can_list_winget, gem_list_readable, list_apt, list_brew, list_cargo, list_choco,
    list_dotnet, list_gem, list_pacman, list_scoop, list_uv, list_winget, spec_list_apt,
    spec_list_brew, spec_list_cargo, spec_list_choco, spec_list_dotnet, spec_list_gem,
    spec_list_pacman, spec_list_scoop, spec_list_uv, spec_list_winget, winget_list_readable,
};
use crate::json::{
    json_document, list_npm, list_pip, list_pnpm, outdated_npm, outdated_pip, outdated_pnpm,
    parse_json, spec_list_npm, spec_list_pip, spec_list_pnpm, spec_outdated_by_latest,
    spec_outdated_pip,
};
use crate::manager::ManagerType;
use crate::package::{fresh_packages, pair_views, Entry, Package};
use crate::upgrades::{
    can_read_outdated_gem, can_read_outdated_winget, gem_outdated_readable, outdated_apt,
    outdated_brew, outdated_choco, outdated_gem, outdated_pacman, outdated_scoop,
    outdated_winget, spec_outdated_apt, spec_outdated_brew, spec_outdated_choco,
    spec_outdated_gem, spec_outdated_pacman, spec_outdated_scoop, spec_outdated_winget,
    winget_outdated_readable,
};
use vstd::utf8::{decode_utf8, valid_utf8};

verus! {

/// The bytes a command printed, as a sequence, where it could be run.
pub open spec fn printed(out: Option<&[u8]>) -> Option<Seq<u8>> {
    match out {
        Some(o) => Some(o@),
        None => None,
    }
}

/// The text std's `String::from_utf8_lossy` makes of `bytes`.
pub uninterp spec fn lossy_utf8(bytes: Seq<u8>) -> Seq<char>;

/// Decodes a command's output as UTF-8, each invalid sequence replaced.
///
/// Calls std's `String::from_utf8_lossy` and takes the text it returns as an
/// owned `String`. Its documentation says that valid UTF-8 comes back
/// unchanged, which the contract states; what the replacement of invalid
/// sequences gives is left to the name `lossy_utf8`.
#[verifier::external_body]
fn decode_output(bytes: &[u8]) -> (s: String)
    ensures
        s@ == lossy_utf8(bytes@),
        valid_utf8(bytes@) ==> s@ == decode_utf8(bytes@),
{
    String::from_utf8_lossy(bytes).into_owned()
}

impl ManagerType {
    /// The installed packages that `out`, the bytes the list command printed,
    /// names for this manager. npm, pnpm and pip print a JSON document (bytes
    /// that are none give no packages); the others print text.
    pub open spec fn spec_installed_in(self, out: Seq<u8>) -> Seq<Entry> {
        match self {
            ManagerType::Npm => match json_document(out) {
                Some(j) => spec_list_npm(j),
                None => seq![],
            },
            ManagerType::Pnpm => match json_document(out) {
                Some(j) => spec_list_pnpm(j),
                None => seq![],
            },
            ManagerType::Pip => match json_document(out) {
                Some(j) => spec_list_pip(j),
                None => seq![],
            },
            ManagerType::Uv => spec_list_uv(lossy_utf8(out)),
            ManagerType::Cargo => spec_list_cargo(lossy_utf8(out)),
            ManagerType::Gem => spec_list_gem(lossy_utf8(out)),
            ManagerType::Dotnet => spec_list_dotnet(lossy_utf8(out)),
            ManagerType::Winget => spec_list_winget(lossy_utf8(out)),
            ManagerType::Choco => spec_list_choco(lossy_utf8(out)),
            ManagerType::Scoop => spec_list_scoop(lossy_utf8(out)),
            ManagerType::Brew => spec_list_brew(lossy_utf8(out)),
            ManagerType::Apt => spec_list_apt(lossy_utf8(out)),
            ManagerType::Pacman => spec_list_pacman(lossy_utf8(out)),
        }
    }

    /// Whether reading the list output `out` stays clear of slices std
    /// refuses.
    pub open spec fn spec_installed_readable(self, out: Seq<u8>) -> bool {
        match self {
            ManagerType::Gem => gem_list_readable(lossy_utf8(out)),
            ManagerType::Winget => winget_list_readable(lossy_utf8(out)),
            _ => true,
        }
    }

    /// The installed packages on `platform`, given what the list command
    /// printed (`None` where it could not be run): none where the manager is
    /// not offered on the platform.
    pub open spec fn spec_installed(self, platform: Platform, out: Option<Seq<u8>>) -> Seq<Entry> {
        match out {
            Some(o) => if self.spec_offered_on(platform) {
                self.spec_installed_in(o)
            } else {
                seq![]
            },
            None => seq![],
        }
    }

    /// The installed packages on `platform`, read from what the list command
    /// printed.
    pub fn list_packages(&self, platform: Platform, out: Option<&[u8]>) -> (r: Vec<Package>)
        requires
            self.spec_offered_on(platform) ==> (out matches Some(o) ==> self.spec_installed_readable(o@)),
        ensures
            fresh_packages(r@, self.spec_installed(platform, printed(out)), *self),
    {
        let o = match out {
            Some(o) => o,
            None => return Vec::new(),
        };
        let offered = self.offered_on(platform);
        if !offered {
            return Vec::new();
        }
        match self {
            ManagerType::Npm => match parse_json(o) {
                Some(j) => list_npm(&j),
                None => Vec::new(),
            },
            ManagerType::Pnpm => match parse_json(o) {
                Some(j) => list_pnpm(&j),
                None => Vec::new(),
            },
            ManagerType::Pip => match parse_json(o) {
                Some(j) => list_pip(&j),
                None => Vec::new(),
            },
            ManagerType::Uv => list_uv(&decode_output(o)),
            ManagerType::Cargo => list_cargo(&decode_output(o)),
            ManagerType::Gem => list_gem(&decode_output(o)),
            ManagerType::Dotnet => list_dotnet(&decode_output(o)),
            ManagerType::Winget => list_winget(&decode_output(o)),
            ManagerType::Choco => list_choco(&decode_output(o)),
            ManagerType::Scoop => list_scoop(&decode_output(o)),
            ManagerType::Brew => list_brew(&decode_output(o)),
            ManagerType::Apt => list_apt(&decode_output(o)),
            ManagerType::Pacman => list_pacman(&decode_output(o)),
        }
    }

    /// Whether `list_packages` can read `out`.
    pub fn can_list_packages(&self, out: &[u8]) -> (b: bool)
        ensures
            b == self.spec_installed_readable(out@),
    {
        match self {
            ManagerType::Gem => can_list_gem(&decode_output(out)),
            ManagerType::Winget => can_list_winget(&decode_output(out)),
            _ => true,
        }
    }

    /// The installed packages on `platform`, or `None` exactly where the
    /// manager is offered there and its output holds a line that the list
    /// reading cannot slice.
    pub fn read_installed(&self, platform: Platform, out: Option<&[u8]>) -> (r: Option<Vec<Package>>)
        ensures
            r is None <==> (out matches Some(o) && self.spec_offered_on(platform)
                && !self.spec_installed_readable(o@)),
            r matches Some(ps) ==> fresh_packages(ps@, self.spec_installed(platform, printed(out)), *self),
    {
        match out {
            Some(o) => if self.offered_on(platform) && !self.can_list_packages(o) {
                return None;
            },
            None => {},
        }
        Some(self.list_packages(platform, out))
    }

    /// The upgrades that `out`, the bytes the upgrade command printed, names
    /// for this manager; JSON for npm, pnpm and pip, text for the others.
    pub open spec fn spec_upgrades_in(self, out: Seq<u8>) -> Seq<Entry> {
        match self {
            ManagerType::Npm => match json_document(out) {
                Some(j) => spec_outdated_by_latest(j),
                None => seq![],
            },
            ManagerType::Pnpm => match json_document(out) {
                Some(j) => spec_outdated_by_latest(j),
                None => seq![],
            },
            ManagerType::Pip => match json_document(out) {
                Some(j) => spec_outdated_pip(j),
                None => seq![],
            },
            ManagerType::Gem => spec_outdated_gem(lossy_utf8(out)),
            ManagerType::Winget => spec_outdated_winget(lossy_utf8(out)),
            ManagerType::Choco => spec_outdated_choco(lossy_utf8(out)),
            ManagerType::Scoop => spec_outdated_scoop(lossy_utf8(out)),
            ManagerType::Brew => spec_outdated_brew(lossy_utf8(out)),
            ManagerType::Apt => spec_outdated_apt(lossy_utf8(out)),
            ManagerType::Pacman => spec_outdated_pacman(lossy_utf8(out)),
            _ => seq![],
        }
    }

    /// Whether reading the upgrade output `out` stays clear of slices std
    /// refuses.
    pub open spec fn spec_upgrades_readable(self, out: Seq<u8>) -> bool {
        match self {
            ManagerType::Gem => gem_outdated_readable(lossy_utf8(out)),
            ManagerType::Winget => winget_outdated_readable(lossy_utf8(out)),
            _ => true,
        }
    }

    /// The upgrades on `platform`, given what the upgrade command printed
    /// (`None` where it could not be run): none where the manager is not
    /// asked on the platform.
    pub open spec fn spec_upgrades(self, platform: Platform, out: Option<Seq<u8>>) -> Seq<Entry> {
        match out {
            Some(o) => if self.spec_checks_outdated(platform) {
                self.spec_upgrades_in(o)
            } else {
                seq![]
            },
            None => seq![],
        }
    }

    /// The upgrades on `platform`, read from what the upgrade command printed.
    pub fn list_outdated(&self, platform: Platform, out: Option<&[u8]>) -> (r: Vec<(String, String)>)
        requires
            self.spec_checks_outdated(platform) ==> (out matches Some(o) ==> self.spec_upgrades_readable(o@)),
        ensures
            pair_views(r@) == self.spec_upgrades(platform, printed(out)),
    {
        let o = match out {
            Some(o) => o,
            None => return Vec::new(),
        };
        let asked = self.checks_outdated(platform);
        if !asked {
            return Vec::new();
        }
        match self {
            ManagerType::Npm => match parse_json(o) {
                Some(j) => outdated_npm(&j),
                None => Vec::new(),
            },
            ManagerType::Pnpm => match parse_json(o) {
                Some(j) => outdated_pnpm(&j),
                None => Vec::new(),
            },
            ManagerType::Pip => match parse_json(o) {
                Some(j) => outdated_pip(&j),
                None => Vec::new(),
            },
            ManagerType::Gem => outdated_gem(&decode_output(o)),
            ManagerType::Winget => outdated_winget(&decode_output(o)),
            ManagerType::Choco => outdated_choco(&decode_output(o)),
            ManagerType::Scoop => outdated_scoop(&decode_output(o)),
            ManagerType::Brew => outdated_brew(&decode_output(o)),
            ManagerType::Apt => outdated_apt(&decode_output(o)),
            ManagerType::Pacman => outdated_pacman(&decode_output(o)),
            _ => Vec::new(),
        }
    }

    /// Whether `list_outdated` can read `out`.
    pub fn can_list_outdated(&self, out: &[u8]) -> (b: bool)
        ensures
            b == self.spec_upgrades_readable(out@),
    {
        match self {
            ManagerType::Gem => can_read_outdated_gem(&decode_output(out)),
            ManagerType::Winget => can_read_outdated_winget(&decode_output(out)),
            _ => true,
        }
    }

    /// The upgrades on `platform`, or `None` exactly where the manager is
    /// asked there and its output holds a line that the upgrade reading
    /// cannot slice.
    pub fn read_upgrades(&self, platform: Platform, out: Option<&[u8]>) -> (r: Option<
        Vec<(String, String)>,
    >)
        ensures
            r is None <==> (out matches Some(o) && self.spec_checks_outdated(platform)
                && !self.spec_upgrades_readable(o@)),
            r matches Some(ps) ==> pair_views(ps@) == self.spec_upgrades(platform, printed(out)),
    {
        match out {
            Some(o) => if self.checks_outdated(platform) && !self.can_list_outdated(o) {
                return None;
            },
            None => {},
        }
        Some(self.list_outdated(platform, out))
    }
}

} // verus!
