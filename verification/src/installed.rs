//! The installed packages each manager's list output names.
use vstd::prelude::*;

use crate::manager::ManagerType;
use crate::package::{fresh_packages, packages_from_pairs, Entry, Package};
use crate::parse::{
    all_lines_ok, column_offset, column_start, drop_n, entries_of, find_line_with_prefix,
    first_with_prefix, lines_of, read_line_vec, read_lines, text_readable, LineFormat, LineRule,
};
use crate::parse::{lemma_choco_list_line, lemma_entry_from_line, lemma_line_gives_entry, line_entry};
use crate::text::{
    contains, starts_with, ws_tokens, lemma_lead_count_bound, lemma_tokens_are_words, seq_views, spec_lines, trim_start_char,
    CharClass,
};

verus! {

/// `uv tool list`: `name vX.Y.Z` lines.
pub open spec fn spec_list_uv(text: Seq<char>) -> Seq<Entry> {
    entries_of(spec_lines(text), LineFormat::Uv)
}

pub fn list_uv(text: &str) -> (r: Vec<Package>)
    ensures
        fresh_packages(r@, spec_list_uv(text@), ManagerType::Uv),
{
    let pairs = read_lines(text, 0, &LineRule::Uv);
    assert(drop_n(spec_lines(text@), 0) =~= spec_lines(text@));
    packages_from_pairs(&pairs, ManagerType::Uv)
}

/// `cargo install --list`: `name vX.Y.Z:` lines heading each crate.
pub open spec fn spec_list_cargo(text: Seq<char>) -> Seq<Entry> {
    entries_of(spec_lines(text), LineFormat::Cargo)
}

pub fn list_cargo(text: &str) -> (r: Vec<Package>)
    ensures
        fresh_packages(r@, spec_list_cargo(text@), ManagerType::Cargo),
{
    let pairs = read_lines(text, 0, &LineRule::Cargo);
    assert(drop_n(spec_lines(text@), 0) =~= spec_lines(text@));
    packages_from_pairs(&pairs, ManagerType::Cargo)
}

/// `choco list -lo`: `name version` lines between the banner and the summary.
pub open spec fn spec_list_choco(text: Seq<char>) -> Seq<Entry> {
    entries_of(spec_lines(text), LineFormat::ChocoList)
}

pub fn list_choco(text: &str) -> (r: Vec<Package>)
    ensures
        fresh_packages(r@, spec_list_choco(text@), ManagerType::Choco),
{
    let pairs = read_lines(text, 0, &LineRule::ChocoList);
    assert(drop_n(spec_lines(text@), 0) =~= spec_lines(text@));
    packages_from_pairs(&pairs, ManagerType::Choco)
}

/// `scoop list`: `name version ...` lines after two heading lines.
pub open spec fn spec_list_scoop(text: Seq<char>) -> Seq<Entry> {
    entries_of(drop_n(spec_lines(text), 2), LineFormat::WordPair)
}

pub fn list_scoop(text: &str) -> (r: Vec<Package>)
    ensures
        fresh_packages(r@, spec_list_scoop(text@), ManagerType::Scoop),
{
    let pairs = read_lines(text, 2, &LineRule::WordPair);
    packages_from_pairs(&pairs, ManagerType::Scoop)
}

/// `dotnet tool list -g`: `name version command` lines after two heading
/// lines.
pub open spec fn spec_list_dotnet(text: Seq<char>) -> Seq<Entry> {
    entries_of(drop_n(spec_lines(text), 2), LineFormat::WordPair)
}

pub fn list_dotnet(text: &str) -> (r: Vec<Package>)
    ensures
        fresh_packages(r@, spec_list_dotnet(text@), ManagerType::Dotnet),
{
    let pairs = read_lines(text, 2, &LineRule::WordPair);
    packages_from_pairs(&pairs, ManagerType::Dotnet)
}

/// `gem list --local`: `name (v1, v2)` lines, the first version kept.
pub open spec fn spec_list_gem(text: Seq<char>) -> Seq<Entry> {
    entries_of(spec_lines(text), LineFormat::GemList)
}

/// Whether every gem line can be sliced as the listing slices it.
pub open spec fn gem_list_readable(text: Seq<char>) -> bool {
    all_lines_ok(spec_lines(text), LineFormat::GemList)
}

pub fn list_gem(text: &str) -> (r: Vec<Package>)
    requires
        gem_list_readable(text@),
    ensures
        fresh_packages(r@, spec_list_gem(text@), ManagerType::Gem),
{
    assert(drop_n(spec_lines(text@), 0) =~= spec_lines(text@));
    let pairs = read_lines(text, 0, &LineRule::GemList);
    packages_from_pairs(&pairs, ManagerType::Gem)
}

/// Whether `list_gem` can read `text`.
pub fn can_list_gem(text: &str) -> (b: bool)
    ensures
        b == gem_list_readable(text@),
{
    assert(drop_n(spec_lines(text@), 0) =~= spec_lines(text@));
    text_readable(text, 0, &LineRule::GemList)
}

/// `brew list --versions`: `name version...` lines.
pub open spec fn spec_list_brew(text: Seq<char>) -> Seq<Entry> {
    entries_of(spec_lines(text), LineFormat::WordPair)
}

pub fn list_brew(text: &str) -> (r: Vec<Package>)
    ensures
        fresh_packages(r@, spec_list_brew(text@), ManagerType::Brew),
{
    let pairs = read_lines(text, 0, &LineRule::WordPair);
    assert(drop_n(spec_lines(text@), 0) =~= spec_lines(text@));
    packages_from_pairs(&pairs, ManagerType::Brew)
}

/// `apt list --installed`: `name/suite version arch [state]` lines after the
/// `Listing...` line.
pub open spec fn spec_list_apt(text: Seq<char>) -> Seq<Entry> {
    entries_of(drop_n(spec_lines(text), 1), LineFormat::AptList)
}

pub fn list_apt(text: &str) -> (r: Vec<Package>)
    ensures
        fresh_packages(r@, spec_list_apt(text@), ManagerType::Apt),
{
    let pairs = read_lines(text, 1, &LineRule::AptList);
    packages_from_pairs(&pairs, ManagerType::Apt)
}

/// `pacman -Qe`: `name version` lines.
pub open spec fn spec_list_pacman(text: Seq<char>) -> Seq<Entry> {
    entries_of(spec_lines(text), LineFormat::WordPair)
}

pub fn list_pacman(text: &str) -> (r: Vec<Package>)
    ensures
        fresh_packages(r@, spec_list_pacman(text@), ManagerType::Pacman),
{
    let pairs = read_lines(text, 0, &LineRule::WordPair);
    assert(drop_n(spec_lines(text@), 0) =~= spec_lines(text@));
    packages_from_pairs(&pairs, ManagerType::Pacman)
}

/// The line format of a winget list table whose header is `h`.
pub open spec fn winget_list_format(h: Seq<char>) -> LineFormat {
    LineFormat::WingetList(column_offset(h, "Id"@), column_offset(h, "Version"@))
}

/// `winget list`: a table whose header line starts with `Name`; below the
/// header and its rule, each row is cut at the byte offsets where the header's
/// `Id` and `Version` columns start.
pub open spec fn spec_list_winget(text: Seq<char>) -> Seq<Entry> {
    let ls = spec_lines(text);
    let p = first_with_prefix(ls, "Name"@);
    if p < ls.len() {
        entries_of(drop_n(ls, p + 2), winget_list_format(ls[p as int]))
    } else {
        seq![]
    }
}

/// Whether every winget row can be cut at the header's columns.
pub open spec fn winget_list_readable(text: Seq<char>) -> bool {
    let ls = spec_lines(text);
    let p = first_with_prefix(ls, "Name"@);
    p < ls.len() ==> all_lines_ok(drop_n(ls, p + 2), winget_list_format(ls[p as int]))
}

/// The rule for the rows under the header line `h`.
fn winget_list_rule(h: &Vec<char>) -> (r: LineRule)
    ensures
        r.wf(),
        r.format() == winget_list_format(h@),
{
    let id_at = column_start(h, "Id");
    let ver_at = column_start(h, "Version");
    LineRule::WingetList { header: crate::text::dup(h), id_at, ver_at }
}

pub fn list_winget(text: &str) -> (r: Vec<Package>)
    requires
        winget_list_readable(text@),
    ensures
        fresh_packages(r@, spec_list_winget(text@), ManagerType::Winget),
{
    let lines = lines_of(text);
    let p = find_line_with_prefix(&lines, "Name");
    if p < lines.len() {
        assert(seq_views(lines@)[p as int] == lines@[p as int]@);
        let rule = winget_list_rule(&lines[p]);
        let skip = if p < lines.len() - 1 {
            p + 2
        } else {
            lines.len()
        };
        assert(drop_n(seq_views(lines@), skip as nat) =~= drop_n(seq_views(lines@), (p + 2) as nat));
        let pairs = read_line_vec(&lines, skip, &rule);
        packages_from_pairs(&pairs, ManagerType::Winget)
    } else {
        Vec::new()
    }
}

/// Whether `list_winget` can read `text`.
pub fn can_list_winget(text: &str) -> (b: bool)
    ensures
        b == winget_list_readable(text@),
{
    let lines = lines_of(text);
    let p = find_line_with_prefix(&lines, "Name");
    if p < lines.len() {
        assert(seq_views(lines@)[p as int] == lines@[p as int]@);
        let rule = winget_list_rule(&lines[p]);
        let from = if p < lines.len() - 1 {
            p + 2
        } else {
            lines.len()
        };
        assert(seq_views(lines@).skip(from as int) =~= drop_n(seq_views(lines@), (p + 2) as nat));
        crate::parse::lines_readable(&lines, from, &rule)
    } else {
        true
    }
}

proof fn lemma_trimmed_v(s: Seq<char>)
    ensures
        trim_start_char(s, 'v').len() > 0 ==> trim_start_char(s, 'v')[0] != 'v',
{
    lemma_lead_count_bound(s, CharClass::Exactly('v'));
    let n = crate::text::lead_count(s, CharClass::Exactly('v'));
    if trim_start_char(s, 'v').len() > 0 {
        assert(trim_start_char(s, 'v')[0] == s[n as int]);
    }
}

/// uv reports versions as `vX.Y.Z`; the listed versions never start with `v`.
pub proof fn lemma_uv_versions_without_v(text: Seq<char>, i: int)
    requires
        0 <= i < spec_list_uv(text).len(),
    ensures
        spec_list_uv(text)[i].1.len() > 0 ==> spec_list_uv(text)[i].1[0] != 'v',
{
    let ls = spec_lines(text);
    lemma_entry_from_line(ls, LineFormat::Uv, i);
    let j = choose|j: int| 0 <= j < ls.len() && line_entry(LineFormat::Uv, #[trigger] ls[j]) == Some(spec_list_uv(text)[i]);
    let t = crate::text::ws_tokens(ls[j]);
    lemma_trimmed_v(t[1]);
}

/// cargo reports versions as `vX.Y.Z:`; the listed versions never start with
/// `v`.
pub proof fn lemma_cargo_versions_without_v(text: Seq<char>, i: int)
    requires
        0 <= i < spec_list_cargo(text).len(),
    ensures
        spec_list_cargo(text)[i].1.len() > 0 ==> spec_list_cargo(text)[i].1[0] != 'v',
{
    let ls = spec_lines(text);
    lemma_entry_from_line(ls, LineFormat::Cargo, i);
    let j = choose|j: int| 0 <= j < ls.len() && line_entry(LineFormat::Cargo, #[trigger] ls[j]) == Some(spec_list_cargo(text)[i]);
    let t = crate::text::ws_tokens(crate::text::trim_end_char(ls[j], ':'));
    lemma_trimmed_v(t[1]);
}

/// Every package listed by winget has a non-empty id without spaces.
pub proof fn lemma_winget_ids(text: Seq<char>, i: int)
    requires
        0 <= i < spec_list_winget(text).len(),
    ensures
        spec_list_winget(text)[i].0.len() > 0,
        !contains(spec_list_winget(text)[i].0, " "@),
{
    let ls = spec_lines(text);
    let p = first_with_prefix(ls, "Name"@);
    let body = drop_n(ls, p + 2);
    let f = winget_list_format(ls[p as int]);
    lemma_entry_from_line(body, f, i);
}

/// Every name and version read from `word pair` lines (brew, scoop, dotnet,
/// pacman) is a whole word: non-empty, without whitespace.
pub proof fn lemma_word_pairs_are_words(text: Seq<char>, skip: nat, i: int)
    requires
        0 <= i < entries_of(drop_n(spec_lines(text), skip), LineFormat::WordPair).len(),
    ensures
        ({
            let e = entries_of(drop_n(spec_lines(text), skip), LineFormat::WordPair)[i];
            &&& e.0.len() > 0 && e.1.len() > 0
            &&& forall|k: int| 0 <= k < e.0.len() ==> !crate::text::is_ws(#[trigger] e.0[k])
            &&& forall|k: int| 0 <= k < e.1.len() ==> !crate::text::is_ws(#[trigger] e.1[k])
        }),
{
    let ls = drop_n(spec_lines(text), skip);
    lemma_entry_from_line(ls, LineFormat::WordPair, i);
    let j = choose|j: int| 0 <= j < ls.len() && line_entry(LineFormat::WordPair, #[trigger] ls[j]) == Some(
        entries_of(ls, LineFormat::WordPair)[i],
    );
    lemma_tokens_are_words(ls[j]);
    let t = crate::text::ws_tokens(ls[j]);
    assert forall|k: int| 0 <= k < t[0].len() implies !crate::text::is_ws(#[trigger] t[0][k]) by {
        assert(!crate::text::is_ws(t[0][k]));
    }
    assert forall|k: int| 0 <= k < t[1].len() implies !crate::text::is_ws(#[trigger] t[1][k]) by {
        assert(!crate::text::is_ws(t[1][k]));
    }
}

/// Every line of choco's list output with at least two words that is neither
/// the banner (starting with `Chocolatey`) nor the summary (holding
/// `packages installed`) lists its first word as a package at the version of
/// its second.
pub proof fn lemma_choco_lists_every_package_line(text: Seq<char>, j: int)
    requires
        0 <= j < spec_lines(text).len(),
        ws_tokens(spec_lines(text)[j]).len() >= 2,
        !starts_with(spec_lines(text)[j], "Chocolatey"@),
        !contains(spec_lines(text)[j], "packages installed"@),
    ensures
        spec_list_choco(text).contains(
            (ws_tokens(spec_lines(text)[j])[0], ws_tokens(spec_lines(text)[j])[1]),
        ),
{
    lemma_choco_list_line(spec_lines(text)[j]);
    lemma_line_gives_entry(spec_lines(text), LineFormat::ChocoList, j);
}

} // verus!
