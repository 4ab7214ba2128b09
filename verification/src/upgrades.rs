//! The available upgrades each manager's outdated output names: pairs of a
//! package name and the newest version.
use vstd::prelude::*;

use crate::package::{pair_views, Entry};
use crate::parse::{
    all_lines_ok, column_offset, column_start, drop_n, entries_of, find_line_with_prefix,
    first_with_prefix, lines_of, lines_readable, read_line_vec, read_lines, text_readable,
    LineFormat, LineRule,
};
use crate::text::{dup, seq_views, spec_lines};

verus! {

/// `gem outdated`: `name (old < new)` lines.
pub open spec fn spec_outdated_gem(text: Seq<char>) -> Seq<Entry> {
    entries_of(spec_lines(text), LineFormat::GemOutdated)
}

/// Whether every gem line can be sliced as the reading slices it.
pub open spec fn gem_outdated_readable(text: Seq<char>) -> bool {
    all_lines_ok(spec_lines(text), LineFormat::GemOutdated)
}

pub fn outdated_gem(text: &str) -> (r: Vec<(String, String)>)
    requires
        gem_outdated_readable(text@),
    ensures
        pair_views(r@) == spec_outdated_gem(text@),
{
    assert(drop_n(spec_lines(text@), 0) =~= spec_lines(text@));
    read_lines(text, 0, &LineRule::GemOutdated)
}

/// Whether `outdated_gem` can read `text`.
pub fn can_read_outdated_gem(text: &str) -> (b: bool)
    ensures
        b == gem_outdated_readable(text@),
{
    assert(drop_n(spec_lines(text@), 0) =~= spec_lines(text@));
    text_readable(text, 0, &LineRule::GemOutdated)
}

/// `brew outdated`: `name (old) < new` lines.
pub open spec fn spec_outdated_brew(text: Seq<char>) -> Seq<Entry> {
    entries_of(spec_lines(text), LineFormat::BrewOutdated)
}

pub fn outdated_brew(text: &str) -> (r: Vec<(String, String)>)
    ensures
        pair_views(r@) == spec_outdated_brew(text@),
{
    assert(drop_n(spec_lines(text@), 0) =~= spec_lines(text@));
    read_lines(text, 0, &LineRule::BrewOutdated)
}

/// `apt list --upgradable`: `name/suite new arch [upgradable from: old]` lines
/// after the `Listing...` line.
pub open spec fn spec_outdated_apt(text: Seq<char>) -> Seq<Entry> {
    entries_of(drop_n(spec_lines(text), 1), LineFormat::AptOutdated)
}

pub fn outdated_apt(text: &str) -> (r: Vec<(String, String)>)
    ensures
        pair_views(r@) == spec_outdated_apt(text@),
{
    read_lines(text, 1, &LineRule::AptOutdated)
}

/// `pacman -Qu`: `name old -> new` lines.
pub open spec fn spec_outdated_pacman(text: Seq<char>) -> Seq<Entry> {
    entries_of(spec_lines(text), LineFormat::PacmanOutdated)
}

pub fn outdated_pacman(text: &str) -> (r: Vec<(String, String)>)
    ensures
        pair_views(r@) == spec_outdated_pacman(text@),
{
    assert(drop_n(spec_lines(text@), 0) =~= spec_lines(text@));
    read_lines(text, 0, &LineRule::PacmanOutdated)
}

/// `choco outdated`: `name|old|new|pinned` lines.
pub open spec fn spec_outdated_choco(text: Seq<char>) -> Seq<Entry> {
    entries_of(spec_lines(text), LineFormat::ChocoOutdated)
}

pub fn outdated_choco(text: &str) -> (r: Vec<(String, String)>)
    ensures
        pair_views(r@) == spec_outdated_choco(text@),
{
    assert(drop_n(spec_lines(text@), 0) =~= spec_lines(text@));
    read_lines(text, 0, &LineRule::ChocoOutdated)
}

/// `scoop status`: `name old new ...` lines below the first line that starts
/// with `----`.
pub open spec fn spec_outdated_scoop(text: Seq<char>) -> Seq<Entry> {
    let ls = spec_lines(text);
    let p = first_with_prefix(ls, "----"@);
    if p < ls.len() {
        entries_of(drop_n(ls, p + 1), LineFormat::ScoopOutdated)
    } else {
        seq![]
    }
}

pub fn outdated_scoop(text: &str) -> (r: Vec<(String, String)>)
    ensures
        pair_views(r@) == spec_outdated_scoop(text@),
{
    let lines = lines_of(text);
    let p = find_line_with_prefix(&lines, "----");
    if p < lines.len() {
        read_line_vec(&lines, p + 1, &LineRule::ScoopOutdated)
    } else {
        Vec::new()
    }
}

/// The line format of a winget upgrade table whose header is `h`.
pub open spec fn winget_outdated_format(h: Seq<char>) -> LineFormat {
    LineFormat::WingetOutdated(column_offset(h, "Id"@), column_offset(h, "Available"@))
}

/// `winget upgrade`: a table whose header line starts with `Name`; below the
/// header and its rule, each row gives the first word at the byte offsets
/// where the header's `Id` and `Available` columns start.
pub open spec fn spec_outdated_winget(text: Seq<char>) -> Seq<Entry> {
    let ls = spec_lines(text);
    let p = first_with_prefix(ls, "Name"@);
    if p < ls.len() {
        entries_of(drop_n(ls, p + 2), winget_outdated_format(ls[p as int]))
    } else {
        seq![]
    }
}

/// Whether every winget row can be sliced at the header's columns.
pub open spec fn winget_outdated_readable(text: Seq<char>) -> bool {
    let ls = spec_lines(text);
    let p = first_with_prefix(ls, "Name"@);
    p < ls.len() ==> all_lines_ok(drop_n(ls, p + 2), winget_outdated_format(ls[p as int]))
}

fn winget_outdated_rule(h: &Vec<char>) -> (r: LineRule)
    ensures
        r.wf(),
        r.format() == winget_outdated_format(h@),
{
    let id_at = column_start(h, "Id");
    let avail_at = column_start(h, "Available");
    LineRule::WingetOutdated { header: dup(h), id_at, avail_at }
}

pub fn outdated_winget(text: &str) -> (r: Vec<(String, String)>)
    requires
        winget_outdated_readable(text@),
    ensures
        pair_views(r@) == spec_outdated_winget(text@),
{
    let lines = lines_of(text);
    let p = find_line_with_prefix(&lines, "Name");
    if p < lines.len() {
        assert(seq_views(lines@)[p as int] == lines@[p as int]@);
        let rule = winget_outdated_rule(&lines[p]);
        let skip = if p < lines.len() - 1 {
            p + 2
        } else {
            lines.len()
        };
        assert(drop_n(seq_views(lines@), skip as nat) =~= drop_n(seq_views(lines@), (p + 2) as nat));
        read_line_vec(&lines, skip, &rule)
    } else {
        Vec::new()
    }
}

/// Whether `outdated_winget` can read `text`.
pub fn can_read_outdated_winget(text: &str) -> (b: bool)
    ensures
        b == winget_outdated_readable(text@),
{
    let lines = lines_of(text);
    let p = find_line_with_prefix(&lines, "Name");
    if p < lines.len() {
        assert(seq_views(lines@)[p as int] == lines@[p as int]@);
        let rule = winget_outdated_rule(&lines[p]);
        let from = if p < lines.len() - 1 {
            p + 2
        } else {
            lines.len()
        };
        assert(seq_views(lines@).skip(from as int) =~= drop_n(seq_views(lines@), (p + 2) as nat));
        lines_readable(&lines, from, &rule)
    } else {
        true
    }
}

} // verus!
