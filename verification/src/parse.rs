//! Reading the text that package managers print into names and versions.
use vstd::prelude::*;

use crate::package::{pair_views, Entry};
use crate::text::{
    before_first, before_first_seq, byte_len, char_at_byte, contains, contains_seq, copy_range,
    dup, ends_with, ends_with_seq, eq_chars, find, find_seq, first_word, is_boundary,
    lemma_byte_len_mono, lemma_char_at_byte, lemma_find_bound, locate_byte, seq_views,
    split_char, split_lines, split_on_char, split_whitespace, spec_lines, starts_with,
    starts_with_seq, string_of, to_chars, trim, trim_end_char, trim_end_matches_char, trim_seq,
    trim_start_char, trim_start_matches_char, ws_tokens, BytePos,
};

verus! {

/// A word, or `d` where there is none.
pub open spec fn word_or(w: Option<Seq<char>>, d: Seq<char>) -> Seq<char> {
    match w {
        Some(x) => x,
        None => d,
    }
}

/// The index of the first word equal to `w`, or the number of words.
pub open spec fn index_of_word(t: Seq<Seq<char>>, w: Seq<char>) -> nat
    decreases t.len(),
{
    if t.len() == 0 || t[0] == w {
        0
    } else {
        1 + index_of_word(t.drop_first(), w)
    }
}

pub proof fn lemma_index_of_word(t: Seq<Seq<char>>, w: Seq<char>, n: int)
    requires
        0 <= n <= t.len(),
        forall|k: int| 0 <= k < n ==> #[trigger] t[k] != w,
        n == t.len() || t[n] == w,
    ensures
        index_of_word(t, w) == n,
    decreases n,
{
    if n > 0 {
        assert forall|k: int| 0 <= k < n - 1 implies #[trigger] t.drop_first()[k] != w by {
            assert(t.drop_first()[k] == t[k + 1]);
        }
        if n < t.len() {
            assert(t.drop_first()[n - 1] == t[n]);
        }
        lemma_index_of_word(t.drop_first(), w, n - 1);
    }
}

/// `name version` lines (brew, scoop, dotnet and pacman lists): the first two
/// words.
pub open spec fn word_pair_entry(line: Seq<char>) -> Option<Entry> {
    let t = ws_tokens(line);
    if t.len() >= 2 {
        Some((t[0], t[1]))
    } else {
        None
    }
}

/// uv tool lines: the first two words, the version without its leading `v`s.
pub open spec fn uv_entry(line: Seq<char>) -> Option<Entry> {
    let t = ws_tokens(line);
    if t.len() >= 2 {
        Some((t[0], trim_start_char(t[1], 'v')))
    } else {
        None
    }
}

/// cargo install lines: a crate heads a block with `name vX.Y.Z:`; the lines
/// under it start with a space.
pub open spec fn cargo_entry(line: Seq<char>) -> Option<Entry> {
    if ends_with(line, ":"@) && !starts_with(line, " "@) {
        let t = ws_tokens(trim_end_char(line, ':'));
        if t.len() >= 2 {
            Some((t[0], trim_start_char(t[1], 'v')))
        } else {
            None
        }
    } else {
        None
    }
}

/// choco list lines: the first two words, but not the banner or the summary.
pub open spec fn choco_list_entry(line: Seq<char>) -> Option<Entry> {
    let t = ws_tokens(line);
    if t.len() >= 2 && !contains(line, "packages installed"@) && !starts_with(line, "Chocolatey"@) {
        Some((t[0], t[1]))
    } else {
        None
    }
}

/// gem list lines `name (v1, v2)`: the name, and what stands between the
/// parenthesis and the line's last character up to the first `, `.
pub open spec fn gem_list_entry(line: Seq<char>) -> Option<Entry> {
    match find(line, " ("@) {
        Some(i) => Some(
            (line.take(i as int), before_first(line.subrange(i + 2 as int, line.len() - 1), ", "@)),
        ),
        None => None,
    }
}

/// Whether slicing a gem line from after ` (` to its last byte stays within
/// the line and falls between characters: the line must hold a character
/// after ` (`, and its last character must take one byte, else the slice of
/// the `str` panics.
pub open spec fn gem_list_ok(line: Seq<char>) -> bool {
    match find(line, " ("@) {
        Some(i) => i + 2 <= line.len() - 1 && (line.last() as u32) < 0x80,
        None => true,
    }
}

/// apt list lines `name/suite version arch [state]`.
pub open spec fn apt_list_entry(line: Seq<char>) -> Option<Entry> {
    match (find(line, "/"@), find(line, " "@)) {
        (Some(i), Some(j)) => Some(
            (line.take(i as int), word_or(first_word(line.skip(j as int)), "unknown"@)),
        ),
        _ => None,
    }
}

/// brew outdated lines `name (old) < new`: the first word, and the word after
/// the first `<`.
pub open spec fn brew_outdated_entry(line: Seq<char>) -> Option<Entry> {
    let t = ws_tokens(line);
    let k = index_of_word(t, "<"@);
    if t.len() > 0 && k + 1 < t.len() {
        Some((t[0], t[k + 1 as int]))
    } else {
        None
    }
}

/// apt upgradable lines `name/suite new arch [upgradable from: old]`.
pub open spec fn apt_outdated_entry(line: Seq<char>) -> Option<Entry> {
    match (find(line, "/"@), find(line, " "@)) {
        (Some(i), Some(j)) => Some(
            (line.take(i as int), word_or(first_word(trim(line.skip(j as int))), "unknown"@)),
        ),
        _ => None,
    }
}

/// pacman -Qu lines `name old -> new`.
pub open spec fn pacman_outdated_entry(line: Seq<char>) -> Option<Entry> {
    let t = ws_tokens(line);
    if t.len() >= 4 && t[2] == "->"@ {
        Some((t[0], t[3]))
    } else {
        None
    }
}

/// gem outdated lines `name (old < new)`: the name, and what stands between
/// `< ` and the line's last character up to the first `, `.
pub open spec fn gem_outdated_entry(line: Seq<char>) -> Option<Entry> {
    match find(line, " ("@) {
        Some(i) => match find(line, "< "@) {
            Some(j) => Some(
                (line.take(i as int), before_first(line.subrange(j + 2 as int, line.len() - 1), ", "@)),
            ),
            None => None,
        },
        None => None,
    }
}

/// Whether slicing a gem outdated line from after `< ` to its last byte stays
/// within the line and falls between characters.
pub open spec fn gem_outdated_ok(line: Seq<char>) -> bool {
    match (find(line, " ("@), find(line, "< "@)) {
        (Some(_), Some(j)) => j + 2 <= line.len() - 1 && (line.last() as u32) < 0x80,
        _ => true,
    }
}

/// choco outdated lines `name|old|new|pinned`.
pub open spec fn choco_outdated_entry(line: Seq<char>) -> Option<Entry> {
    let p = split_char(line, '|');
    if p.len() >= 3 {
        Some((p[0], p[2]))
    } else {
        None
    }
}

/// scoop status lines `name old new ...`.
pub open spec fn scoop_outdated_entry(line: Seq<char>) -> Option<Entry> {
    let t = ws_tokens(line);
    if t.len() >= 3 {
        Some((t[0], t[2]))
    } else {
        None
    }
}

/// winget list lines, cut at the byte offsets where the header's `Id` and
/// `Version` columns start.
pub open spec fn winget_list_entry(line: Seq<char>, id_b: nat, ver_b: nat) -> Option<Entry> {
    if byte_len(line) > ver_b {
        let a = char_at_byte(line, id_b as int);
        let b = char_at_byte(line, ver_b as int);
        let id = trim(line.subrange(a, b));
        let ver = word_or(first_word(line.skip(b)), "unknown"@);
        if id.len() > 0 && !contains(id, " "@) {
            Some((id, ver))
        } else {
            None
        }
    } else {
        None
    }
}

/// Whether the byte slice of a winget list line between the two columns is a
/// slice that std allows.
pub open spec fn winget_list_ok(line: Seq<char>, id_b: nat, ver_b: nat) -> bool {
    byte_len(line) > ver_b ==> id_b <= ver_b && is_boundary(line, id_b as int) && is_boundary(
        line,
        ver_b as int,
    )
}

/// winget upgrade lines: the first word from the `Id` column and from the
/// `Available` column.
pub open spec fn winget_outdated_entry(line: Seq<char>, id_b: nat, avail_b: nat) -> Option<Entry> {
    if byte_len(line) > avail_b {
        let id = word_or(first_word(line.skip(char_at_byte(line, id_b as int))), ""@);
        let avail = word_or(first_word(line.skip(char_at_byte(line, avail_b as int))), ""@);
        if id.len() > 0 && avail.len() > 0 && !contains(id, " "@) && id != "Id"@ {
            Some((id, avail))
        } else {
            None
        }
    } else {
        None
    }
}

/// Whether slicing a winget upgrade line at both columns is allowed.
pub open spec fn winget_outdated_ok(line: Seq<char>, id_b: nat, avail_b: nat) -> bool {
    byte_len(line) > avail_b ==> is_boundary(line, id_b as int) && is_boundary(line, avail_b as int)
}

/// How the lines of one kind of output are read.
pub enum LineFormat {
    WordPair,
    Uv,
    Cargo,
    ChocoList,
    GemList,
    AptList,
    BrewOutdated,
    AptOutdated,
    PacmanOutdated,
    GemOutdated,
    ChocoOutdated,
    ScoopOutdated,
    /// The byte offsets of the `Id` and `Version` columns.
    WingetList(nat, nat),
    /// The byte offsets of the `Id` and `Available` columns.
    WingetOutdated(nat, nat),
}

/// What one line gives under format `f`.
pub open spec fn line_entry(f: LineFormat, line: Seq<char>) -> Option<Entry> {
    match f {
        LineFormat::WordPair => word_pair_entry(line),
        LineFormat::Uv => uv_entry(line),
        LineFormat::Cargo => cargo_entry(line),
        LineFormat::ChocoList => choco_list_entry(line),
        LineFormat::GemList => gem_list_entry(line),
        LineFormat::AptList => apt_list_entry(line),
        LineFormat::BrewOutdated => brew_outdated_entry(line),
        LineFormat::AptOutdated => apt_outdated_entry(line),
        LineFormat::PacmanOutdated => pacman_outdated_entry(line),
        LineFormat::GemOutdated => gem_outdated_entry(line),
        LineFormat::ChocoOutdated => choco_outdated_entry(line),
        LineFormat::ScoopOutdated => scoop_outdated_entry(line),
        LineFormat::WingetList(a, b) => winget_list_entry(line, a, b),
        LineFormat::WingetOutdated(a, b) => winget_outdated_entry(line, a, b),
    }
}

/// Whether reading `line` under format `f` stays clear of a slice that std
/// refuses.
pub open spec fn line_ok(f: LineFormat, line: Seq<char>) -> bool {
    match f {
        LineFormat::GemList => gem_list_ok(line),
        LineFormat::GemOutdated => gem_outdated_ok(line),
        LineFormat::WingetList(a, b) => winget_list_ok(line, a, b),
        LineFormat::WingetOutdated(a, b) => winget_outdated_ok(line, a, b),
        _ => true,
    }
}

/// What the lines `ls` give under format `f`, in order.
pub open spec fn entries_of(ls: Seq<Seq<char>>, f: LineFormat) -> Seq<Entry>
    decreases ls.len(),
{
    if ls.len() == 0 {
        seq![]
    } else {
        let rest = entries_of(ls.drop_last(), f);
        match line_entry(f, ls.last()) {
            Some(e) => rest.push(e),
            None => rest,
        }
    }
}

/// Whether every line of `ls` can be read under format `f`.
pub open spec fn all_lines_ok(ls: Seq<Seq<char>>, f: LineFormat) -> bool {
    forall|i: int| 0 <= i < ls.len() ==> line_ok(f, #[trigger] ls[i])
}

/// All lines of `ls` from the `n`-th on.
pub open spec fn drop_n(ls: Seq<Seq<char>>, n: nat) -> Seq<Seq<char>> {
    if n >= ls.len() {
        seq![]
    } else {
        ls.skip(n as int)
    }
}

/// A word of `toks`, or `d` where there are none.
fn first_word_or(toks: &Vec<Vec<char>>, d: &str) -> (r: Vec<char>)
    ensures
        r@ == word_or(if seq_views(toks@).len() > 0 { Some(seq_views(toks@)[0]) } else { None }, d@),
{
    if toks.len() > 0 {
        dup(&toks[0])
    } else {
        to_chars(d)
    }
}

fn word_pair_line(line: &Vec<char>) -> (r: Option<(Vec<char>, Vec<char>)>)
    ensures
        opt_view(r) == word_pair_entry(line@),
{
    let t = split_whitespace(line);
    if t.len() >= 2 {
        assert(seq_views(t@)[0] == t@[0]@ && seq_views(t@)[1] == t@[1]@);
        Some((dup(&t[0]), dup(&t[1])))
    } else {
        None
    }
}

fn uv_line(line: &Vec<char>) -> (r: Option<(Vec<char>, Vec<char>)>)
    ensures
        opt_view(r) == uv_entry(line@),
{
    let t = split_whitespace(line);
    if t.len() >= 2 {
        assert(seq_views(t@)[0] == t@[0]@ && seq_views(t@)[1] == t@[1]@);
        Some((dup(&t[0]), trim_start_matches_char(&t[1], 'v')))
    } else {
        None
    }
}

fn cargo_line(line: &Vec<char>) -> (r: Option<(Vec<char>, Vec<char>)>)
    ensures
        opt_view(r) == cargo_entry(line@),
{
    if ends_with_seq(line, &to_chars(":")) && !starts_with_seq(line, &to_chars(" ")) {
        let head = trim_end_matches_char(line, ':');
        let t = split_whitespace(&head);
        if t.len() >= 2 {
            assert(seq_views(t@)[0] == t@[0]@ && seq_views(t@)[1] == t@[1]@);
            Some((dup(&t[0]), trim_start_matches_char(&t[1], 'v')))
        } else {
            None
        }
    } else {
        None
    }
}

fn choco_list_line(line: &Vec<char>) -> (r: Option<(Vec<char>, Vec<char>)>)
    ensures
        opt_view(r) == choco_list_entry(line@),
{
    let t = split_whitespace(line);
    if t.len() >= 2 && !contains_seq(line, &to_chars("packages installed")) && !starts_with_seq(
        line,
        &to_chars("Chocolatey"),
    ) {
        assert(seq_views(t@)[0] == t@[0]@ && seq_views(t@)[1] == t@[1]@);
        Some((dup(&t[0]), dup(&t[1])))
    } else {
        None
    }
}

fn gem_list_line(line: &Vec<char>) -> (r: Option<(Vec<char>, Vec<char>)>)
    requires
        gem_list_ok(line@),
    ensures
        opt_view(r) == gem_list_entry(line@),
{
    match find_seq(line, &to_chars(" (")) {
        Some(i) => {
            proof {
                lemma_find_bound(line@, " ("@, 0);
            }
            let n = line.len();
            assert(i + 2 <= n - 1);
            let name = copy_range(line, 0, i);
            let part = copy_range(line, i + 2, line.len() - 1);
            let ver = before_first_seq(&part, &to_chars(", "));
            Some((name, ver))
        },
        None => None,
    }
}

fn apt_list_line(line: &Vec<char>) -> (r: Option<(Vec<char>, Vec<char>)>)
    ensures
        opt_view(r) == apt_list_entry(line@),
{
    proof {
        lemma_find_bound(line@, "/"@, 0);
        lemma_find_bound(line@, " "@, 0);
    }
    match (find_seq(line, &to_chars("/")), find_seq(line, &to_chars(" "))) {
        (Some(i), Some(j)) => {
            let name = copy_range(line, 0, i);
            let rest = copy_range(line, j, line.len());
            assert(rest@ =~= line@.skip(j as int));
            let toks = split_whitespace(&rest);
            Some((name, first_word_or(&toks, "unknown")))
        },
        _ => None,
    }
}

fn brew_outdated_line(line: &Vec<char>) -> (r: Option<(Vec<char>, Vec<char>)>)
    ensures
        opt_view(r) == brew_outdated_entry(line@),
{
    let t = split_whitespace(line);
    let lt = to_chars("<");
    let mut k: usize = 0;
    while k < t.len() && !eq_chars(&t[k], &lt)
        invariant
            k <= t@.len(),
            lt@ == "<"@,
            forall|m: int| 0 <= m < k ==> #[trigger] seq_views(t@)[m] != "<"@,
        decreases t@.len() - k,
    {
        k = k + 1;
    }
    proof {
        lemma_index_of_word(seq_views(t@), "<"@, k as int);
    }
    if t.len() > 0 && k < t.len() - 1 {
        assert(seq_views(t@)[0] == t@[0]@ && seq_views(t@)[k + 1] == t@[k + 1]@);
        Some((dup(&t[0]), dup(&t[k + 1])))
    } else {
        None
    }
}

fn apt_outdated_line(line: &Vec<char>) -> (r: Option<(Vec<char>, Vec<char>)>)
    ensures
        opt_view(r) == apt_outdated_entry(line@),
{
    proof {
        lemma_find_bound(line@, "/"@, 0);
        lemma_find_bound(line@, " "@, 0);
    }
    match (find_seq(line, &to_chars("/")), find_seq(line, &to_chars(" "))) {
        (Some(i), Some(j)) => {
            let name = copy_range(line, 0, i);
            let rest = copy_range(line, j, line.len());
            assert(rest@ =~= line@.skip(j as int));
            let trimmed = trim_seq(&rest);
            let toks = split_whitespace(&trimmed);
            Some((name, first_word_or(&toks, "unknown")))
        },
        _ => None,
    }
}

fn pacman_outdated_line(line: &Vec<char>) -> (r: Option<(Vec<char>, Vec<char>)>)
    ensures
        opt_view(r) == pacman_outdated_entry(line@),
{
    let t = split_whitespace(line);
    if t.len() >= 4 && eq_chars(&t[2], &to_chars("->")) {
        assert(seq_views(t@)[0] == t@[0]@ && seq_views(t@)[2] == t@[2]@ && seq_views(t@)[3]
            == t@[3]@);
        Some((dup(&t[0]), dup(&t[3])))
    } else {
        proof {
            if t@.len() >= 4 {
                assert(seq_views(t@)[2] == t@[2]@);
            }
        }
        None
    }
}

fn gem_outdated_line(line: &Vec<char>) -> (r: Option<(Vec<char>, Vec<char>)>)
    requires
        gem_outdated_ok(line@),
    ensures
        opt_view(r) == gem_outdated_entry(line@),
{
    match find_seq(line, &to_chars(" (")) {
        Some(i) => match find_seq(line, &to_chars("< ")) {
            Some(j) => {
                proof {
                    lemma_find_bound(line@, " ("@, 0);
                    lemma_find_bound(line@, "< "@, 0);
                }
                let n = line.len();
                assert(j + 2 <= n - 1);
                let name = copy_range(line, 0, i);
                let part = copy_range(line, j + 2, line.len() - 1);
                let latest = before_first_seq(&part, &to_chars(", "));
                Some((name, latest))
            },
            None => None,
        },
        None => None,
    }
}

fn choco_outdated_line(line: &Vec<char>) -> (r: Option<(Vec<char>, Vec<char>)>)
    ensures
        opt_view(r) == choco_outdated_entry(line@),
{
    let p = split_on_char(line, '|');
    if p.len() >= 3 {
        assert(seq_views(p@)[0] == p@[0]@ && seq_views(p@)[2] == p@[2]@);
        Some((dup(&p[0]), dup(&p[2])))
    } else {
        None
    }
}

fn scoop_outdated_line(line: &Vec<char>) -> (r: Option<(Vec<char>, Vec<char>)>)
    ensures
        opt_view(r) == scoop_outdated_entry(line@),
{
    let t = split_whitespace(line);
    if t.len() >= 3 {
        assert(seq_views(t@)[0] == t@[0]@ && seq_views(t@)[2] == t@[2]@);
        Some((dup(&t[0]), dup(&t[2])))
    } else {
        None
    }
}

/// The characters of both parts of an optional pair.
pub open spec fn opt_view(r: Option<(Vec<char>, Vec<char>)>) -> Option<Entry> {
    match r {
        Some(p) => Some((p.0@, p.1@)),
        None => None,
    }
}

/// Byte offset `b` of `line` is a boundary only if it lies within the line.
proof fn lemma_boundary_within(line: Seq<char>, b: int)
    requires
        is_boundary(line, b),
    ensures
        b <= byte_len(line),
{
    let k = choose|k: int| 0 <= k <= line.len() && byte_len(line.take(k)) == b;
    lemma_byte_len_mono(line, k, line.len() as int);
    assert(line.take(line.len() as int) =~= line);
}

fn winget_list_line(line: &Vec<char>, header: &Vec<char>, id_at: usize, ver_at: usize) -> (r: Option<
    (Vec<char>, Vec<char>),
>)
    requires
        id_at <= header@.len(),
        ver_at <= header@.len(),
        winget_list_ok(line@, byte_len(header@.take(id_at as int)), byte_len(header@.take(ver_at as int))),
    ensures
        opt_view(r) == winget_list_entry(
            line@,
            byte_len(header@.take(id_at as int)),
            byte_len(header@.take(ver_at as int)),
        ),
{
    let ghost id_b = byte_len(header@.take(id_at as int));
    let ghost ver_b = byte_len(header@.take(ver_at as int));
    let n = line.len();
    assert(line@.take(n as int) =~= line@);
    match locate_byte(line, header, ver_at) {
        BytePos::Beyond => None,
        BytePos::Inside => {
            proof {
                lemma_boundary_within(line@, ver_b as int);
            }
            None
        },
        BytePos::At(b) => {
            if b == n {
                return None;
            }
            proof {
                lemma_byte_len_mono(line@, b as int, n as int);
                lemma_char_at_byte(line@, ver_b as int, b as int);
            }
            match locate_byte(line, header, id_at) {
                BytePos::At(a) => {
                    proof {
                        lemma_char_at_byte(line@, id_b as int, a as int);
                        if a > b {
                            lemma_byte_len_mono(line@, b as int, a as int);
                        }
                    }
                    let seg = copy_range(line, a, b);
                    let id = trim_seq(&seg);
                    let rest = copy_range(line, b, n);
                    assert(rest@ =~= line@.skip(b as int));
                    let toks = split_whitespace(&rest);
                    let ver = first_word_or(&toks, "unknown");
                    if id.len() > 0 && !contains_seq(&id, &to_chars(" ")) {
                        Some((id, ver))
                    } else {
                        None
                    }
                },
                _ => {
                    proof {
                        lemma_boundary_within(line@, id_b as int);
                    }
                    None
                },
            }
        },
    }
}

fn winget_outdated_line(line: &Vec<char>, header: &Vec<char>, id_at: usize, avail_at: usize) -> (r:
    Option<(Vec<char>, Vec<char>)>)
    requires
        id_at <= header@.len(),
        avail_at <= header@.len(),
        winget_outdated_ok(
            line@,
            byte_len(header@.take(id_at as int)),
            byte_len(header@.take(avail_at as int)),
        ),
    ensures
        opt_view(r) == winget_outdated_entry(
            line@,
            byte_len(header@.take(id_at as int)),
            byte_len(header@.take(avail_at as int)),
        ),
{
    let ghost id_b = byte_len(header@.take(id_at as int));
    let ghost av_b = byte_len(header@.take(avail_at as int));
    let n = line.len();
    assert(line@.take(n as int) =~= line@);
    match locate_byte(line, header, avail_at) {
        BytePos::Beyond => None,
        BytePos::Inside => {
            proof {
                lemma_boundary_within(line@, av_b as int);
            }
            None
        },
        BytePos::At(c) => {
            if c == n {
                return None;
            }
            proof {
                lemma_byte_len_mono(line@, c as int, n as int);
                lemma_char_at_byte(line@, av_b as int, c as int);
            }
            match locate_byte(line, header, id_at) {
                BytePos::At(a) => {
                    proof {
                        lemma_char_at_byte(line@, id_b as int, a as int);
                    }
                    let id_rest = copy_range(line, a, n);
                    assert(id_rest@ =~= line@.skip(a as int));
                    let id_toks = split_whitespace(&id_rest);
                    let id = first_word_or(&id_toks, "");
                    let av_rest = copy_range(line, c, n);
                    assert(av_rest@ =~= line@.skip(c as int));
                    let av_toks = split_whitespace(&av_rest);
                    let avail = first_word_or(&av_toks, "");
                    if id.len() > 0 && avail.len() > 0 && !contains_seq(&id, &to_chars(" "))
                        && !eq_chars(&id, &to_chars("Id")) {
                        Some((id, avail))
                    } else {
                        None
                    }
                },
                _ => {
                    proof {
                        lemma_boundary_within(line@, id_b as int);
                    }
                    None
                },
            }
        },
    }
}

/// How the lines of one kind of output are read; the winget rules carry the
/// header line and the character indices where its columns start.
pub enum LineRule {
    WordPair,
    Uv,
    Cargo,
    ChocoList,
    GemList,
    AptList,
    BrewOutdated,
    AptOutdated,
    PacmanOutdated,
    GemOutdated,
    ChocoOutdated,
    ScoopOutdated,
    WingetList { header: Vec<char>, id_at: usize, ver_at: usize },
    WingetOutdated { header: Vec<char>, id_at: usize, avail_at: usize },
}

impl LineRule {
    pub open spec fn wf(&self) -> bool {
        match self {
            LineRule::WingetList { header, id_at, ver_at } => id_at <= header@.len() && ver_at
                <= header@.len(),
            LineRule::WingetOutdated { header, id_at, avail_at } => id_at <= header@.len()
                && avail_at <= header@.len(),
            _ => true,
        }
    }

    pub open spec fn format(&self) -> LineFormat {
        match self {
            LineRule::WordPair => LineFormat::WordPair,
            LineRule::Uv => LineFormat::Uv,
            LineRule::Cargo => LineFormat::Cargo,
            LineRule::ChocoList => LineFormat::ChocoList,
            LineRule::GemList => LineFormat::GemList,
            LineRule::AptList => LineFormat::AptList,
            LineRule::BrewOutdated => LineFormat::BrewOutdated,
            LineRule::AptOutdated => LineFormat::AptOutdated,
            LineRule::PacmanOutdated => LineFormat::PacmanOutdated,
            LineRule::GemOutdated => LineFormat::GemOutdated,
            LineRule::ChocoOutdated => LineFormat::ChocoOutdated,
            LineRule::ScoopOutdated => LineFormat::ScoopOutdated,
            LineRule::WingetList { header, id_at, ver_at } => LineFormat::WingetList(
                byte_len(header@.take(*id_at as int)),
                byte_len(header@.take(*ver_at as int)),
            ),
            LineRule::WingetOutdated { header, id_at, avail_at } => LineFormat::WingetOutdated(
                byte_len(header@.take(*id_at as int)),
                byte_len(header@.take(*avail_at as int)),
            ),
        }
    }
}

/// What `line` gives under `rule`.
fn apply_rule(rule: &LineRule, line: &Vec<char>) -> (r: Option<(Vec<char>, Vec<char>)>)
    requires
        rule.wf(),
        line_ok(rule.format(), line@),
    ensures
        opt_view(r) == line_entry(rule.format(), line@),
{
    match rule {
        LineRule::WordPair => word_pair_line(line),
        LineRule::Uv => uv_line(line),
        LineRule::Cargo => cargo_line(line),
        LineRule::ChocoList => choco_list_line(line),
        LineRule::GemList => gem_list_line(line),
        LineRule::AptList => apt_list_line(line),
        LineRule::BrewOutdated => brew_outdated_line(line),
        LineRule::AptOutdated => apt_outdated_line(line),
        LineRule::PacmanOutdated => pacman_outdated_line(line),
        LineRule::GemOutdated => gem_outdated_line(line),
        LineRule::ChocoOutdated => choco_outdated_line(line),
        LineRule::ScoopOutdated => scoop_outdated_line(line),
        LineRule::WingetList { header, id_at, ver_at } => winget_list_line(line, header, *id_at, *ver_at),
        LineRule::WingetOutdated { header, id_at, avail_at } => winget_outdated_line(
            line,
            header,
            *id_at,
            *avail_at,
        ),
    }
}

/// Whether the slice at the end of a gem line is allowed, given where its
/// `from` marker was found.
fn gem_tail_ok(line: &Vec<char>, j: usize) -> (b: bool)
    ensures
        b == (j + 2 <= line@.len() - 1 && (line@.last() as u32) < 0x80),
{
    let n = line.len();
    if n == 0 || j >= n - 1 || n - 1 - j < 2 {
        false
    } else {
        let last = line[n - 1];
        (last as u32) < 0x80
    }
}

/// Whether `line` can be read under `rule`.
fn line_readable(rule: &LineRule, line: &Vec<char>) -> (b: bool)
    requires
        rule.wf(),
    ensures
        b == line_ok(rule.format(), line@),
{
    let n = line.len();
    assert(line@.take(n as int) =~= line@);
    match rule {
        LineRule::GemList => match find_seq(line, &to_chars(" (")) {
            Some(i) => gem_tail_ok(line, i),
            None => true,
        },
        LineRule::GemOutdated => match (find_seq(line, &to_chars(" (")), find_seq(line, &to_chars("< "))) {
            (Some(_), Some(j)) => gem_tail_ok(line, j),
            _ => true,
        },
        LineRule::WingetList { header, id_at, ver_at } => {
            let ghost id_b = byte_len(header@.take(*id_at as int));
            let ghost ver_b = byte_len(header@.take(*ver_at as int));
            match locate_byte(line, header, *ver_at) {
                BytePos::Beyond => true,
                BytePos::Inside => false,
                BytePos::At(b) => {
                    if b == n {
                        return true;
                    }
                    proof {
                        lemma_byte_len_mono(line@, b as int, n as int);
                        lemma_char_at_byte(line@, ver_b as int, b as int);
                    }
                    match locate_byte(line, header, *id_at) {
                        BytePos::At(a) => {
                            proof {
                                lemma_char_at_byte(line@, id_b as int, a as int);
                                if a > b {
                                    lemma_byte_len_mono(line@, b as int, a as int);
                                } else {
                                    lemma_byte_len_mono(line@, a as int, b as int);
                                }
                            }
                            a <= b
                        },
                        BytePos::Inside => false,
                        BytePos::Beyond => {
                            proof {
                                if is_boundary(line@, id_b as int) {
                                    lemma_boundary_within(line@, id_b as int);
                                }
                            }
                            false
                        },
                    }
                },
            }
        },
        LineRule::WingetOutdated { header, id_at, avail_at } => {
            let ghost id_b = byte_len(header@.take(*id_at as int));
            let ghost av_b = byte_len(header@.take(*avail_at as int));
            match locate_byte(line, header, *avail_at) {
                BytePos::Beyond => true,
                BytePos::Inside => false,
                BytePos::At(c) => {
                    if c == n {
                        return true;
                    }
                    proof {
                        lemma_byte_len_mono(line@, c as int, n as int);
                        lemma_char_at_byte(line@, av_b as int, c as int);
                    }
                    match locate_byte(line, header, *id_at) {
                        BytePos::At(a) => {
                            proof {
                                lemma_char_at_byte(line@, id_b as int, a as int);
                            }
                            true
                        },
                        BytePos::Inside => false,
                        BytePos::Beyond => {
                            proof {
                                if is_boundary(line@, id_b as int) {
                                    lemma_boundary_within(line@, id_b as int);
                                }
                            }
                            false
                        },
                    }
                },
            }
        },
        _ => true,
    }
}

/// What the lines from the `from`-th on give under `rule`, in order.
pub fn collect_entries(lines: &Vec<Vec<char>>, from: usize, rule: &LineRule) -> (r: Vec<
    (String, String),
>)
    requires
        rule.wf(),
        from <= lines@.len(),
        all_lines_ok(seq_views(lines@).skip(from as int), rule.format()),
    ensures
        pair_views(r@) == entries_of(seq_views(lines@).skip(from as int), rule.format()),
{
    let ghost ls = seq_views(lines@);
    let mut out: Vec<(String, String)> = Vec::new();
    let mut k: usize = from;
    assert(ls.subrange(from as int, from as int) =~= Seq::<Seq<char>>::empty());
    assert(pair_views(out@) =~= Seq::<Entry>::empty());
    while k < lines.len()
        invariant
            from <= k <= lines@.len(),
            ls == seq_views(lines@),
            rule.wf(),
            all_lines_ok(ls.skip(from as int), rule.format()),
            pair_views(out@) == entries_of(ls.subrange(from as int, k as int), rule.format()),
        decreases lines@.len() - k,
    {
        assert(ls.skip(from as int)[k - from] == lines@[k as int]@);
        let e = apply_rule(rule, &lines[k]);
        let ghost sub = ls.subrange(from as int, k + 1);
        assert(sub.drop_last() =~= ls.subrange(from as int, k as int));
        assert(sub.last() == lines@[k as int]@);
        match e {
            Some((a, b)) => {
                let ghost before = out@;
                out.push((string_of(a.as_slice()), string_of(b.as_slice())));
                assert(pair_views(out@) =~= pair_views(before).push((a@, b@)));
            },
            None => {},
        }
        k = k + 1;
    }
    assert(ls.subrange(from as int, k as int) =~= ls.skip(from as int));
    out
}

/// Whether the lines from the `from`-th on can all be read under `rule`.
pub fn lines_readable(lines: &Vec<Vec<char>>, from: usize, rule: &LineRule) -> (b: bool)
    requires
        rule.wf(),
        from <= lines@.len(),
    ensures
        b == all_lines_ok(seq_views(lines@).skip(from as int), rule.format()),
{
    let ghost ls = seq_views(lines@);
    let mut k: usize = from;
    while k < lines.len()
        invariant
            from <= k <= lines@.len(),
            ls == seq_views(lines@),
            rule.wf(),
            forall|j: int| from <= j < k ==> line_ok(rule.format(), #[trigger] ls[j]),
        decreases lines@.len() - k,
    {
        assert(ls[k as int] == lines@[k as int]@);
        if !line_readable(rule, &lines[k]) {
            assert(ls.skip(from as int)[k - from] == ls[k as int]);
            return false;
        }
        k = k + 1;
    }
    assert forall|i: int| 0 <= i < ls.skip(from as int).len() implies line_ok(
        rule.format(),
        #[trigger] ls.skip(from as int)[i],
    ) by {
        assert(ls.skip(from as int)[i] == ls[i + from]);
    }
    true
}

/// The lines of `text`.
pub fn lines_of(text: &str) -> (r: Vec<Vec<char>>)
    ensures
        seq_views(r@) == spec_lines(text@),
{
    let cs = to_chars(text);
    split_lines(&cs)
}

/// What the lines of `text` from the `skip`-th on give under `rule`.
pub fn read_lines(text: &str, skip: usize, rule: &LineRule) -> (r: Vec<(String, String)>)
    requires
        rule.wf(),
        all_lines_ok(drop_n(spec_lines(text@), skip as nat), rule.format()),
    ensures
        pair_views(r@) == entries_of(drop_n(spec_lines(text@), skip as nat), rule.format()),
{
    let lines = lines_of(text);
    read_line_vec(&lines, skip, rule)
}

/// What the lines from the `skip`-th on give under `rule`.
pub fn read_line_vec(lines: &Vec<Vec<char>>, skip: usize, rule: &LineRule) -> (r: Vec<(String, String)>)
    requires
        rule.wf(),
        all_lines_ok(drop_n(seq_views(lines@), skip as nat), rule.format()),
    ensures
        pair_views(r@) == entries_of(drop_n(seq_views(lines@), skip as nat), rule.format()),
{
    let from = if skip < lines.len() {
        skip
    } else {
        lines.len()
    };
    assert(seq_views(lines@).skip(from as int) =~= drop_n(seq_views(lines@), skip as nat));
    collect_entries(lines, from, rule)
}

/// Whether the lines of `text` from the `skip`-th on can all be read under
/// `rule`.
pub fn text_readable(text: &str, skip: usize, rule: &LineRule) -> (b: bool)
    requires
        rule.wf(),
    ensures
        b == all_lines_ok(drop_n(spec_lines(text@), skip as nat), rule.format()),
{
    let lines = lines_of(text);
    let from = if skip < lines.len() {
        skip
    } else {
        lines.len()
    };
    assert(seq_views(lines@).skip(from as int) =~= drop_n(seq_views(lines@), skip as nat));
    lines_readable(&lines, from, rule)
}

/// The index of the first line that starts with `pre`, or the number of
/// lines: where std's `skip_while` over `!starts_with(pre)` stops.
pub open spec fn first_with_prefix(ls: Seq<Seq<char>>, pre: Seq<char>) -> nat
    decreases ls.len(),
{
    if ls.len() == 0 || starts_with(ls[0], pre) {
        0
    } else {
        1 + first_with_prefix(ls.drop_first(), pre)
    }
}

proof fn lemma_first_with_prefix(ls: Seq<Seq<char>>, pre: Seq<char>, n: int)
    requires
        0 <= n <= ls.len(),
        forall|k: int| 0 <= k < n ==> !starts_with(#[trigger] ls[k], pre),
        n == ls.len() || starts_with(ls[n], pre),
    ensures
        first_with_prefix(ls, pre) == n,
    decreases n,
{
    if n > 0 {
        assert forall|k: int| 0 <= k < n - 1 implies !starts_with(#[trigger] ls.drop_first()[k], pre) by {
            assert(ls.drop_first()[k] == ls[k + 1]);
        }
        if n < ls.len() {
            assert(ls.drop_first()[n - 1] == ls[n]);
        }
        lemma_first_with_prefix(ls.drop_first(), pre, n - 1);
    }
}

/// The index of the first line that starts with `pre`, or the number of lines.
pub fn find_line_with_prefix(lines: &Vec<Vec<char>>, pre: &str) -> (r: usize)
    ensures
        r == first_with_prefix(seq_views(lines@), pre@),
        r <= lines@.len(),
{
    let p = to_chars(pre);
    let mut k: usize = 0;
    while k < lines.len() && !starts_with_seq(&lines[k], &p)
        invariant
            k <= lines@.len(),
            p@ == pre@,
            forall|j: int| 0 <= j < k ==> !starts_with(#[trigger] seq_views(lines@)[j], pre@),
        decreases lines@.len() - k,
    {
        assert(seq_views(lines@)[k as int] == lines@[k as int]@);
        k = k + 1;
    }
    proof {
        if k < lines@.len() {
            assert(seq_views(lines@)[k as int] == lines@[k as int]@);
        }
        lemma_first_with_prefix(seq_views(lines@), pre@, k as int);
    }
    k
}

/// The byte offset where the column titled `title` starts in a header line;
/// 0 where the title is missing.
pub open spec fn column_offset(header: Seq<char>, title: Seq<char>) -> nat {
    match find(header, title) {
        Some(c) => byte_len(header.take(c as int)),
        None => 0,
    }
}

/// The character index where `title` starts in `header`; 0 where it is missing.
pub fn column_start(header: &Vec<char>, title: &str) -> (r: usize)
    ensures
        r <= header@.len(),
        byte_len(header@.take(r as int)) == column_offset(header@, title@),
{
    proof {
        lemma_find_bound(header@, title@, 0);
    }
    match find_seq(header, &to_chars(title)) {
        Some(c) => c,
        None => {
            assert(header@.take(0) =~= Seq::<char>::empty());
            0
        },
    }
}

/// Each entry read from lines is what one of those lines gives.
pub proof fn lemma_entry_from_line(ls: Seq<Seq<char>>, f: LineFormat, i: int)
    requires
        0 <= i < entries_of(ls, f).len(),
    ensures
        exists|j: int| 0 <= j < ls.len() && line_entry(f, #[trigger] ls[j]) == Some(entries_of(ls, f)[i]),
    decreases ls.len(),
{
    let rest = entries_of(ls.drop_last(), f);
    if i < rest.len() {
        lemma_entry_from_line(ls.drop_last(), f, i);
        let j = choose|j: int| 0 <= j < ls.drop_last().len() && line_entry(f, #[trigger] ls.drop_last()[j]) == Some(rest[i]);
        assert(ls[j] == ls.drop_last()[j]);
    } else {
        assert(ls[ls.len() - 1] == ls.last());
    }
}

/// Every line that gives an entry puts it among the entries of the lines.
pub proof fn lemma_line_gives_entry(ls: Seq<Seq<char>>, f: LineFormat, j: int)
    requires
        0 <= j < ls.len(),
        line_entry(f, ls[j]) is Some,
    ensures
        entries_of(ls, f).contains(line_entry(f, ls[j])->0),
    decreases ls.len(),
{
    let e = line_entry(f, ls[j])->0;
    if j == ls.len() - 1 {
        let rest = entries_of(ls.drop_last(), f);
        assert(entries_of(ls, f) == rest.push(e));
        assert(entries_of(ls, f)[rest.len() as int] == e);
    } else {
        assert(ls.drop_last()[j] == ls[j]);
        lemma_line_gives_entry(ls.drop_last(), f, j);
        let rest = entries_of(ls.drop_last(), f);
        let w = choose|w: int| 0 <= w < rest.len() && rest[w] == e;
        match line_entry(f, ls.last()) {
            Some(x) => assert(entries_of(ls, f)[w] == e),
            None => {},
        }
    }
}

/// A choco list line with at least two words names a package by its first
/// word at the version of its second, unless it is the banner (it starts with
/// `Chocolatey`) or the summary (it holds `packages installed`); any other
/// line names none.
pub proof fn lemma_choco_list_line(line: Seq<char>)
    ensures
        ws_tokens(line).len() >= 2 && !starts_with(line, "Chocolatey"@) && !contains(
            line,
            "packages installed"@,
        ) ==> choco_list_entry(line) == Some((ws_tokens(line)[0], ws_tokens(line)[1])),
        ws_tokens(line).len() < 2 || starts_with(line, "Chocolatey"@) || contains(
            line,
            "packages installed"@,
        ) ==> choco_list_entry(line) is None,
{
}

} // verus!
