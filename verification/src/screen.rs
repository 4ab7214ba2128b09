//! What the dashboard's screen shows: texts and rows, ready to be drawn.
use vstd::prelude::*;

use crate::dashboard::{count_loading, App, ManagerView, ViewState};
use crate::package::PackageView;
use crate::text::{string_of, to_chars};

verus! {

pub open spec fn digit_char(d: nat) -> char {
    if d == 0 {
        '0'
    } else if d == 1 {
        '1'
    } else if d == 2 {
        '2'
    } else if d == 3 {
        '3'
    } else if d == 4 {
        '4'
    } else if d == 5 {
        '5'
    } else if d == 6 {
        '6'
    } else if d == 7 {
        '7'
    } else if d == 8 {
        '8'
    } else {
        '9'
    }
}

/// `n` written in decimal, as std's `Display` for integers writes it.
pub open spec fn decimal(n: nat) -> Seq<char>
    decreases n,
{
    if n < 10 {
        seq![digit_char(n)]
    } else {
        decimal(n / 10).push(digit_char(n % 10))
    }
}

fn digit(d: usize) -> (c: char)
    requires
        d < 10,
    ensures
        c == digit_char(d as nat),
{
    if d == 0 {
        '0'
    } else if d == 1 {
        '1'
    } else if d == 2 {
        '2'
    } else if d == 3 {
        '3'
    } else if d == 4 {
        '4'
    } else if d == 5 {
        '5'
    } else if d == 6 {
        '6'
    } else if d == 7 {
        '7'
    } else if d == 8 {
        '8'
    } else {
        '9'
    }
}

fn decimal_chars(n: usize) -> (r: Vec<char>)
    ensures
        r@ == decimal(n as nat),
    decreases n,
{
    if n < 10 {
        let mut v: Vec<char> = Vec::new();
        v.push(digit(n));
        assert(v@ =~= decimal(n as nat));
        v
    } else {
        let mut v = decimal_chars(n / 10);
        v.push(digit(n % 10));
        v
    }
}

/// `n` in decimal.
pub fn decimal_string(n: usize) -> (r: String)
    ensures
        r@ == decimal(n as nat),
{
    let v = decimal_chars(n);
    string_of(v.as_slice())
}

/// `s` padded with spaces on the right to `w` characters, as std's `{:<w}`
/// formats it; longer text is left whole.
pub open spec fn pad_right(s: Seq<char>, w: nat) -> Seq<char> {
    if s.len() < w {
        s + Seq::new((w - s.len()) as nat, |i: int| ' ')
    } else {
        s
    }
}

/// `s` padded with spaces on the right to `w` characters.
pub fn padded(s: &str, w: usize) -> (r: String)
    ensures
        r@ == pad_right(s@, w as nat),
{
    let mut v = to_chars(s);
    let ghost start = v@;
    if v.len() < w {
        let mut k: usize = v.len();
        while k < w
            invariant
                start.len() <= k <= w,
                v@.len() == k,
                v@.subrange(0, start.len() as int) == start,
                forall|j: int| start.len() <= j < k ==> v@[j] == ' ',
            decreases w - k,
        {
            v.push(' ');
            k = k + 1;
        }
        assert(v@ =~= pad_right(start, w as nat));
    }
    string_of(v.as_slice())
}

/// The status line: how many managers are still loading, if any.
pub open spec fn spec_title(loading: nat) -> Seq<char> {
    if loading > 0 {
        "Satellite - Loading "@ + decimal(loading) + " managers..."@
    } else {
        "Satellite - Universal Package Manager"@
    }
}

pub fn title_text(loading: usize) -> (r: String)
    ensures
        r@ == spec_title(loading as nat),
{
    if loading > 0 {
        "Satellite - Loading ".to_owned().concat(decimal_string(loading).as_str()).concat(" managers...")
    } else {
        "Satellite - Universal Package Manager".to_owned()
    }
}

/// How a manager row's count is coloured.
#[derive(Clone, Copy, PartialEq, Eq, Structural, Debug)]
pub enum Tone {
    /// Still loading.
    Pending,
    /// Nothing installed.
    Missing,
    /// Packages found.
    Ready,
}

/// A row of the managers list.
#[derive(Debug)]
pub struct ManagerRow {
    /// The manager's name, padded to 15 characters.
    pub name: String,
    pub count: String,
    pub tone: Tone,
}

/// The count of a manager row and its colour.
pub open spec fn spec_count(m: ManagerView) -> (Seq<char>, Tone) {
    if m.loading {
        ("..."@, Tone::Pending)
    } else if m.packages.len() == 0 {
        ("[Not Installed]"@, Tone::Missing)
    } else {
        (decimal(m.packages.len()) + " packages"@, Tone::Ready)
    }
}

pub open spec fn spec_manager_row(m: ManagerView) -> (Seq<char>, Seq<char>, Tone) {
    (pad_right(m.manager.spec_name(), 15), spec_count(m).0, spec_count(m).1)
}

pub open spec fn manager_row_views(rows: Seq<ManagerRow>) -> Seq<(Seq<char>, Seq<char>, Tone)> {
    rows.map_values(|r: ManagerRow| (r.name@, r.count@, r.tone))
}

/// The rows of the managers list.
pub fn manager_rows(app: &App) -> (r: Vec<ManagerRow>)
    ensures
        manager_row_views(r@) == app@.managers.map_values(|m: ManagerView| spec_manager_row(m)),
{
    let mut rows: Vec<ManagerRow> = Vec::new();
    let mut i: usize = 0;
    while i < app.managers.len()
        invariant
            i <= app.managers@.len(),
            rows@.len() == i,
            forall|j: int| 0 <= j < i ==> (#[trigger] manager_row_views(rows@)[j]) == spec_manager_row(app@.managers[j]),
        decreases app.managers@.len() - i,
    {
        let m = &app.managers[i];
        assert(app@.managers[i as int] == m@);
        let (count, tone) = if m.loading {
            ("...".to_owned(), Tone::Pending)
        } else if m.packages.len() == 0 {
            ("[Not Installed]".to_owned(), Tone::Missing)
        } else {
            (decimal_string(m.packages.len()).concat(" packages"), Tone::Ready)
        };
        let ghost before = rows@;
        rows.push(ManagerRow { name: padded(m.manager.name(), 15), count, tone });
        assert forall|j: int| 0 <= j < i + 1 implies (#[trigger] manager_row_views(rows@)[j]) == spec_manager_row(app@.managers[j]) by {
            if j < i {
                assert(rows@[j] == before[j]);
                assert(manager_row_views(before)[j] == spec_manager_row(app@.managers[j]));
            }
        }
        i = i + 1;
    }
    assert(manager_row_views(rows@) =~= app@.managers.map_values(|m: ManagerView| spec_manager_row(m)));
    rows
}

/// A row of a packages list.
#[derive(Debug)]
pub struct PackageRow {
    /// The mark box and the name padded to 30 characters.
    pub label: String,
    pub marked: bool,
    pub version: String,
    /// Whether a newer version is known.
    pub update_available: bool,
}

pub open spec fn spec_package_row(p: PackageView) -> (Seq<char>, bool, Seq<char>, bool) {
    (
        (if p.selected {
            "[X]"@
        } else {
            "[ ]"@
        }) + " "@ + pad_right(p.name, 30) + " "@,
        p.selected,
        p.version,
        p.latest_version is Some,
    )
}

pub open spec fn package_row_views(rows: Seq<PackageRow>) -> Seq<(Seq<char>, bool, Seq<char>, bool)> {
    rows.map_values(|r: PackageRow| (r.label@, r.marked, r.version@, r.update_available))
}

/// The rows of the packages list of manager `idx`.
pub fn package_rows(app: &App, idx: usize) -> (r: Vec<PackageRow>)
    requires
        idx < app@.managers.len(),
    ensures
        package_row_views(r@) == app@.managers[idx as int].packages.map_values(
            |p: PackageView| spec_package_row(p),
        ),
{
    let ps = &app.managers[idx].packages;
    assert(app@.managers[idx as int] == app.managers@[idx as int]@);
    let mut rows: Vec<PackageRow> = Vec::new();
    let mut i: usize = 0;
    while i < ps.len()
        invariant
            i <= ps@.len(),
            rows@.len() == i,
            forall|j: int| 0 <= j < i ==> (#[trigger] package_row_views(rows@)[j]) == spec_package_row(ps@[j]@),
        decreases ps@.len() - i,
    {
        let p = &ps[i];
        let prefix = if p.selected {
            "[X]".to_owned()
        } else {
            "[ ]".to_owned()
        };
        let label = prefix.concat(" ").concat(padded(p.name.as_str(), 30).as_str()).concat(" ");
        let ghost before = rows@;
        rows.push(
            PackageRow {
                label,
                marked: p.selected,
                version: p.version.clone(),
                update_available: p.latest_version.is_some(),
            },
        );
        assert forall|j: int| 0 <= j < i + 1 implies (#[trigger] package_row_views(rows@)[j]) == spec_package_row(ps@[j]@) by {
            if j < i {
                assert(rows@[j] == before[j]);
                assert(package_row_views(before)[j] == spec_package_row(ps@[j]@));
            }
        }
        i = i + 1;
    }
    assert(package_row_views(rows@) =~= app@.managers[idx as int].packages.map_values(
        |p: PackageView| spec_package_row(p),
    ));
    rows
}

/// The title of the packages list of manager `idx`.
pub fn packages_title(app: &App, idx: usize) -> (r: String)
    requires
        idx < app@.managers.len(),
    ensures
        r@ == app@.managers[idx as int].manager.spec_name() + " Packages"@,
{
    assert(app@.managers[idx as int] == app.managers@[idx as int]@);
    app.managers[idx].manager.name().to_owned().concat(" Packages")
}

/// The key help under each screen.
pub open spec fn spec_help(v: ViewState) -> Seq<char> {
    match v {
        ViewState::Managers => "q: Quit | j/k or Up/Down: Navigate | Enter: View Packages"@,
        ViewState::Packages(_) => "Space: Select | u: Update | d: Delete | Esc: Back"@,
        ViewState::Logs => "j/k: Scroll | Esc: Back to Dashboard"@,
    }
}

pub fn help_text(v: ViewState) -> (r: &'static str)
    ensures
        r@ == spec_help(v),
{
    match v {
        ViewState::Managers => "q: Quit | j/k or Up/Down: Navigate | Enter: View Packages",
        ViewState::Packages(_) => "Space: Select | u: Update | d: Delete | Esc: Back",
        ViewState::Logs => "j/k: Scroll | Esc: Back to Dashboard",
    }
}

/// The status line of the dashboard.
pub fn status_text(app: &App) -> (r: String)
    ensures
        r@ == spec_title(count_loading(app@.managers)),
{
    title_text(app.loading_count())
}

} // verus!
