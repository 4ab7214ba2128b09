//! The dashboard's state and how it changes with loaded data and keys.
use vstd::prelude::*;

use crate::command::Platform;
use crate::manager::{get_managers, spec_managers, ManagerType};
use crate::package::{package_views, pair_views, Package, PackageView};
use crate::text::{
    eq_ignore_ascii_case, same_ignoring_ascii_case, string_of, to_chars, trim, trim_seq,
};

verus! {

/// One manager's row: its packages once loaded.
pub struct ManagerState {
    pub manager: ManagerType,
    pub loading: bool,
    pub packages: Vec<Package>,
}

pub struct ManagerView {
    pub manager: ManagerType,
    pub loading: bool,
    pub packages: Seq<PackageView>,
}

impl View for ManagerState {
    type V = ManagerView;

    open spec fn view(&self) -> ManagerView {
        ManagerView {
            manager: self.manager,
            loading: self.loading,
            packages: package_views(self.packages@),
        }
    }
}

pub open spec fn manager_views(ms: Seq<ManagerState>) -> Seq<ManagerView> {
    ms.map_values(|m: ManagerState| m@)
}

pub open spec fn string_views(ls: Seq<String>) -> Seq<Seq<char>> {
    ls.map_values(|s: String| s@)
}

/// Which screen the dashboard shows.
#[derive(Clone, Copy, PartialEq, Eq, Structural, Debug)]
pub enum ViewState {
    /// The list of managers.
    Managers,
    /// The packages of the manager with this index.
    Packages(usize),
    /// The log of a running batch of updates or removals.
    Logs,
}

/// The dashboard.
pub struct App {
    pub managers: Vec<ManagerState>,
    /// The highlighted row of the managers list.
    pub managers_selected: Option<usize>,
    /// The highlighted row of the packages list.
    pub packages_selected: Option<usize>,
    pub view_state: ViewState,
    pub logs: Vec<String>,
    /// How far the log is scrolled, in lines.
    pub logs_scroll: u16,
}

pub struct AppView {
    pub managers: Seq<ManagerView>,
    pub managers_selected: Option<usize>,
    pub packages_selected: Option<usize>,
    pub view_state: ViewState,
    pub logs: Seq<Seq<char>>,
    pub logs_scroll: u16,
}

impl View for App {
    type V = AppView;

    open spec fn view(&self) -> AppView {
        AppView {
            managers: manager_views(self.managers@),
            managers_selected: self.managers_selected,
            packages_selected: self.packages_selected,
            view_state: self.view_state,
            logs: string_views(self.logs@),
            logs_scroll: self.logs_scroll,
        }
    }
}

/// The dashboard is well formed: it has managers, and the highlighted manager
/// and the opened one exist.
pub open spec fn wf(v: AppView) -> bool {
    &&& v.managers.len() > 0
    &&& v.managers_selected matches Some(i) ==> i < v.managers.len()
    &&& v.view_state matches ViewState::Packages(idx) ==> idx < v.managers.len()
}

/// The dashboard at start-up on `platform`: every manager loading, the first
/// one highlighted.
pub open spec fn spec_new(platform: Platform) -> AppView {
    AppView {
        managers: spec_managers(platform).map_values(
            |m: ManagerType| ManagerView { manager: m, loading: true, packages: seq![] },
        ),
        managers_selected: Some(0),
        packages_selected: None,
        view_state: ViewState::Managers,
        logs: seq![],
        logs_scroll: 0,
    }
}

/// How many of the managers are still loading.
pub open spec fn count_loading(ms: Seq<ManagerView>) -> nat
    decreases ms.len(),
{
    if ms.len() == 0 {
        0
    } else {
        count_loading(ms.drop_last()) + if ms.last().loading {
            1nat
        } else {
            0nat
        }
    }
}

impl App {
    pub fn new(platform: Platform) -> (app: App)
        ensures
            app@ == spec_new(platform),
            wf(app@),
    {
        let ms = get_managers(platform);
        let mut managers: Vec<ManagerState> = Vec::new();
        let mut i: usize = 0;
        while i < ms.len()
            invariant
                i <= ms@.len(),
                ms@ == spec_managers(platform),
                manager_views(managers@) == spec_new(platform).managers.take(i as int),
            decreases ms@.len() - i,
        {
            let ghost before = managers@;
            let st = ManagerState { manager: ms[i], loading: true, packages: Vec::new() };
            assert(package_views(st.packages@) =~= Seq::<PackageView>::empty());
            assert(st@ == spec_new(platform).managers[i as int]);
            managers.push(st);
            assert(manager_views(managers@) =~= manager_views(before).push(st@));
            i = i + 1;
            assert(manager_views(managers@) =~= spec_new(platform).managers.take(i as int));
        }
        assert(spec_new(platform).managers.take(i as int) =~= spec_new(platform).managers);
        let app = App {
            managers,
            managers_selected: Some(0),
            packages_selected: None,
            view_state: ViewState::Managers,
            logs: Vec::new(),
            logs_scroll: 0,
        };
        assert(string_views(app.logs@) =~= Seq::<Seq<char>>::empty());
        app
    }

    /// Whether the dashboard is well formed, as `handle_key` needs it.
    pub fn is_well_formed(&self) -> (b: bool)
        ensures
            b == wf(self@),
    {
        let n = self.managers.len();
        let sel_ok = match self.managers_selected {
            Some(i) => i < n,
            None => true,
        };
        let view_ok = match self.view_state {
            ViewState::Packages(idx) => idx < n,
            _ => true,
        };
        n > 0 && sel_ok && view_ok
    }

    /// How many managers are still loading.
    pub fn loading_count(&self) -> (n: usize)
        ensures
            n == count_loading(self@.managers),
    {
        let mut n: usize = 0;
        let mut i: usize = 0;
        while i < self.managers.len()
            invariant
                i <= self.managers@.len(),
                n == count_loading(manager_views(self.managers@).take(i as int)),
                n <= i,
            decreases self.managers@.len() - i,
        {
            assert(manager_views(self.managers@).take(i + 1).drop_last() =~= manager_views(
                self.managers@,
            ).take(i as int));
            if self.managers[i].loading {
                n = n + 1;
            }
            i = i + 1;
        }
        assert(manager_views(self.managers@).take(i as int) =~= manager_views(self.managers@));
        n
    }
}

/// The index of the first manager `m`, or the number of managers.
pub open spec fn manager_index(ms: Seq<ManagerView>, m: ManagerType) -> nat
    decreases ms.len(),
{
    if ms.len() == 0 || ms[0].manager == m {
        0
    } else {
        1 + manager_index(ms.drop_first(), m)
    }
}

proof fn lemma_manager_index(ms: Seq<ManagerView>, m: ManagerType, n: int)
    requires
        0 <= n <= ms.len(),
        forall|k: int| 0 <= k < n ==> (#[trigger] ms[k]).manager != m,
        n == ms.len() || ms[n].manager == m,
    ensures
        manager_index(ms, m) == n,
    decreases n,
{
    if n > 0 {
        assert forall|k: int| 0 <= k < n - 1 implies (#[trigger] ms.drop_first()[k]).manager != m by {
            assert(ms.drop_first()[k] == ms[k + 1]);
        }
        if n < ms.len() {
            assert(ms.drop_first()[n - 1] == ms[n]);
        }
        lemma_manager_index(ms.drop_first(), m, n - 1);
    }
}

/// The dashboard with the row of manager `m` loaded with `pkgs`.
pub open spec fn spec_loaded(v: AppView, m: ManagerType, pkgs: Seq<PackageView>) -> AppView {
    let k = manager_index(v.managers, m);
    if k < v.managers.len() {
        AppView {
            managers: v.managers.update(
                k as int,
                ManagerView { manager: v.managers[k as int].manager, loading: false, packages: pkgs },
            ),
            ..v
        }
    } else {
        v
    }
}

/// Whether two package names are the same once trimmed, ASCII case aside.
pub open spec fn same_package_name(a: Seq<char>, b: Seq<char>) -> bool {
    eq_ignore_ascii_case(trim(a), trim(b))
}

/// The index of the first package named like `name`, or the number of
/// packages.
pub open spec fn first_matching(ps: Seq<PackageView>, name: Seq<char>) -> nat
    decreases ps.len(),
{
    if ps.len() == 0 || same_package_name(ps[0].name, name) {
        0
    } else {
        1 + first_matching(ps.drop_first(), name)
    }
}

proof fn lemma_first_matching(ps: Seq<PackageView>, name: Seq<char>, n: int)
    requires
        0 <= n <= ps.len(),
        forall|k: int| 0 <= k < n ==> !same_package_name((#[trigger] ps[k]).name, name),
        n == ps.len() || same_package_name(ps[n].name, name),
    ensures
        first_matching(ps, name) == n,
    decreases n,
{
    if n > 0 {
        assert forall|k: int| 0 <= k < n - 1 implies !same_package_name(
            (#[trigger] ps.drop_first()[k]).name,
            name,
        ) by {
            assert(ps.drop_first()[k] == ps[k + 1]);
        }
        if n < ps.len() {
            assert(ps.drop_first()[n - 1] == ps[n]);
        }
        lemma_first_matching(ps.drop_first(), name, n - 1);
    }
}

/// The packages with the first one named like `name` told that `latest` is
/// available (trimmed).
pub open spec fn mark_upgrade(ps: Seq<PackageView>, name: Seq<char>, latest: Seq<char>) -> Seq<
    PackageView,
> {
    let j = first_matching(ps, name);
    if j < ps.len() {
        ps.update(j as int, PackageView { latest_version: Some(trim(latest)), ..ps[j as int] })
    } else {
        ps
    }
}

/// The packages told about each upgrade of `pairs`, in order.
pub open spec fn mark_upgrades(ps: Seq<PackageView>, pairs: Seq<(Seq<char>, Seq<char>)>) -> Seq<
    PackageView,
>
    decreases pairs.len(),
{
    if pairs.len() == 0 {
        ps
    } else {
        let q = mark_upgrades(ps, pairs.drop_last());
        mark_upgrade(q, pairs.last().0, pairs.last().1)
    }
}

/// The dashboard told the upgrades `pairs` of manager `m`.
pub open spec fn spec_outdated_loaded(
    v: AppView,
    m: ManagerType,
    pairs: Seq<(Seq<char>, Seq<char>)>,
) -> AppView {
    let k = manager_index(v.managers, m);
    if k < v.managers.len() {
        AppView {
            managers: v.managers.update(
                k as int,
                ManagerView {
                    packages: mark_upgrades(v.managers[k as int].packages, pairs),
                    ..v.managers[k as int]
                },
            ),
            ..v
        }
    } else {
        v
    }
}

/// The dashboard with `line` added to the log, which is scrolled so that its
/// last ten lines show.
pub open spec fn spec_log_line(v: AppView, line: Seq<char>) -> AppView {
    let logs = v.logs.push(line);
    AppView {
        logs: logs,
        logs_scroll: if logs.len() > 10 {
            (logs.len() - 10) as u16
        } else {
            v.logs_scroll
        },
        ..v
    }
}

/// The index of the first package named exactly `name`, or the number of
/// packages.
pub open spec fn first_named(ps: Seq<PackageView>, name: Seq<char>) -> nat
    decreases ps.len(),
{
    if ps.len() == 0 || ps[0].name == name {
        0
    } else {
        1 + first_named(ps.drop_first(), name)
    }
}

proof fn lemma_first_named(ps: Seq<PackageView>, name: Seq<char>, n: int)
    requires
        0 <= n <= ps.len(),
        forall|k: int| 0 <= k < n ==> (#[trigger] ps[k]).name != name,
        n == ps.len() || ps[n].name == name,
    ensures
        first_named(ps, name) == n,
    decreases n,
{
    if n > 0 {
        assert forall|k: int| 0 <= k < n - 1 implies (#[trigger] ps.drop_first()[k]).name != name by {
            assert(ps.drop_first()[k] == ps[k + 1]);
        }
        if n < ps.len() {
            assert(ps.drop_first()[n - 1] == ps[n]);
        }
        lemma_first_named(ps.drop_first(), name, n - 1);
    }
}

/// After an update: the first package named `name` is at its newest version,
/// with no upgrade pending and unmarked.
pub open spec fn apply_update(ps: Seq<PackageView>, name: Seq<char>) -> Seq<PackageView> {
    let j = first_named(ps, name);
    if j < ps.len() {
        let p = ps[j as int];
        ps.update(
            j as int,
            PackageView {
                version: match p.latest_version {
                    Some(l) => l,
                    None => p.version,
                },
                latest_version: None,
                selected: false,
                ..p
            },
        )
    } else {
        ps
    }
}

/// After a removal: the packages not named `name`.
pub open spec fn without_name(ps: Seq<PackageView>, name: Seq<char>) -> Seq<PackageView>
    decreases ps.len(),
{
    if ps.len() == 0 {
        seq![]
    } else {
        let r = without_name(ps.drop_last(), name);
        if ps.last().name == name {
            r
        } else {
            r.push(ps.last())
        }
    }
}

/// The rows after package `p` was updated or removed.
pub open spec fn finish_one(ms: Seq<ManagerView>, is_update: bool, p: PackageView) -> Seq<ManagerView> {
    let k = manager_index(ms, p.manager);
    if k < ms.len() {
        ms.update(
            k as int,
            ManagerView {
                packages: if is_update {
                    apply_update(ms[k as int].packages, p.name)
                } else {
                    without_name(ms[k as int].packages, p.name)
                },
                ..ms[k as int]
            },
        )
    } else {
        ms
    }
}

/// The rows after each package of `ps` was updated or removed, in order.
pub open spec fn finish_all(ms: Seq<ManagerView>, is_update: bool, ps: Seq<PackageView>) -> Seq<
    ManagerView,
>
    decreases ps.len(),
{
    if ps.len() == 0 {
        ms
    } else {
        finish_one(finish_all(ms, is_update, ps.drop_last()), is_update, ps.last())
    }
}

/// The dashboard after a batch of updates (`is_update`) or removals of `ps`
/// finished.
pub open spec fn spec_finished(v: AppView, is_update: bool, ps: Seq<PackageView>) -> AppView {
    AppView { managers: finish_all(v.managers, is_update, ps), ..v }
}

/// What the dashboard hears while it runs.
pub enum AppEvent {
    /// A manager's installed packages, sorted.
    ManagerLoaded(ManagerType, Vec<Package>),
    /// A manager's available upgrades: name and newest version.
    OutdatedLoaded(ManagerType, Vec<(String, String)>),
    /// A line for the log.
    LogLine(String),
    /// A batch of updates (`true`) or removals ended, for these packages.
    OperationFinished(bool, Vec<Package>),
}

/// The dashboard after hearing `e`.
pub open spec fn spec_event(v: AppView, e: AppEvent) -> AppView {
    match e {
        AppEvent::ManagerLoaded(m, ps) => spec_loaded(v, m, package_views(ps@)),
        AppEvent::OutdatedLoaded(m, pairs) => spec_outdated_loaded(v, m, pair_views(pairs@)),
        AppEvent::LogLine(l) => spec_log_line(v, l@),
        AppEvent::OperationFinished(u, ps) => spec_finished(v, u, package_views(ps@)),
    }
}

proof fn lemma_manager_views_update(ms: Seq<ManagerState>, k: int, st: ManagerState)
    requires
        0 <= k < ms.len(),
    ensures
        manager_views(ms.update(k, st)) == manager_views(ms).update(k, st@),
{
    assert(manager_views(ms.update(k, st)) =~= manager_views(ms).update(k, st@));
}

proof fn lemma_package_views_update(ps: Seq<Package>, j: int, p: Package)
    requires
        0 <= j < ps.len(),
    ensures
        package_views(ps.update(j, p)) == package_views(ps).update(j, p@),
{
    assert(package_views(ps.update(j, p)) =~= package_views(ps).update(j, p@));
}

/// Tells the first package named like `name` that `latest` is available.
fn mark_upgrade_in(ps: &mut Vec<Package>, name: &String, latest: &String)
    ensures
        package_views(final(ps)@) == mark_upgrade(package_views(old(ps)@), name@, latest@),
{
    let target = trim_seq(&to_chars(name.as_str()));
    let ghost pv = package_views(ps@);
    let mut j: usize = 0;
    while j < ps.len() && !same_ignoring_ascii_case(&trim_seq(&to_chars(ps[j].name.as_str())), &target)
        invariant
            j <= ps@.len(),
            pv == package_views(ps@),
            target@ == trim(name@),
            forall|k: int| 0 <= k < j ==> !same_package_name((#[trigger] pv[k]).name, name@),
        decreases ps@.len() - j,
    {
        assert(pv[j as int].name == ps@[j as int].name@);
        j = j + 1;
    }
    proof {
        if j < ps@.len() {
            assert(pv[j as int].name == ps@[j as int].name@);
        }
        lemma_first_matching(pv, name@, j as int);
    }
    if j < ps.len() {
        let mut q = ps.remove(j);
        let t = trim_seq(&to_chars(latest.as_str()));
        q.latest_version = Some(string_of(t.as_slice()));
        ps.insert(j, q);
        proof {
            assert(ps@ =~= old(ps)@.update(j as int, q));
            lemma_package_views_update(old(ps)@, j as int, q);
            assert(q@ == PackageView { latest_version: Some(trim(latest@)), ..pv[j as int] });
        }
    }
}

/// Brings the first package named `name` to its newest version.
fn apply_update_in(ps: &mut Vec<Package>, name: &String)
    ensures
        package_views(final(ps)@) == apply_update(package_views(old(ps)@), name@),
{
    let ghost pv = package_views(ps@);
    let mut j: usize = 0;
    while j < ps.len() && !(ps[j].name == *name)
        invariant
            j <= ps@.len(),
            pv == package_views(ps@),
            forall|k: int| 0 <= k < j ==> (#[trigger] pv[k]).name != name@,
        decreases ps@.len() - j,
    {
        assert(pv[j as int].name == ps@[j as int].name@);
        j = j + 1;
    }
    proof {
        if j < ps@.len() {
            assert(pv[j as int].name == ps@[j as int].name@);
        }
        lemma_first_named(pv, name@, j as int);
    }
    if j < ps.len() {
        let mut q = ps.remove(j);
        match q.latest_version {
            Some(l) => {
                q.version = l;
            },
            None => {},
        }
        q.latest_version = None;
        q.selected = false;
        ps.insert(j, q);
        proof {
            assert(ps@ =~= old(ps)@.update(j as int, q));
            lemma_package_views_update(old(ps)@, j as int, q);
        }
    }
}

/// The packages not named `name`.
fn without_name_in(ps: &Vec<Package>, name: &String) -> (r: Vec<Package>)
    ensures
        package_views(r@) == without_name(package_views(ps@), name@),
{
    let mut r: Vec<Package> = Vec::new();
    let mut i: usize = 0;
    assert(package_views(ps@).take(0) =~= Seq::<PackageView>::empty());
    assert(package_views(r@) =~= Seq::<PackageView>::empty());
    while i < ps.len()
        invariant
            i <= ps@.len(),
            package_views(r@) == without_name(package_views(ps@).take(i as int), name@),
        decreases ps@.len() - i,
    {
        assert(package_views(ps@).take(i + 1).drop_last() =~= package_views(ps@).take(i as int));
        assert(package_views(ps@).take(i + 1).last() == ps@[i as int]@);
        if !(ps[i].name == *name) {
            let ghost before = r@;
            let q = ps[i].clone();
            r.push(q);
            assert(package_views(r@) =~= package_views(before).push(ps@[i as int]@));
        }
        i = i + 1;
    }
    assert(package_views(ps@).take(i as int) =~= package_views(ps@));
    r
}

impl App {
    /// The index of the row of manager `m`, or the number of rows.
    fn find_manager(&self, m: ManagerType) -> (k: usize)
        ensures
            k == manager_index(self@.managers, m),
            k <= self.managers@.len(),
    {
        let ghost mv = self@.managers;
        let mut k: usize = 0;
        while k < self.managers.len() && self.managers[k].manager != m
            invariant
                k <= self.managers@.len(),
                mv == manager_views(self.managers@),
                forall|j: int| 0 <= j < k ==> (#[trigger] mv[j]).manager != m,
            decreases self.managers@.len() - k,
        {
            assert(mv[k as int].manager == self.managers@[k as int].manager);
            k = k + 1;
        }
        proof {
            if k < self.managers@.len() {
                assert(mv[k as int].manager == self.managers@[k as int].manager);
            }
            lemma_manager_index(mv, m, k as int);
        }
        k
    }

    /// Updates or removes package `p` in its manager's row.
    fn finish_package(&mut self, is_update: bool, p: &Package)
        ensures
            final(self)@ == (AppView {
                managers: finish_one(old(self)@.managers, is_update, p@),
                ..old(self)@
            }),
    {
        let k = self.find_manager(p.manager);
        if k < self.managers.len() {
            let mut st = self.managers.remove(k);
            let ghost old_st = st;
            if is_update {
                apply_update_in(&mut st.packages, &p.name);
            } else {
                st.packages = without_name_in(&st.packages, &p.name);
            }
            self.managers.insert(k, st);
            proof {
                assert(self.managers@ =~= old(self).managers@.update(k as int, st));
                lemma_manager_views_update(old(self).managers@, k as int, st);
                assert(old(self)@.managers[k as int] == old_st@);
            }
        }
    }

    /// Fills the row of manager `m` with `pkgs`.
    fn load(&mut self, m: ManagerType, pkgs: Vec<Package>)
        ensures
            final(self)@ == spec_loaded(old(self)@, m, package_views(pkgs@)),
    {
        let k = self.find_manager(m);
        if k < self.managers.len() {
            let st = self.managers.remove(k);
            assert(st == old(self).managers@[k as int]);
            assert(old(self)@.managers[k as int] == st@);
            let new_st = ManagerState { manager: st.manager, loading: false, packages: pkgs };
            self.managers.insert(k, new_st);
            proof {
                assert(self.managers@ =~= old(self).managers@.update(k as int, new_st));
                lemma_manager_views_update(old(self).managers@, k as int, new_st);
            }
        }
    }

    /// Tells the row of manager `m` about the upgrades `pairs`.
    fn note_upgrades(&mut self, m: ManagerType, pairs: &Vec<(String, String)>)
        ensures
            final(self)@ == spec_outdated_loaded(old(self)@, m, pair_views(pairs@)),
    {
        let k = self.find_manager(m);
        if k < self.managers.len() {
            let mut st = self.managers.remove(k);
            assert(st == old(self).managers@[k as int]);
            assert(old(self)@.managers[k as int] == st@);
            let ghost st0 = st@;
            let ghost start = package_views(st.packages@);
            let mut i: usize = 0;
            assert(pair_views(pairs@).take(0) =~= Seq::<(Seq<char>, Seq<char>)>::empty());
            while i < pairs.len()
                invariant
                    i <= pairs@.len(),
                    st.manager == st0.manager,
                    st.loading == st0.loading,
                    package_views(st.packages@) == mark_upgrades(start, pair_views(pairs@).take(i as int)),
                decreases pairs@.len() - i,
            {
                assert(pair_views(pairs@).take(i + 1).drop_last() =~= pair_views(pairs@).take(i as int));
                assert(pair_views(pairs@).take(i + 1).last() == (pairs@[i as int].0@, pairs@[i as int].1@));
                mark_upgrade_in(&mut st.packages, &pairs[i].0, &pairs[i].1);
                i = i + 1;
            }
            assert(pair_views(pairs@).take(i as int) =~= pair_views(pairs@));
            self.managers.insert(k, st);
            proof {
                assert(self.managers@ =~= old(self).managers@.update(k as int, st));
                lemma_manager_views_update(old(self).managers@, k as int, st);
                assert(st@ == (ManagerView { packages: mark_upgrades(start, pair_views(pairs@)), ..st0 }));
            }
        }
    }

    /// Takes in what the dashboard heard.
    pub fn apply_event(&mut self, e: AppEvent)
        ensures
            final(self)@ == spec_event(old(self)@, e),
    {
        match e {
            AppEvent::ManagerLoaded(m, pkgs) => {
                self.load(m, pkgs);
            },
            AppEvent::OutdatedLoaded(m, pairs) => {
                self.note_upgrades(m, &pairs);
            },
            AppEvent::LogLine(line) => {
                let ghost lv = line@;
                self.logs.push(line);
                assert(string_views(self.logs@) =~= string_views(old(self).logs@).push(lv));
                if self.logs.len() > 10 {
                    self.logs_scroll = #[verifier::truncate] ((self.logs.len() - 10) as u16);
                }
            },
            AppEvent::OperationFinished(is_update, pkgs) => {
                let mut i: usize = 0;
                assert(package_views(pkgs@).take(0) =~= Seq::<PackageView>::empty());
                while i < pkgs.len()
                    invariant
                        i <= pkgs@.len(),
                        self@ == (AppView {
                            managers: finish_all(
                                old(self)@.managers,
                                is_update,
                                package_views(pkgs@).take(i as int),
                            ),
                            ..old(self)@
                        }),
                    decreases pkgs@.len() - i,
                {
                    assert(package_views(pkgs@).take(i + 1).drop_last() =~= package_views(pkgs@).take(
                        i as int,
                    ));
                    assert(package_views(pkgs@).take(i + 1).last() == pkgs@[i as int]@);
                    self.finish_package(is_update, &pkgs[i]);
                    i = i + 1;
                }
                assert(package_views(pkgs@).take(i as int) =~= package_views(pkgs@));
            },
        }
    }
}

/// A key the dashboard reacts to.
#[derive(Clone, Copy, PartialEq, Eq, Structural, Debug)]
pub enum Key {
    Char(char),
    Esc,
    Backspace,
    Up,
    Down,
    Enter,
    Other,
}

/// What the program around the dashboard is to do after a key.
#[derive(Debug)]
pub enum Action {
    Continue,
    Quit,
    /// Update (`true`) or remove these packages, one after another.
    Run(Vec<Package>, bool),
}

pub enum ActionView {
    Continue,
    Quit,
    Run(Seq<PackageView>, bool),
}

impl View for Action {
    type V = ActionView;

    open spec fn view(&self) -> ActionView {
        match self {
            Action::Continue => ActionView::Continue,
            Action::Quit => ActionView::Quit,
            Action::Run(ps, u) => ActionView::Run(package_views(ps@), *u),
        }
    }
}

/// The row after `i` in a list of `n`, wrapping to the first.
pub open spec fn next_row(i: usize, n: nat) -> usize {
    if i >= n - 1 {
        0
    } else {
        (i + 1) as usize
    }
}

/// The row before `i` in a list of `n`, wrapping to the last.
pub open spec fn prev_row(i: usize, n: nat) -> usize {
    if i == 0 {
        (n - 1) as usize
    } else {
        (i - 1) as usize
    }
}

/// The dashboard after moving down: the next manager or package, wrapping
/// around (the first where none is highlighted), or the log one line further.
pub open spec fn spec_down(v: AppView) -> AppView {
    match v.view_state {
        ViewState::Managers => AppView {
            managers_selected: Some(
                match v.managers_selected {
                    Some(i) => next_row(i, v.managers.len()),
                    None => 0,
                },
            ),
            ..v
        },
        ViewState::Packages(idx) => {
            let count = v.managers[idx as int].packages.len();
            if count > 0 {
                AppView {
                    packages_selected: Some(
                        match v.packages_selected {
                            Some(i) => next_row(i, count),
                            None => 0,
                        },
                    ),
                    ..v
                }
            } else {
                v
            }
        },
        ViewState::Logs => AppView { logs_scroll: v.logs_scroll.saturating_add(1), ..v },
    }
}

/// The dashboard after moving up: the previous manager or package, wrapping
/// around (the first where none is highlighted), or the log one line back.
pub open spec fn spec_up(v: AppView) -> AppView {
    match v.view_state {
        ViewState::Managers => AppView {
            managers_selected: Some(
                match v.managers_selected {
                    Some(i) => prev_row(i, v.managers.len()),
                    None => 0,
                },
            ),
            ..v
        },
        ViewState::Packages(idx) => {
            let count = v.managers[idx as int].packages.len();
            if count > 0 {
                AppView {
                    packages_selected: Some(
                        match v.packages_selected {
                            Some(i) => prev_row(i, count),
                            None => 0,
                        },
                    ),
                    ..v
                }
            } else {
                v
            }
        },
        ViewState::Logs => AppView { logs_scroll: v.logs_scroll.saturating_sub(1), ..v },
    }
}

/// The packages, none marked.
pub open spec fn unselect_all(ps: Seq<PackageView>) -> Seq<PackageView> {
    ps.map_values(|p: PackageView| PackageView { selected: false, ..p })
}

/// Going back: from the log to the managers with the log cleared, from a
/// package list to the managers with its marks cleared; from the managers, quit.
pub open spec fn spec_back(v: AppView) -> (AppView, ActionView) {
    match v.view_state {
        ViewState::Logs => (
            AppView { view_state: ViewState::Managers, logs: seq![], logs_scroll: 0, ..v },
            ActionView::Continue,
        ),
        ViewState::Packages(idx) => (
            AppView {
                view_state: ViewState::Managers,
                managers: v.managers.update(
                    idx as int,
                    ManagerView { packages: unselect_all(v.managers[idx as int].packages), ..v.managers[idx as int] },
                ),
                ..v
            },
            ActionView::Continue,
        ),
        ViewState::Managers => (v, ActionView::Quit),
    }
}

/// Marking or unmarking the highlighted package.
pub open spec fn spec_toggle(v: AppView) -> AppView {
    match (v.view_state, v.packages_selected) {
        (ViewState::Packages(idx), Some(i)) => {
            let row = v.managers[idx as int];
            if i < row.packages.len() {
                let p = row.packages[i as int];
                AppView {
                    managers: v.managers.update(
                        idx as int,
                        ManagerView {
                            packages: row.packages.update(i as int, PackageView { selected: !p.selected, ..p }),
                            ..row
                        },
                    ),
                    ..v
                }
            } else {
                v
            }
        },
        _ => v,
    }
}

/// Opening the highlighted manager, once it has loaded.
pub open spec fn spec_enter(v: AppView) -> AppView {
    match (v.view_state, v.managers_selected) {
        (ViewState::Managers, Some(i)) => if !v.managers[i as int].loading {
            AppView { view_state: ViewState::Packages(i), packages_selected: Some(0), ..v }
        } else {
            v
        },
        _ => v,
    }
}

/// The marked packages, in order.
pub open spec fn selected_of(ps: Seq<PackageView>) -> Seq<PackageView>
    decreases ps.len(),
{
    if ps.len() == 0 {
        seq![]
    } else {
        let r = selected_of(ps.drop_last());
        if ps.last().selected {
            r.push(ps.last())
        } else {
            r
        }
    }
}

/// Starting a batch on the marked packages of the open list, if any are.
pub open spec fn spec_run(v: AppView, is_update: bool) -> (AppView, ActionView) {
    match v.view_state {
        ViewState::Packages(idx) => {
            let sel = selected_of(v.managers[idx as int].packages);
            if sel.len() > 0 {
                (AppView { view_state: ViewState::Logs, ..v }, ActionView::Run(sel, is_update))
            } else {
                (v, ActionView::Continue)
            }
        },
        _ => (v, ActionView::Continue),
    }
}

/// The dashboard and what to do after key `k`.
pub open spec fn spec_key(v: AppView, k: Key) -> (AppView, ActionView) {
    if k == Key::Char('q') {
        if v.view_state != ViewState::Logs {
            (v, ActionView::Quit)
        } else {
            (v, ActionView::Continue)
        }
    } else if k == Key::Esc || k == Key::Backspace {
        spec_back(v)
    } else if k == Key::Down || k == Key::Char('j') {
        (spec_down(v), ActionView::Continue)
    } else if k == Key::Up || k == Key::Char('k') {
        (spec_up(v), ActionView::Continue)
    } else if k == Key::Char(' ') {
        (spec_toggle(v), ActionView::Continue)
    } else if k == Key::Enter {
        (spec_enter(v), ActionView::Continue)
    } else if k == Key::Char('u') || k == Key::Char('d') {
        spec_run(v, k == Key::Char('u'))
    } else {
        (v, ActionView::Continue)
    }
}

/// The packages with none marked.
fn unselected(ps: &Vec<Package>) -> (r: Vec<Package>)
    ensures
        package_views(r@) == unselect_all(package_views(ps@)),
{
    let mut r: Vec<Package> = Vec::new();
    let mut i: usize = 0;
    while i < ps.len()
        invariant
            i <= ps@.len(),
            r@.len() == i,
            forall|j: int| 0 <= j < i ==> (#[trigger] r@[j])@ == (PackageView { selected: false, ..ps@[j]@ }),
        decreases ps@.len() - i,
    {
        let mut q = ps[i].clone();
        q.selected = false;
        r.push(q);
        i = i + 1;
    }
    assert(package_views(r@) =~= unselect_all(package_views(ps@)));
    r
}

/// Copies of the marked packages, in order.
fn selected_in(ps: &Vec<Package>) -> (r: Vec<Package>)
    ensures
        package_views(r@) == selected_of(package_views(ps@)),
{
    let mut r: Vec<Package> = Vec::new();
    let mut i: usize = 0;
    assert(package_views(ps@).take(0) =~= Seq::<PackageView>::empty());
    assert(package_views(r@) =~= Seq::<PackageView>::empty());
    while i < ps.len()
        invariant
            i <= ps@.len(),
            package_views(r@) == selected_of(package_views(ps@).take(i as int)),
        decreases ps@.len() - i,
    {
        assert(package_views(ps@).take(i + 1).drop_last() =~= package_views(ps@).take(i as int));
        assert(package_views(ps@).take(i + 1).last() == ps@[i as int]@);
        if ps[i].selected {
            let ghost before = r@;
            let q = ps[i].clone();
            r.push(q);
            assert(package_views(r@) =~= package_views(before).push(ps@[i as int]@));
        }
        i = i + 1;
    }
    assert(package_views(ps@).take(i as int) =~= package_views(ps@));
    r
}

impl App {
    /// Reacts to key `key`.
    pub fn handle_key(&mut self, key: Key) -> (a: Action)
        requires
            wf(old(self)@),
        ensures
            (final(self)@, a@) == spec_key(old(self)@, key),
            wf(final(self)@),
    {
        let n = self.managers.len();
        match key {
            Key::Char('q') => {
                if self.view_state != ViewState::Logs {
                    Action::Quit
                } else {
                    Action::Continue
                }
            },
            Key::Esc | Key::Backspace => {
                match self.view_state {
                    ViewState::Logs => {
                        self.view_state = ViewState::Managers;
                        self.logs = Vec::new();
                        self.logs_scroll = 0;
                        assert(string_views(self.logs@) =~= Seq::<Seq<char>>::empty());
                        Action::Continue
                    },
                    ViewState::Packages(idx) => {
                        self.view_state = ViewState::Managers;
                        let st = self.managers.remove(idx);
                        assert(st == old(self).managers@[idx as int]);
                        assert(old(self)@.managers[idx as int] == st@);
                        let new_st = ManagerState {
                            manager: st.manager,
                            loading: st.loading,
                            packages: unselected(&st.packages),
                        };
                        self.managers.insert(idx, new_st);
                        proof {
                            assert(self.managers@ =~= old(self).managers@.update(idx as int, new_st));
                            lemma_manager_views_update(old(self).managers@, idx as int, new_st);
                        }
                        Action::Continue
                    },
                    ViewState::Managers => Action::Quit,
                }
            },
            Key::Down | Key::Char('j') => {
                match self.view_state {
                    ViewState::Managers => {
                        self.managers_selected = Some(
                            match self.managers_selected {
                                Some(i) => if i >= n - 1 {
                                    0
                                } else {
                                    i + 1
                                },
                                None => 0,
                            },
                        );
                    },
                    ViewState::Packages(idx) => {
                        let count = self.managers[idx].packages.len();
                        if count > 0 {
                            self.packages_selected = Some(
                                match self.packages_selected {
                                    Some(i) => if i >= count - 1 {
                                        0
                                    } else {
                                        i + 1
                                    },
                                    None => 0,
                                },
                            );
                        }
                    },
                    ViewState::Logs => {
                        self.logs_scroll = self.logs_scroll.saturating_add(1);
                    },
                }
                Action::Continue
            },
            Key::Up | Key::Char('k') => {
                match self.view_state {
                    ViewState::Managers => {
                        self.managers_selected = Some(
                            match self.managers_selected {
                                Some(i) => if i == 0 {
                                    n - 1
                                } else {
                                    i - 1
                                },
                                None => 0,
                            },
                        );
                    },
                    ViewState::Packages(idx) => {
                        let count = self.managers[idx].packages.len();
                        if count > 0 {
                            self.packages_selected = Some(
                                match self.packages_selected {
                                    Some(i) => if i == 0 {
                                        count - 1
                                    } else {
                                        i - 1
                                    },
                                    None => 0,
                                },
                            );
                        }
                    },
                    ViewState::Logs => {
                        self.logs_scroll = self.logs_scroll.saturating_sub(1);
                    },
                }
                Action::Continue
            },
            Key::Char(' ') => {
                match (self.view_state, self.packages_selected) {
                    (ViewState::Packages(idx), Some(i)) => {
                        if i < self.managers[idx].packages.len() {
                            let mut st = self.managers.remove(idx);
                            assert(st == old(self).managers@[idx as int]);
                            assert(old(self)@.managers[idx as int] == st@);
                            let ghost st0 = st@;
                            let mut q = st.packages.remove(i);
                            q.selected = !q.selected;
                            st.packages.insert(i, q);
                            proof {
                                assert(st.packages@ =~= old(self).managers@[idx as int].packages@.update(i as int, q));
                                lemma_package_views_update(old(self).managers@[idx as int].packages@, i as int, q);
                            }
                            self.managers.insert(idx, st);
                            proof {
                                assert(self.managers@ =~= old(self).managers@.update(idx as int, st));
                                lemma_manager_views_update(old(self).managers@, idx as int, st);
                            }
                        }
                    },
                    _ => {},
                }
                Action::Continue
            },
            Key::Enter => {
                match (self.view_state, self.managers_selected) {
                    (ViewState::Managers, Some(i)) => {
                        if !self.managers[i].loading {
                            self.view_state = ViewState::Packages(i);
                            self.packages_selected = Some(0);
                        }
                    },
                    _ => {},
                }
                Action::Continue
            },
            Key::Char('u') | Key::Char('d') => {
                match self.view_state {
                    ViewState::Packages(idx) => {
                        let sel = selected_in(&self.managers[idx].packages);
                        if sel.len() > 0 {
                            self.view_state = ViewState::Logs;
                            Action::Run(sel, key == Key::Char('u'))
                        } else {
                            Action::Continue
                        }
                    },
                    _ => Action::Continue,
                }
            },
            _ => Action::Continue,
        }
    }
}

/// The managers of a row list, in order.
pub open spec fn row_managers(ms: Seq<ManagerView>) -> Seq<ManagerType> {
    ms.map_values(|m: ManagerView| m.manager)
}

proof fn lemma_finish_all_keeps_managers(ms: Seq<ManagerView>, is_update: bool, ps: Seq<PackageView>)
    ensures
        row_managers(finish_all(ms, is_update, ps)) == row_managers(ms),
    decreases ps.len(),
{
    if ps.len() > 0 {
        lemma_finish_all_keeps_managers(ms, is_update, ps.drop_last());
        let prev = finish_all(ms, is_update, ps.drop_last());
        assert(row_managers(finish_one(prev, is_update, ps.last())) =~= row_managers(prev));
    }
}

/// Whatever the dashboard hears, its rows stay those of the same managers in
/// the same order, and a well-formed dashboard stays well formed.
pub proof fn lemma_event_keeps_rows(v: AppView, e: AppEvent)
    ensures
        row_managers(spec_event(v, e).managers) == row_managers(v.managers),
        wf(v) ==> wf(spec_event(v, e)),
{
    match e {
        AppEvent::ManagerLoaded(m, ps) => {
            assert(row_managers(spec_event(v, e).managers) =~= row_managers(v.managers));
        },
        AppEvent::OutdatedLoaded(m, pairs) => {
            assert(row_managers(spec_event(v, e).managers) =~= row_managers(v.managers));
        },
        AppEvent::LogLine(l) => {},
        AppEvent::OperationFinished(u, ps) => {
            lemma_finish_all_keeps_managers(v.managers, u, package_views(ps@));
        },
    }
    assert(spec_event(v, e).managers.len() == row_managers(spec_event(v, e).managers).len());
}

/// Keys never change which managers the rows are for.
pub proof fn lemma_key_keeps_rows(v: AppView, k: Key)
    requires
        wf(v),
    ensures
        row_managers(spec_key(v, k).0.managers) == row_managers(v.managers),
{
    assert(row_managers(spec_key(v, k).0.managers) =~= row_managers(v.managers));
}

/// Moving down and then up in the managers list comes back to the same
/// manager.
pub proof fn lemma_down_up_managers(v: AppView)
    requires
        wf(v),
        v.managers.len() <= usize::MAX,
        v.view_state == ViewState::Managers,
        v.managers_selected is Some,
    ensures
        spec_up(spec_down(v)) == v,
{
}

/// Moving down and then up in a packages list comes back to the same package,
/// when one of the list is highlighted.
pub proof fn lemma_down_up_packages(v: AppView, idx: usize, i: usize)
    requires
        wf(v),
        v.managers[idx as int].packages.len() <= usize::MAX,
        v.view_state == ViewState::Packages(idx),
        v.packages_selected == Some(i),
        i < v.managers[idx as int].packages.len(),
    ensures
        spec_up(spec_down(v)) == v,
{
}

/// Moving down from the last manager wraps to the first; moving up from the
/// first wraps to the last.
pub proof fn lemma_managers_wrap(v: AppView)
    requires
        wf(v),
        v.managers.len() <= usize::MAX,
        v.view_state == ViewState::Managers,
    ensures
        v.managers_selected == Some((v.managers.len() - 1) as usize) ==> spec_down(v).managers_selected
            == Some(0usize),
        v.managers_selected == Some(0usize) ==> spec_up(v).managers_selected == Some(
            (v.managers.len() - 1) as usize,
        ),
{
}

/// Marking the highlighted package twice leaves the dashboard as it was.
pub proof fn lemma_toggle_twice(v: AppView)
    requires
        wf(v),
    ensures
        spec_toggle(spec_toggle(v)) == v,
{
    match (v.view_state, v.packages_selected) {
        (ViewState::Packages(idx), Some(i)) => {
            let row = v.managers[idx as int];
            if i < row.packages.len() {
                let once = spec_toggle(v);
                assert(once.managers[idx as int].packages.len() == row.packages.len());
                assert(spec_toggle(once).managers[idx as int].packages =~= row.packages);
                assert(spec_toggle(once).managers =~= v.managers);
            }
        },
        _ => {},
    }
}

/// Going back from a packages list leaves none of its packages marked.
pub proof fn lemma_back_clears_marks(v: AppView, idx: usize)
    requires
        wf(v),
        v.view_state == ViewState::Packages(idx),
    ensures
        spec_back(v).0.view_state == ViewState::Managers,
        forall|j: int|
            0 <= j < spec_back(v).0.managers[idx as int].packages.len() ==> !(#[trigger] spec_back(
                v,
            ).0.managers[idx as int].packages[j]).selected,
{
}

proof fn lemma_selected_of_marked(ps: Seq<PackageView>)
    ensures
        forall|j: int| 0 <= j < selected_of(ps).len() ==> (#[trigger] selected_of(ps)[j]).selected,
        forall|j: int| 0 <= j < selected_of(ps).len() ==> ps.contains(#[trigger] selected_of(ps)[j]),
    decreases ps.len(),
{
    if ps.len() > 0 {
        lemma_selected_of_marked(ps.drop_last());
        let r = selected_of(ps.drop_last());
        assert forall|j: int| 0 <= j < selected_of(ps).len() implies ps.contains(
            #[trigger] selected_of(ps)[j],
        ) by {
            if j < r.len() {
                let x = r[j];
                assert(ps.drop_last().contains(x));
                let w = choose|w: int| 0 <= w < ps.drop_last().len() && ps.drop_last()[w] == x;
                assert(ps[w] == x);
            } else {
                assert(ps[ps.len() - 1] == ps.last());
            }
        }
    }
}

/// A batch starts only with marked packages of the open list, and only when
/// at least one is marked; `u` updates and `d` removes.
pub proof fn lemma_run_only_marked(v: AppView, k: Key)
    requires
        wf(v),
    ensures
        spec_key(v, k).1 matches ActionView::Run(sel, u) ==> {
            &&& v.view_state matches ViewState::Packages(idx)
            &&& sel.len() > 0
            &&& sel == selected_of(v.managers[idx as int].packages)
            &&& forall|j: int| 0 <= j < sel.len() ==> (#[trigger] sel[j]).selected
            &&& forall|j: int| 0 <= j < sel.len() ==> v.managers[idx as int].packages.contains(#[trigger] sel[j])
            &&& u == (k == Key::Char('u'))
            &&& spec_key(v, k).0.view_state == ViewState::Logs
        },
{
    match v.view_state {
        ViewState::Packages(idx) => {
            lemma_selected_of_marked(v.managers[idx as int].packages);
        },
        _ => {},
    }
}

proof fn lemma_count_loading_update(ms: Seq<ManagerView>, k: int, m: ManagerView)
    requires
        0 <= k < ms.len(),
    ensures
        count_loading(ms.update(k, m)) + (if ms[k].loading {
            1int
        } else {
            0int
        }) == count_loading(ms) + (if m.loading {
            1int
        } else {
            0int
        }),
    decreases ms.len(),
{
    if k < ms.len() - 1 {
        lemma_count_loading_update(ms.drop_last(), k, m);
        assert(ms.update(k, m).drop_last() =~= ms.drop_last().update(k, m));
    } else {
        assert(ms.update(k, m).drop_last() =~= ms.drop_last());
    }
}

/// When a manager that is still loading hears its packages, one manager fewer
/// is loading.
pub proof fn lemma_loaded_counts_down(v: AppView, m: ManagerType, ps: Seq<PackageView>)
    requires
        manager_index(v.managers, m) < v.managers.len(),
        v.managers[manager_index(v.managers, m) as int].loading,
    ensures
        count_loading(spec_loaded(v, m, ps).managers) + 1 == count_loading(v.managers),
{
    let k = manager_index(v.managers, m) as int;
    lemma_count_loading_update(
        v.managers,
        k,
        ManagerView { manager: v.managers[k].manager, loading: false, packages: ps },
    );
}

proof fn lemma_without_name_subset(ps: Seq<PackageView>, name: Seq<char>)
    ensures
        forall|j: int|
            0 <= j < without_name(ps, name).len() ==> (#[trigger] without_name(ps, name)[j]).name != name
                && ps.contains(without_name(ps, name)[j]),
    decreases ps.len(),
{
    if ps.len() > 0 {
        lemma_without_name_subset(ps.drop_last(), name);
        let r = without_name(ps.drop_last(), name);
        assert forall|j: int| 0 <= j < without_name(ps, name).len() implies (#[trigger] without_name(
            ps,
            name,
        )[j]).name != name && ps.contains(without_name(ps, name)[j]) by {
            if j < r.len() {
                let x = r[j];
                let w = choose|w: int| 0 <= w < ps.drop_last().len() && ps.drop_last()[w] == x;
                assert(ps[w] == x);
            } else {
                assert(ps[ps.len() - 1] == ps.last());
            }
        }
    }
}

/// Names absent from a row stay absent through removals.
proof fn lemma_removal_keeps_absent(ms: Seq<ManagerView>, ps: Seq<PackageView>, k: int, name: Seq<char>)
    requires
        0 <= k < ms.len(),
        forall|j: int| 0 <= j < ms[k].packages.len() ==> (#[trigger] ms[k].packages[j]).name != name,
    ensures
        finish_all(ms, false, ps).len() == ms.len(),
        forall|j: int|
            0 <= j < finish_all(ms, false, ps)[k].packages.len() ==> (#[trigger] finish_all(
                ms,
                false,
                ps,
            )[k].packages[j]).name != name,
    decreases ps.len(),
{
    if ps.len() > 0 {
        lemma_removal_keeps_absent(ms, ps.drop_last(), k, name);
        let prev = finish_all(ms, false, ps.drop_last());
        let q = ps.last();
        let kk = manager_index(prev, q.manager);
        if kk < prev.len() && kk == k {
            lemma_without_name_subset(prev[k].packages, q.name);
            assert forall|j: int| 0 <= j < finish_all(ms, false, ps)[k].packages.len() implies (#[trigger] finish_all(
                ms,
                false,
                ps,
            )[k].packages[j]).name != name by {
                let x = finish_all(ms, false, ps)[k].packages[j];
                assert(prev[k].packages.contains(x));
            }
        }
    }
}

proof fn lemma_finish_all_manager_index(ms: Seq<ManagerView>, is_update: bool, ps: Seq<PackageView>, m: ManagerType)
    ensures
        manager_index(finish_all(ms, is_update, ps), m) == manager_index(ms, m),
{
    lemma_finish_all_keeps_managers(ms, is_update, ps);
    lemma_manager_index_by_rows(finish_all(ms, is_update, ps), ms, m);
}

proof fn lemma_manager_index_by_rows(a: Seq<ManagerView>, b: Seq<ManagerView>, m: ManagerType)
    requires
        row_managers(a) == row_managers(b),
    ensures
        manager_index(a, m) == manager_index(b, m),
    decreases a.len(),
{
    assert(a.len() == row_managers(a).len() && b.len() == row_managers(b).len());
    if a.len() > 0 {
        assert(a[0].manager == row_managers(a)[0] && b[0].manager == row_managers(b)[0]);
        assert(row_managers(a.drop_first()) =~= row_managers(a).drop_first());
        assert(row_managers(b.drop_first()) =~= row_managers(b).drop_first());
        lemma_manager_index_by_rows(a.drop_first(), b.drop_first(), m);
    }
}

/// After a batch of removals, no package of the batch is left in its
/// manager's row.
pub proof fn lemma_removed_are_gone(ms: Seq<ManagerView>, ps: Seq<PackageView>, i: int)
    requires
        0 <= i < ps.len(),
        manager_index(ms, ps[i].manager) < ms.len(),
    ensures
        ({
            let after = finish_all(ms, false, ps);
            let k = manager_index(ms, ps[i].manager) as int;
            forall|j: int| 0 <= j < after[k].packages.len() ==> (#[trigger] after[k].packages[j]).name != ps[i].name
        }),
    decreases ps.len(),
{
    let k = manager_index(ms, ps[i].manager) as int;
    if i == ps.len() - 1 {
        let prev = finish_all(ms, false, ps.drop_last());
        lemma_finish_all_manager_index(ms, false, ps.drop_last(), ps[i].manager);
        lemma_finish_all_keeps_managers(ms, false, ps.drop_last());
        assert(prev.len() == row_managers(prev).len());
        lemma_without_name_subset(prev[k].packages, ps[i].name);
    } else {
        lemma_removed_are_gone(ms, ps.drop_last(), i);
        let prev = finish_all(ms, false, ps.drop_last());
        lemma_finish_all_keeps_managers(ms, false, ps.drop_last());
        assert(prev.len() == row_managers(prev).len());
        assert(ps.drop_last()[i] == ps[i]);
        let single = seq![ps.last()];
        lemma_removal_keeps_absent(prev, single, k, ps[i].name);
        assert(single.drop_last() =~= Seq::<PackageView>::empty());
        assert(finish_all(prev, false, single.drop_last()) == prev);
        assert(single.last() == ps.last());
        assert(finish_all(prev, false, single) == finish_all(ms, false, ps));
    }
}

/// After an update of `p`, the first package of its row with its name is at
/// the version that was available, with no upgrade pending and unmarked.
pub proof fn lemma_update_settles(ms: Seq<ManagerView>, p: PackageView)
    requires
        manager_index(ms, p.manager) < ms.len(),
        first_named(ms[manager_index(ms, p.manager) as int].packages, p.name) < ms[manager_index(
            ms,
            p.manager,
        ) as int].packages.len(),
    ensures
        ({
            let k = manager_index(ms, p.manager) as int;
            let before = ms[k].packages[first_named(ms[k].packages, p.name) as int];
            let after = finish_one(ms, true, p)[k].packages[first_named(ms[k].packages, p.name) as int];
            &&& after.latest_version is None
            &&& !after.selected
            &&& after.name == before.name
            &&& before.latest_version matches Some(l) ==> after.version == l
        }),
{
}

/// Adding a log line keeps the last ten lines in view.
pub proof fn lemma_log_shows_last_lines(v: AppView, line: Seq<char>)
    requires
        v.logs.len() + 1 <= u16::MAX + 10,
    ensures
        spec_log_line(v, line).logs == v.logs.push(line),
        spec_log_line(v, line).logs.len() > 10 ==> spec_log_line(v, line).logs_scroll + 10
            == spec_log_line(v, line).logs.len(),
{
}

/// Whether a package has a name other than `name`.
pub open spec fn named_other_than(name: Seq<char>) -> spec_fn(PackageView) -> bool {
    |p: PackageView| p.name != name
}

/// A removal keeps exactly the packages whose name differs from the removed
/// one, every one of them, in their order.
pub proof fn lemma_removal_keeps_other_names(ps: Seq<PackageView>, name: Seq<char>)
    ensures
        without_name(ps, name) == ps.filter(named_other_than(name)),
    decreases ps.len(),
{
    reveal(Seq::filter);
    if ps.len() > 0 {
        lemma_removal_keeps_other_names(ps.drop_last(), name);
    }
}

/// Removing package `p` leaves its manager's row with exactly the packages
/// named otherwise, in order, and the other rows as they were.
pub proof fn lemma_removal_row(ms: Seq<ManagerView>, p: PackageView)
    requires
        manager_index(ms, p.manager) < ms.len(),
    ensures
        ({
            let k = manager_index(ms, p.manager) as int;
            let after = finish_one(ms, false, p);
            &&& after.len() == ms.len()
            &&& after[k].packages == ms[k].packages.filter(named_other_than(p.name))
            &&& after[k].manager == ms[k].manager
            &&& forall|i: int| 0 <= i < ms.len() && i != k ==> after[i] == ms[i]
        }),
{
    let k = manager_index(ms, p.manager) as int;
    lemma_removal_keeps_other_names(ms[k].packages, p.name);
}

/// An upgrade marks the first package whose trimmed name matches the
/// upgrade's (ASCII case aside), wherever it stands in the row, with the
/// trimmed newest version, and changes nothing else.
pub proof fn lemma_upgrade_marks_first_match(
    ps: Seq<PackageView>,
    name: Seq<char>,
    latest: Seq<char>,
    j: int,
)
    requires
        0 <= j < ps.len(),
        same_package_name(ps[j].name, name),
        forall|i: int| 0 <= i < j ==> !same_package_name((#[trigger] ps[i]).name, name),
    ensures
        mark_upgrade(ps, name, latest).len() == ps.len(),
        mark_upgrade(ps, name, latest)[j].latest_version == Some(trim(latest)),
        mark_upgrade(ps, name, latest)[j] == (PackageView { latest_version: Some(trim(latest)), ..ps[j] }),
        forall|i: int| 0 <= i < ps.len() && i != j ==> mark_upgrade(ps, name, latest)[i] == ps[i],
{
    lemma_first_matching(ps, name, j);
}

/// An upgrade that matches no package of the row leaves the row as it was.
pub proof fn lemma_upgrade_without_match(ps: Seq<PackageView>, name: Seq<char>, latest: Seq<char>)
    requires
        forall|i: int| 0 <= i < ps.len() ==> !same_package_name((#[trigger] ps[i]).name, name),
    ensures
        mark_upgrade(ps, name, latest) == ps,
{
    lemma_first_matching(ps, name, ps.len() as int);
}

/// Marking upgrades keeps the row's packages, their names and everything but
/// their newest version.
pub proof fn lemma_upgrades_keep_names(ps: Seq<PackageView>, pairs: Seq<(Seq<char>, Seq<char>)>)
    ensures
        mark_upgrades(ps, pairs).len() == ps.len(),
        forall|i: int|
            0 <= i < ps.len() ==> (#[trigger] mark_upgrades(ps, pairs)[i]) == (PackageView {
                latest_version: mark_upgrades(ps, pairs)[i].latest_version,
                ..ps[i]
            }),
    decreases pairs.len(),
{
    if pairs.len() > 0 {
        lemma_upgrades_keep_names(ps, pairs.drop_last());
        let q = mark_upgrades(ps, pairs.drop_last());
        let j = first_matching(q, pairs.last().0);
        assert forall|i: int| 0 <= i < ps.len() implies (#[trigger] mark_upgrades(ps, pairs)[i]) == (
        PackageView { latest_version: mark_upgrades(ps, pairs)[i].latest_version, ..ps[i] }) by {
            assert(q[i] == (PackageView { latest_version: q[i].latest_version, ..ps[i] }));
        }
    }
}

/// Package `j` is the first of `ps` whose trimmed name matches `name`, ASCII
/// case aside.
pub open spec fn first_match_at(ps: Seq<PackageView>, name: Seq<char>, j: int) -> bool {
    &&& 0 <= j < ps.len()
    &&& same_package_name(ps[j].name, name)
    &&& forall|i: int| 0 <= i < j ==> !same_package_name((#[trigger] ps[i]).name, name)
}

proof fn lemma_first_matching_is_first(ps: Seq<PackageView>, name: Seq<char>)
    ensures
        first_matching(ps, name) <= ps.len(),
        first_matching(ps, name) < ps.len() ==> first_match_at(ps, name, first_matching(ps, name) as int),
    decreases ps.len(),
{
    if ps.len() > 0 && !same_package_name(ps[0].name, name) {
        lemma_first_matching_is_first(ps.drop_first(), name);
        let j = first_matching(ps, name) as int;
        if j < ps.len() {
            assert(ps[j] == ps.drop_first()[j - 1]);
            assert forall|i: int| 0 <= i < j implies !same_package_name((#[trigger] ps[i]).name, name) by {
                if i > 0 {
                    assert(ps[i] == ps.drop_first()[i - 1]);
                }
            }
        }
    }
}

proof fn lemma_first_match_by_names(a: Seq<PackageView>, b: Seq<PackageView>, name: Seq<char>, j: int)
    requires
        a.len() == b.len(),
        forall|i: int| 0 <= i < a.len() ==> (#[trigger] a[i]).name == b[i].name,
    ensures
        first_match_at(a, name, j) == first_match_at(b, name, j),
{
    if 0 <= j < a.len() {
        assert(a[j].name == b[j].name);
        if first_match_at(a, name, j) {
            assert forall|i: int| 0 <= i < j implies !same_package_name((#[trigger] b[i]).name, name) by {
                assert(a[i].name == b[i].name);
            }
        }
        if first_match_at(b, name, j) {
            assert forall|i: int| 0 <= i < j implies !same_package_name((#[trigger] a[i]).name, name) by {
                assert(a[i].name == b[i].name);
            }
        }
    }
}

/// Each upgrade of a batch reaches the first package of the row whose
/// trimmed name matches the upgrade's (ASCII case aside), wherever it stands,
/// and leaves the trimmed newest version there, unless a later upgrade of the
/// batch matches that same package.
pub proof fn lemma_upgrades_mark_matches(
    ps: Seq<PackageView>,
    pairs: Seq<(Seq<char>, Seq<char>)>,
    i: int,
    j: int,
)
    requires
        0 <= i < pairs.len(),
        first_match_at(ps, pairs[i].0, j),
        forall|l: int| i < l < pairs.len() ==> !first_match_at(ps, (#[trigger] pairs[l]).0, j),
    ensures
        mark_upgrades(ps, pairs)[j].latest_version == Some(trim(pairs[i].1)),
    decreases pairs.len(),
{
    let front = pairs.drop_last();
    let last = pairs.last();
    lemma_upgrades_keep_names(ps, front);
    let q = mark_upgrades(ps, front);
    assert forall|k: int| 0 <= k < q.len() implies (#[trigger] q[k]).name == ps[k].name by {
        assert(q[k] == (PackageView { latest_version: q[k].latest_version, ..ps[k] }));
    }
    if i == pairs.len() - 1 {
        lemma_first_match_by_names(q, ps, last.0, j);
        lemma_upgrade_marks_first_match(q, last.0, last.1, j);
    } else {
        assert forall|l: int| i < l < front.len() implies !first_match_at(ps, (#[trigger] front[l]).0, j) by {
            assert(front[l] == pairs[l]);
        }
        assert(front[i] == pairs[i]);
        lemma_upgrades_mark_matches(ps, front, i, j);
        assert(pairs[pairs.len() - 1] == last);
        lemma_first_matching_is_first(q, last.0);
        let jj = first_matching(q, last.0) as int;
        if jj < q.len() {
            lemma_first_match_by_names(q, ps, last.0, jj);
            lemma_upgrade_marks_first_match(q, last.0, last.1, jj);
        }
    }
}

/// When a manager's upgrades are loaded, each upgrade reaches the first
/// package of the manager's row whose trimmed name matches it (ASCII case
/// aside), wherever it stands, unless a later upgrade matches that same
/// package: the package shows the upgrade's trimmed newest version.
pub proof fn lemma_outdated_marks_match(
    v: AppView,
    m: ManagerType,
    pairs: Seq<(Seq<char>, Seq<char>)>,
    i: int,
    j: int,
)
    requires
        manager_index(v.managers, m) < v.managers.len(),
        0 <= i < pairs.len(),
        first_match_at(v.managers[manager_index(v.managers, m) as int].packages, pairs[i].0, j),
        forall|l: int|
            i < l < pairs.len() ==> !first_match_at(
                v.managers[manager_index(v.managers, m) as int].packages,
                (#[trigger] pairs[l]).0,
                j,
            ),
    ensures
        spec_outdated_loaded(v, m, pairs).managers[manager_index(v.managers, m) as int].packages[j].latest_version
            == Some(trim(pairs[i].1)),
{
    let k = manager_index(v.managers, m) as int;
    lemma_upgrades_mark_matches(v.managers[k].packages, pairs, i, j);
}

/// `q` quits from every screen but the log, leaving the dashboard as it is;
/// on the log it does nothing.
pub proof fn lemma_q_quits(v: AppView)
    ensures
        v.view_state != ViewState::Logs ==> spec_key(v, Key::Char('q')) == (v, ActionView::Quit),
        v.view_state == ViewState::Logs ==> spec_key(v, Key::Char('q')) == (v, ActionView::Continue),
{
}

} // verus!
