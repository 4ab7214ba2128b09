use vstd::prelude::*;

use crate::manager::ManagerType;

verus! {

/// An installed package as the dashboard shows it.
#[derive(Debug)]
pub struct Package {
    pub name: String,
    pub version: String,
    /// The newer version a manager offers, once known.
    pub latest_version: Option<String>,
    /// The manager the package was listed by.
    pub manager: ManagerType,
    /// Whether the package is marked for the next batch update or removal.
    pub selected: bool,
}

impl Clone for Package {
    fn clone(&self) -> (r: Self)
        ensures
            r == *self,
    {
        Package {
            name: self.name.clone(),
            version: self.version.clone(),
            latest_version: match &self.latest_version {
                Some(v) => Some(v.clone()),
                None => None,
            },
            manager: self.manager,
            selected: self.selected,
        }
    }
}

/// What a package holds, as values.
pub struct PackageView {
    pub name: Seq<char>,
    pub version: Seq<char>,
    pub latest_version: Option<Seq<char>>,
    pub manager: ManagerType,
    pub selected: bool,
}

pub open spec fn opt_string_view(o: Option<String>) -> Option<Seq<char>> {
    match o {
        Some(s) => Some(s@),
        None => None,
    }
}

impl View for Package {
    type V = PackageView;

    open spec fn view(&self) -> PackageView {
        PackageView {
            name: self.name@,
            version: self.version@,
            latest_version: opt_string_view(self.latest_version),
            manager: self.manager,
            selected: self.selected,
        }
    }
}

/// The values of each package of a sequence.
pub open spec fn package_views(ps: Seq<Package>) -> Seq<PackageView> {
    ps.map_values(|p: Package| p@)
}

/// A name and a version read from a manager's output.
pub type Entry = (Seq<char>, Seq<char>);

/// The characters of both strings of each pair.
pub open spec fn pair_views(v: Seq<(String, String)>) -> Seq<Entry> {
    v.map_values(|x: (String, String)| (x.0@, x.1@))
}

/// `ps` are the packages named by `es`, in order, freshly listed by manager
/// `m`: no newer version known yet and none marked.
pub open spec fn fresh_packages(ps: Seq<Package>, es: Seq<Entry>, m: ManagerType) -> bool {
    &&& ps.len() == es.len()
    &&& forall|i: int|
        0 <= i < ps.len() ==> {
            &&& (#[trigger] ps[i]).name@ == es[i].0
            &&& ps[i].version@ == es[i].1
            &&& ps[i].latest_version is None
            &&& ps[i].manager == m
            &&& !ps[i].selected
        }
}

/// A package freshly listed by manager `m`.
pub fn new_package(name: String, version: String, m: ManagerType) -> (p: Package)
    ensures
        p.name == name,
        p.version == version,
        p.latest_version is None,
        p.manager == m,
        !p.selected,
{
    Package { name, version, latest_version: None, manager: m, selected: false }
}

/// The packages named by `pairs`, freshly listed by manager `m`.
pub fn packages_from_pairs(pairs: &Vec<(String, String)>, m: ManagerType) -> (r: Vec<Package>)
    ensures
        fresh_packages(r@, pair_views(pairs@), m),
{
    let mut r: Vec<Package> = Vec::new();
    let mut i: usize = 0;
    while i < pairs.len()
        invariant
            i <= pairs@.len(),
            fresh_packages(r@, pair_views(pairs@).take(i as int), m),
        decreases pairs@.len() - i,
    {
        let p = new_package(pairs[i].0.clone(), pairs[i].1.clone(), m);
        r.push(p);
        i = i + 1;
        assert(pair_views(pairs@).take(i as int)[i - 1] == (pairs@[i - 1].0@, pairs@[i - 1].1@));
        assert forall|j: int| 0 <= j < r@.len() implies ({
            &&& (#[trigger] r@[j]).name@ == pair_views(pairs@).take(i as int)[j].0
            &&& r@[j].version@ == pair_views(pairs@).take(i as int)[j].1
            &&& r@[j].latest_version is None
            &&& r@[j].manager == m
            &&& !r@[j].selected
        }) by {
            if j < i - 1 {
                assert(pair_views(pairs@).take(i as int)[j] == pair_views(pairs@).take(i - 1)[j]);
            }
        }
    }
    assert(pair_views(pairs@).take(i as int) =~= pair_views(pairs@));
    r
}

} // verus!
