//! The packages found in the source directory, kept in a map from name to
//! directory, and picking them by name or by glob pattern.
use rustc_hash::{FxBuildHasher, FxHashMap};
use vstd::prelude::*;

use crate::error::ErKind;
use crate::glob::{glob, glob_match};
use crate::path::{Comp, SysPath};
use crate::text::views;

verus! {

/// The hasher builder of the package map.
#[verifier::external_type_specification]
#[verifier::external_body]
pub struct ExFxBuildHasher(FxBuildHasher);

/// The packages of the source: each name with its directory.
pub type PackageMap = FxHashMap<String, SysPath>;

/// The model of a package's directory: its components and its text.
pub type DirModel = (Seq<Comp>, Seq<char>);

/// The model of a directory: its components and how it is written.
pub open spec fn dir_model(p: SysPath) -> DirModel {
    (p@, p.written())
}

/// What a package map holds: the name of each package, with its directory.
pub uninterp spec fn package_map(m: PackageMap) -> Map<Seq<char>, DirModel>;

/// `FxHashMap::default`: a map that holds nothing.
#[verifier::external_body]
fn empty_packages() -> (r: PackageMap)
    ensures
        package_map(r).is_empty(),
{
    FxHashMap::default()
}

/// `HashMap::insert`: afterwards `name` maps to `dir`; what it mapped to
/// before, if anything, comes back.
#[verifier::external_body]
fn insert_package(m: &mut PackageMap, name: String, dir: SysPath) -> (r: Option<
    SysPath,
>)
    ensures
        package_map(*final(m)) == package_map(*old(m)).insert(name@, dir_model(dir)),
        match r {
            Some(p) => package_map(*old(m)).contains_key(name@) && dir_model(p) == package_map(*old(m))[name@],
            None => !package_map(*old(m)).contains_key(name@),
        },
{
    m.insert(name, dir)
}

/// `HashMap::get`: the directory that `name` maps to, if it maps to one.
#[verifier::external_body]
fn package_entry<'a>(m: &'a PackageMap, name: &str) -> (r: Option<&'a SysPath>)
    ensures
        match r {
            Some(p) => package_map(*m).contains_key(name@) && dir_model(*p) == package_map(*m)[name@],
            None => !package_map(*m).contains_key(name@),
        },
{
    m.get(name)
}

/// `HashMap::remove`: afterwards `name` maps to nothing; what it mapped
/// to before, if anything, comes back.
#[verifier::external_body]
fn remove_package(m: &mut PackageMap, name: &str) -> (r: Option<SysPath>)
    ensures
        package_map(*final(m)) == package_map(*old(m)).remove(name@),
        match r {
            Some(p) => package_map(*old(m)).contains_key(name@) && dir_model(p) == package_map(*old(m))[name@],
            None => !package_map(*old(m)).contains_key(name@),
        },
{
    m.remove(name)
}

/// `HashMap::keys`, copied: each name of the map once, in the order in
/// which the map is walked, which is left unsaid.
#[verifier::external_body]
fn package_names(m: &PackageMap) -> (r: Vec<String>)
    ensures
        views(r@).to_set() == package_map(*m).dom(),
        views(r@).no_duplicates(),
{
    m.keys().cloned().collect()
}

/// A package: its name and the directory that holds its files.
#[derive(Debug)]
pub struct Package {
    pub name: String,
    pub path: SysPath,
}

/// The model of a package: its name and its directory.
pub open spec fn pkg_view(p: Package) -> (Seq<char>, DirModel) {
    (p.name@, dir_model(p.path))
}

/// The names of a list of packages.
pub open spec fn pkg_names(v: Seq<Package>) -> Seq<Seq<char>> {
    v.map_values(|p: Package| p.name@)
}

impl Package {
    /// A copy of this package.
    pub fn duplicate(&self) -> (r: Package)
        ensures
            pkg_view(r) == pkg_view(*self),
    {
        Package { name: self.name.clone(), path: self.path.duplicate() }
    }
}

/// An entry of the source directory: its name, its path, and whether it
/// is a directory.
pub struct SourceEntry {
    pub name: String,
    pub path: SysPath,
    pub is_dir: bool,
}

/// The model of an entry of the source directory.
pub open spec fn entry_view(e: SourceEntry) -> (Seq<char>, DirModel, bool) {
    (e.name@, dir_model(e.path), e.is_dir)
}

/// The packages that the entries of the source directory make: each
/// directory is a package, under its name.
pub open spec fn dir_packages(entries: Seq<(Seq<char>, DirModel, bool)>) -> Map<
    Seq<char>,
    DirModel,
>
    decreases entries.len(),
{
    if entries.len() == 0 {
        Map::empty()
    } else if entries.last().2 {
        dir_packages(entries.drop_last()).insert(entries.last().0, entries.last().1)
    } else {
        dir_packages(entries.drop_last())
    }
}

/// Each directory of the source is a package under its name, and nothing
/// else is: a plain file never is.
pub proof fn law_dirs_are_packages(entries: Seq<(Seq<char>, DirModel, bool)>, name: Seq<char>)
    ensures
        dir_packages(entries).contains_key(name) <==> exists|k: int|
            0 <= k < entries.len() && (#[trigger] entries[k]).2 && entries[k].0 == name,
    decreases entries.len(),
{
    if entries.len() > 0 {
        let rest = entries.drop_last();
        law_dirs_are_packages(rest, name);
        if exists|k: int| 0 <= k < rest.len() && (#[trigger] rest[k]).2 && rest[k].0 == name {
            let k = choose|k: int| 0 <= k < rest.len() && (#[trigger] rest[k]).2 && rest[k].0 == name;
            assert(entries[k] == rest[k]);
        }
        if exists|k: int| 0 <= k < entries.len() && (#[trigger] entries[k]).2 && entries[k].0 == name {
            let k = choose|k: int| 0 <= k < entries.len() && (#[trigger] entries[k]).2 && entries[k].0 == name;
            if k < rest.len() {
                assert(rest[k] == entries[k]);
            }
        }
    }
}

/// The packages of the source directory, from its entries: each directory
/// is a package; with no directory at all the source is empty.
pub fn collect_packages(entries: &Vec<SourceEntry>) -> (r: Result<PackageMap, ErKind>)
    ensures
        match r {
            Ok(m) => {
                &&& package_map(m) == dir_packages(entries@.map_values(|e: SourceEntry| entry_view(e)))
                &&& exists|k: int| 0 <= k < entries@.len() && (#[trigger] entries@[k]).is_dir
            },
            Err(e) => {
                &&& e is SourceEmpty
                &&& forall|k: int| 0 <= k < entries@.len() ==> !(#[trigger] entries@[k]).is_dir
            },
        },
{
    let ghost all = entries@.map_values(|e: SourceEntry| entry_view(e));
    let mut m = empty_packages();
    let mut found = false;
    let mut i: usize = 0;
    assert(all.take(0) =~= Seq::<(Seq<char>, DirModel, bool)>::empty());
    while i < entries.len()
        invariant
            i <= entries@.len(),
            all == entries@.map_values(|e: SourceEntry| entry_view(e)),
            package_map(m) == dir_packages(all.take(i as int)),
            found <==> exists|k: int| 0 <= k < i && (#[trigger] entries@[k]).is_dir,
        decreases entries.len() - i,
    {
        assert(all.take(i + 1).drop_last() =~= all.take(i as int));
        assert(all.take(i + 1).last() == entry_view(entries@[i as int]));
        if entries[i].is_dir {
            insert_package(&mut m, entries[i].name.clone(), entries[i].path.duplicate());
            found = true;
        }
        i = i + 1;
    }
    assert(all.take(entries@.len() as int) =~= all);
    if found {
        Ok(m)
    } else {
        Err(ErKind::SourceEmpty)
    }
}

/// The directory of the package named `name`, as looking it up by name
/// gives it.
pub fn find_package(pkgs: &PackageMap, name: &str) -> (r: Option<SysPath>)
    ensures
        match r {
            Some(p) => package_map(*pkgs).contains_key(name@) && dir_model(p) == package_map(*pkgs)[name@],
            None => !package_map(*pkgs).contains_key(name@),
        },
{
    match package_entry(pkgs, name) {
        Some(p) => Some(p.duplicate()),
        None => None,
    }
}

/// The names of the packages of `m` that `pattern` matches.
pub open spec fn matching_names(m: Map<Seq<char>, DirModel>, pattern: Seq<char>) -> Set<Seq<char>> {
    m.dom().filter(|k: Seq<char>| glob(pattern, k))
}

/// Whether the packages of `v` are, each once, those of `m` named in
/// `names`, with their directories.
pub open spec fn packages_of(v: Seq<Package>, m: Map<Seq<char>, DirModel>, names: Set<Seq<char>>) -> bool {
    &&& pkg_names(v).no_duplicates()
    &&& pkg_names(v).to_set() == names
    &&& forall|k: int|
        0 <= k < v.len() ==> m.contains_key((#[trigger] v[k]).name@) && dir_model(v[k].path) == m[v[k].name@]
}

/// Takes out of `pkgs` the packages whose names match `pattern`, as a
/// request for packages by name picks them: each once, in the order in
/// which the map is walked; `None` when no package matches, and then
/// `pkgs` is left as it was.
#[verifier::spinoff_prover]
pub fn get_pkg_by_name(pkgs: &mut PackageMap, pattern: &str) -> (r: Option<Vec<Package>>)
    ensures
        package_map(*final(pkgs)) == package_map(*old(pkgs)).remove_keys(
            matching_names(package_map(*old(pkgs)), pattern@),
        ),
        match r {
            Some(v) => {
                &&& v@.len() > 0
                &&& packages_of(v@, package_map(*old(pkgs)), matching_names(package_map(*old(pkgs)), pattern@))
            },
            None => matching_names(package_map(*old(pkgs)), pattern@).is_empty(),
        },
{
    let ghost all = package_map(*pkgs);
    let names = package_names(pkgs);
    let ghost ns = views(names@);
    let mut hit: Vec<Package> = Vec::new();
    let mut i: usize = 0;
    assert(pkg_names(hit@).to_set() =~= Set::<Seq<char>>::empty());
    assert(all.remove_keys(Set::empty()) =~= all);
    while i < names.len()
        invariant
            i <= names@.len(),
            ns == views(names@),
            ns.to_set() == all.dom(),
            ns.no_duplicates(),
            pkg_names(hit@).no_duplicates(),
            package_map(*pkgs) == all.remove_keys(pkg_names(hit@).to_set()),
            forall|k: int|
                0 <= k < hit@.len() ==> {
                    &&& all.contains_key((#[trigger] hit@[k]).name@)
                    &&& dir_model(hit@[k].path) == all[hit@[k].name@]
                    &&& glob(pattern@, hit@[k].name@)
                    &&& ns.take(i as int).contains(hit@[k].name@)
                },
            forall|j: int|
                0 <= j < i && glob(pattern@, #[trigger] ns[j]) ==> pkg_names(hit@).contains(ns[j]),
        decreases names.len() - i,
    {
        let ghost hn = pkg_names(hit@);
        let ghost key = ns[i as int];
        assert(names@[i as int]@ == key);
        if glob_match(pattern, names[i].as_str()) {
            assert(ns.to_set().contains(key));
            assert(!hn.contains(key)) by {
                if hn.contains(key) {
                    let k = choose|k: int| 0 <= k < hn.len() && hn[k] == key;
                    assert(hit@[k].name@ == key);
                    let t = choose|t: int| 0 <= t < i && ns.take(i as int)[t] == key;
                    assert(ns[t] == ns[i as int]);
                }
            }
            assert(package_map(*pkgs).contains_key(key));
            match remove_package(pkgs, names[i].as_str()) {
                Some(dir) => {
                    let ghost before = hit@;
                    hit.push(Package { name: names[i].clone(), path: dir });
                    assert(pkg_names(hit@) =~= hn.push(key));
                    proof {
                        hn.lemma_push_to_set_commute(key);
                    }
                    assert(package_map(*pkgs) =~= all.remove_keys(pkg_names(hit@).to_set()));
                    assert forall|a: int, b: int|
                        0 <= a < b < pkg_names(hit@).len() implies pkg_names(hit@)[a] != pkg_names(
                            hit@,
                        )[b] by {
                        if b == hn.len() {
                            assert(hn.contains(hn[a]));
                        }
                    }
                    assert forall|k: int| 0 <= k < hit@.len() implies ns.take(i + 1).contains(
                        (#[trigger] hit@[k]).name@,
                    ) by {
                        if k < before.len() {
                            let t = choose|t: int| 0 <= t < i && ns.take(i as int)[t] == hit@[k].name@;
                            assert(ns.take(i + 1)[t] == hit@[k].name@);
                        } else {
                            assert(ns.take(i + 1)[i as int] == key);
                        }
                    }
                    assert forall|j: int|
                        0 <= j < i + 1 && glob(pattern@, #[trigger] ns[j]) implies pkg_names(
                            hit@,
                        ).contains(ns[j]) by {
                        if j < i {
                            assert(hn.contains(ns[j]));
                            let t = choose|t: int| 0 <= t < hn.len() && hn[t] == ns[j];
                            assert(pkg_names(hit@)[t] == ns[j]);
                        } else {
                            assert(pkg_names(hit@)[hn.len() as int] == ns[j]);
                        }
                    }
                },
                None => {},
            }
        } else {
            assert forall|k: int| 0 <= k < hit@.len() implies ns.take(i + 1).contains(
                (#[trigger] hit@[k]).name@,
            ) by {
                let t = choose|t: int| 0 <= t < i && ns.take(i as int)[t] == hit@[k].name@;
                assert(ns.take(i + 1)[t] == hit@[k].name@);
            }
        }
        i = i + 1;
    }
    let ghost found = matching_names(all, pattern@);
    assert(pkg_names(hit@).to_set() =~= found) by {
        assert forall|key: Seq<char>| #[trigger] found.contains(key) implies pkg_names(hit@).to_set().contains(key) by {
            assert(ns.to_set().contains(key));
            let j = choose|j: int| 0 <= j < ns.len() && ns[j] == key;
        }
        assert forall|key: Seq<char>| #[trigger] pkg_names(hit@).to_set().contains(key) implies found.contains(key) by {
            let k = choose|k: int| 0 <= k < hit@.len() && pkg_names(hit@)[k] == key;
            assert(hit@[k].name@ == key);
        }
    }
    if hit.len() == 0 {
        assert(found =~= Set::<Seq<char>>::empty()) by {
            assert forall|key: Seq<char>| #[trigger] found.contains(key) implies false by {
                assert(pkg_names(hit@).to_set().contains(key));
            }
        }
        None
    } else {
        Some(hit)
    }
}

} // verus!
