//! The configuration: where packages are kept, the root they are stowed
//! against, how conflicts are resolved and which packages are on this
//! system; and the steps that set up a new configuration.
use vstd::prelude::*;
use vstd::relations::sorted_by;

use crate::error::ErKind;
use crate::path::{Comp, SysPath};
use crate::text::{
    lemma_name_order_total, name_le, name_order, names_le, same_text, sort_names, views,
};

verus! {

broadcast use {vstd::multiset::group_multiset_axioms, vstd::seq_lib::group_to_multiset_ensures};

/// How a conflict between a file on the system and the stowed copy is
/// resolved.
#[derive(Clone, Copy, Debug, PartialEq, Eq, Structural)]
pub enum Resolver {
    /// Adopt the file on the system into the package.
    Adopt,
    /// Replace the file on the system with the one in the package.
    Replace,
}

impl Resolver {
    pub fn is_adopt(&self) -> (r: bool)
        ensures
            r == (*self == Resolver::Adopt),
    {
        *self == Resolver::Adopt
    }

    pub fn is_replace(&self) -> (r: bool)
        ensures
            r == (*self == Resolver::Replace),
    {
        *self == Resolver::Replace
    }
}

/// The configuration of the stower.
#[derive(Debug)]
pub struct Config {
    /// Where the packages are kept.
    pub path_source: SysPath,
    /// The root that packages are stowed against, usually `$HOME`.
    pub path_root: SysPath,
    /// How conflicts are resolved.
    pub resolver: Resolver,
    /// The packages that are on this system.
    pub packages: Vec<String>,
}

/// `name` occurs among the names `v`.
pub open spec fn has_name(v: Seq<String>, name: Seq<char>) -> bool {
    views(v).contains(name)
}

/// Whether `name` occurs among the names `v`.
pub fn contains_name(v: &Vec<String>, name: &str) -> (r: bool)
    ensures
        r == has_name(v@, name@),
{
    let mut i: usize = 0;
    while i < v.len()
        invariant
            i <= v@.len(),
            forall|k: int| 0 <= k < i ==> v@[k]@ != name@,
        decreases v.len() - i,
    {
        if same_text(v[i].as_str(), name) {
            assert(views(v@)[i as int] == name@);
            return true;
        }
        i = i + 1;
    }
    proof {
        if has_name(v@, name@) {
            let k = choose|k: int| 0 <= k < views(v@).len() && views(v@)[k] == name@;
            assert(v@[k]@ == name@);
        }
    }
    false
}

/// Finds `name` in `v` by binary search, as `binary_search` does: an
/// index that holds `name`, which is found whenever `v` is sorted and
/// holds it.
#[verifier::spinoff_prover]
pub fn search_name(v: &Vec<String>, name: &str) -> (r: Option<usize>)
    ensures
        r matches Some(i) ==> i < v@.len() && v@[i as int]@ == name@,
        sorted_by(views(v@), name_order()) && has_name(v@, name@) ==> r is Some,
{
    proof {
        lemma_name_order_total();
    }
    let ghost sorted = sorted_by(views(v@), name_order());
    let mut lo: usize = 0;
    let mut hi: usize = v.len();
    while lo < hi
        invariant
            lo <= hi <= v@.len(),
            sorted == sorted_by(views(v@), name_order()),
            vstd::relations::total_ordering(name_order()),
            sorted ==> forall|k: int| 0 <= k < lo ==> v@[k]@ != name@,
            sorted ==> forall|k: int| hi <= k < v@.len() ==> v@[k]@ != name@,
        decreases hi - lo,
    {
        let mid = lo + (hi - lo) / 2;
        if same_text(v[mid].as_str(), name) {
            return Some(mid);
        }
        if names_le(v[mid].as_str(), name) {
            proof {
                if sorted {
                    assert forall|k: int| 0 <= k <= mid implies v@[k]@ != name@ by {
                        if k < mid {
                            assert(name_order()(views(v@)[k], views(v@)[mid as int]));
                        }
                        if v@[k]@ == name@ && k < mid {
                            assert(name_order()(name@, v@[mid as int]@));
                            assert(name_order()(v@[mid as int]@, name@));
                        }
                    }
                }
            }
            lo = mid + 1;
        } else {
            proof {
                if sorted {
                    assert forall|k: int| mid <= k < v@.len() implies v@[k]@ != name@ by {
                        if k > mid {
                            assert(name_order()(views(v@)[mid as int], views(v@)[k]));
                        }
                    }
                }
            }
            hi = mid;
        }
    }
    proof {
        if sorted && has_name(v@, name@) {
            let k = choose|k: int| 0 <= k < views(v@).len() && views(v@)[k] == name@;
            assert(v@[k]@ == name@);
        }
    }
    None
}

impl Config {
    /// A configuration with the given directories, resolving conflicts by
    /// adoption and with no package on the system yet: what a new
    /// configuration starts as.
    pub fn from_dirs(path_source: SysPath, path_root: SysPath) -> (r: Config)
        ensures
            r.path_source@ == path_source@,
            r.path_root@ == path_root@,
            r.path_source.written() == path_source.written(),
            r.path_root.written() == path_root.written(),
            r.resolver == Resolver::Adopt,
            r.packages@.len() == 0,
    {
        Config { path_source, path_root, resolver: Resolver::Adopt, packages: Vec::new() }
    }

    /// Records `new` as packages on this system, keeping the list sorted.
    pub fn add_packages(&mut self, new: Vec<String>)
        ensures
            views(final(self).packages@) == (views(old(self).packages@) + views(new@)).sort_by(
                name_order(),
            ),
            final(self).path_source == old(self).path_source,
            final(self).path_root == old(self).path_root,
            final(self).resolver == old(self).resolver,
    {
        let mut new = new;
        let ghost before = self.packages@;
        let ghost added = new@;
        self.packages.append(&mut new);
        assert(views(self.packages@) =~= views(before) + views(added));
        sort_names(&mut self.packages);
    }

    /// Drops one occurrence of `name` from the packages on this system, as
    /// a binary search for it and `swap_remove` do; the order of the rest
    /// may change. The search finds `name` whenever the list is sorted and
    /// holds it; on a list out of order it may miss it, as
    /// `binary_search` may.
    #[verifier::spinoff_prover]
    pub fn forget_package(&mut self, name: &str)
        ensures
            final(self).packages@ == old(self).packages@ || (has_name(old(self).packages@, name@)
                && views(final(self).packages@).to_multiset() == views(
                old(self).packages@,
            ).to_multiset().remove(name@)),
            sorted_by(views(old(self).packages@), name_order()) && has_name(
                old(self).packages@,
                name@,
            ) ==> views(final(self).packages@).to_multiset() == views(
                old(self).packages@,
            ).to_multiset().remove(name@),
            !has_name(old(self).packages@, name@) ==> final(self).packages@ == old(self).packages@,
            final(self).path_source == old(self).path_source,
            final(self).path_root == old(self).path_root,
            final(self).resolver == old(self).resolver,
    {
        let ghost before = self.packages@;
        match search_name(&self.packages, name) {
            Some(i) => {
                proof {
                    assert(has_name(before, name@)) by {
                        assert(views(before)[i as int] == name@);
                    }
                }
                self.packages.swap_remove(i);
                proof {
                    let vb = views(before);
                    let m = vb.to_multiset();
                    let moved = vb.update(i as int, vb.last());
                    let fin = views(self.packages@);
                    assert(fin =~= moved.drop_last());
                    vstd::seq_lib::to_multiset_update(vb, i as int, vb.last());
                    assert(moved =~= fin.push(vb.last()));
                    vstd::seq_lib::to_multiset_build(fin, vb.last());
                    assert(m.count(name@) > 0) by {
                        assert(vb[i as int] == name@);
                        assert(vb.contains(name@));
                    }
                    assert(fin.to_multiset() =~= m.remove(name@)) by {
                        assert forall|x: Seq<char>| #[trigger] fin.to_multiset().count(x) == m.remove(
                            name@,
                        ).count(x) by {
                            assert(fin.to_multiset().insert(vb.last()).count(x) == m.insert(
                                vb.last(),
                            ).remove(name@).count(x));
                        }
                    }
                }
            },
            None => {},
        }
    }

    /// Sorts the packages on this system.
    pub fn sort_packages(&mut self)
        ensures
            views(final(self).packages@) == views(old(self).packages@).sort_by(name_order()),
            final(self).path_source == old(self).path_source,
            final(self).path_root == old(self).path_root,
            final(self).resolver == old(self).resolver,
    {
        sort_names(&mut self.packages);
    }
}

/// Recording packages keeps the list of packages on the system sorted,
/// and holds exactly the packages recorded before and the new ones.
pub proof fn law_recorded_packages_sorted(recorded: Seq<Seq<char>>, added: Seq<Seq<char>>)
    ensures
        sorted_by((recorded + added).sort_by(name_order()), name_order()),
        (recorded + added).sort_by(name_order()).to_multiset() == recorded.to_multiset().add(added.to_multiset()),
{
    lemma_name_order_total();
    (recorded + added).lemma_sort_by_ensures(name_order());
    vstd::seq_lib::lemma_multiset_commutative(recorded, added);
}

/// Forgetting a package recorded in a sorted list, then sorting, gives
/// the list without that package: whatever list the removal left, as long
/// as it holds the same names.
#[verifier::spinoff_prover]
pub proof fn law_forget_then_sort(v: Seq<Seq<char>>, name: Seq<char>, w: Seq<Seq<char>>)
    requires
        sorted_by(v, name_order()),
        v.contains(name),
        w.to_multiset() == v.to_multiset().remove(name),
    ensures
        w.sort_by(name_order()) == v.remove(v.index_of(name)),
{
    lemma_name_order_total();
    let i = v.index_of(name);
    let r = v.remove(i);
    assert(sorted_by(r, name_order())) by {
        assert forall|a: int, b: int| 0 <= a < b < r.len() implies #[trigger] name_order()(
            r[a],
            r[b],
        ) by {
            let a2 = if a < i { a } else { a + 1 };
            let b2 = if b < i { b } else { b + 1 };
            assert(r[a] == v[a2]);
            assert(r[b] == v[b2]);
        }
    }
    vstd::seq_lib::to_multiset_remove(v, i);
    w.lemma_sort_by_ensures(name_order());
    vstd::seq_lib::lemma_sorted_unique(w.sort_by(name_order()), r, name_order());
}

/// Where setting up the configuration stands.
pub enum Setup {
    /// Waiting for the configuration file to be read.
    Loading,
    /// Asked whether to create a new configuration.
    AskedCreate,
    /// Asked for the source and root directories.
    AskedDirs,
    /// Asked whether to save the new configuration.
    AskedSave(Config),
    /// Saving the new configuration.
    Saving(Config),
    /// Finished.
    Done,
}

/// What the outside world answered.
pub enum SetupEvent {
    /// The configuration file was read: the configuration it holds, or why
    /// there is none.
    Loaded(Result<Config, ErKind>),
    /// The user answered whether to create a new configuration.
    CreateAnswered(bool),
    /// The user entered the source and root directories.
    DirsEntered(SysPath, SysPath),
    /// The user answered whether to save the new configuration.
    SaveAnswered(bool),
    /// The configuration being saved was written, or failed to be.
    Saved(Result<(), ErKind>),
}

/// What to do next.
pub enum SetupAction {
    /// Warn of the error, then ask whether to create a new configuration
    /// (yes by default).
    WarnAndAskCreate(ErKind),
    /// Ask for the source and root directories.
    AskDirs,
    /// Ask whether to save the new configuration (yes by default).
    AskSave,
    /// Save the configuration that the `Saving` state holds.
    Save,
    /// Setting up is over, with this outcome.
    Finish(Result<Config, ErKind>),
}

/// The events that each state waits for.
pub open spec fn accepts(s: Setup, e: SetupEvent) -> bool {
    match s {
        Setup::Loading => e is Loaded,
        Setup::AskedCreate => e is CreateAnswered,
        Setup::AskedDirs => e is DirsEntered,
        Setup::AskedSave(_) => e is SaveAnswered,
        Setup::Saving(_) => e is Saved,
        Setup::Done => false,
    }
}

/// The reason given when the user declines to create a configuration.
pub open spec fn declined_reason() -> Seq<char> {
    "Create config file and run again.\nExit...!!"@
}

/// One step of setting up: the next state and action for a state and
/// the event it waited for.
pub open spec fn setup_step(s: Setup, e: SetupEvent, next: Setup, act: SetupAction) -> bool {
    match s {
        Setup::Loading => match e {
            SetupEvent::Loaded(Ok(c)) => next is Done && act == SetupAction::Finish(Ok(c)),
            SetupEvent::Loaded(Err(err)) => if err is NotFoundConfig {
                next is AskedCreate && act == SetupAction::WarnAndAskCreate(ErKind::NotFoundConfig)
            } else {
                next is Done && act == SetupAction::Finish(Err(err))
            },
            _ => false,
        },
        Setup::AskedCreate => match e {
            SetupEvent::CreateAnswered(yes) => if yes {
                next is AskedDirs && act is AskDirs
            } else {
                &&& next is Done
                &&& act matches SetupAction::Finish(Err(ErKind::UserAbort(Some(m))))
                &&& m@ == declined_reason()
            },
            _ => false,
        },
        Setup::AskedDirs => match e {
            SetupEvent::DirsEntered(source, root) => {
                &&& act is AskSave
                &&& next matches Setup::AskedSave(c)
                &&& c.path_source@ == source@
                &&& c.path_root@ == root@
                &&& c.path_source.written() == source.written()
                &&& c.path_root.written() == root.written()
                &&& c.resolver == Resolver::Adopt
                &&& c.packages@.len() == 0
            },
            _ => false,
        },
        Setup::AskedSave(c) => match e {
            SetupEvent::SaveAnswered(yes) => if yes {
                next == Setup::Saving(c) && act is Save
            } else {
                next is Done && act == SetupAction::Finish(Ok(c))
            },
            _ => false,
        },
        Setup::Saving(c) => match e {
            SetupEvent::Saved(Ok(_)) => next is Done && act == SetupAction::Finish(Ok(c)),
            SetupEvent::Saved(Err(err)) => next is Done && act == SetupAction::Finish(Err(err)),
            _ => false,
        },
        Setup::Done => false,
    }
}

impl Setup {
    /// Where setting up starts: reading the configuration file.
    pub fn start() -> (r: Setup)
        ensures
            r is Loading,
    {
        Setup::Loading
    }

    /// The next state and action for the event this state waited for.
    pub fn step(self, event: SetupEvent) -> (r: (Setup, SetupAction))
        requires
            accepts(self, event),
        ensures
            setup_step(self, event, r.0, r.1),
    {
        match self {
            Setup::Loading => match event {
                SetupEvent::Loaded(Ok(c)) => (Setup::Done, SetupAction::Finish(Ok(c))),
                SetupEvent::Loaded(Err(err)) => match err {
                    ErKind::NotFoundConfig => (
                        Setup::AskedCreate,
                        SetupAction::WarnAndAskCreate(ErKind::NotFoundConfig),
                    ),
                    _ => (Setup::Done, SetupAction::Finish(Err(err))),
                },
                _ => (Setup::Done, SetupAction::AskDirs),
            },
            Setup::AskedCreate => match event {
                SetupEvent::CreateAnswered(yes) => if yes {
                    (Setup::AskedDirs, SetupAction::AskDirs)
                } else {
                    let m = String::from_str("Create config file and run again.\nExit...!!");
                    (Setup::Done, SetupAction::Finish(Err(ErKind::UserAbort(Some(m)))))
                },
                _ => (Setup::Done, SetupAction::AskDirs),
            },
            Setup::AskedDirs => match event {
                SetupEvent::DirsEntered(source, root) => (
                    Setup::AskedSave(Config::from_dirs(source, root)),
                    SetupAction::AskSave,
                ),
                _ => (Setup::Done, SetupAction::AskDirs),
            },
            Setup::AskedSave(c) => match event {
                SetupEvent::SaveAnswered(yes) => if yes {
                    (Setup::Saving(c), SetupAction::Save)
                } else {
                    (Setup::Done, SetupAction::Finish(Ok(c)))
                },
                _ => (Setup::Done, SetupAction::AskDirs),
            },
            Setup::Saving(c) => match event {
                SetupEvent::Saved(Ok(_)) => (Setup::Done, SetupAction::Finish(Ok(c))),
                SetupEvent::Saved(Err(err)) => (Setup::Done, SetupAction::Finish(Err(err))),
                _ => (Setup::Done, SetupAction::AskDirs),
            },
            Setup::Done => (Setup::Done, SetupAction::AskDirs),
        }
    }
}

} // verus!
