//! The decisions of syncing packages with the system: which packages to
//! sync, what to do with each of their files, and what the configuration
//! records afterwards.
use vstd::prelude::*;

use crate::config::{contains_name, has_name, Config, Resolver};
use crate::error::ErKind;
use crate::glob::{glob, is_plain, law_plain_pattern_matches_itself};
use crate::packages::{dir_model, DirModel, get_pkg_by_name, PackageMap, matching_names, package_map, packages_of, pkg_names, Package};
use crate::path::{Comp, SysPath};
use crate::text::{copy_names, name_order, views};

verus! {

/// The packages that a sync asks for: those the user named, or else those
/// on this system; with none named and none on this system there is
/// nothing to sync, and the source's packages are to be listed.
pub fn requested_packages(usr_req: &Option<Vec<String>>, sys_pks: &Vec<String>, source: &SysPath) -> (r:
    Result<Vec<String>, ErKind>)
    ensures
        match usr_req {
            Some(p) => r matches Ok(v) && views(v@) == views(p@),
            None => if sys_pks@.len() == 0 {
                r matches Err(ErKind::SysEmpty(Some(s))) && s@ == source@ && s.written()
                    == source.written()
            } else {
                r matches Ok(v) && views(v@) == views(sys_pks@)
            },
        },
{
    match usr_req {
        Some(p) => Ok(copy_names(p)),
        None => {
            if sys_pks.len() == 0 {
                Err(ErKind::SysEmpty(Some(source.duplicate())))
            } else {
                Ok(copy_names(sys_pks))
            }
        },
    }
}

/// The index of the first request that matches `name`; the number of
/// requests when none does.
pub open spec fn first_request(req: Seq<Seq<char>>, name: Seq<char>) -> int
    decreases req.len(),
{
    if req.len() == 0 {
        0
    } else if glob(req[0], name) {
        0
    } else {
        1 + first_request(req.drop_first(), name)
    }
}

/// The names of the packages of `m` that some request matches.
pub open spec fn requested_names(m: Map<Seq<char>, DirModel>, req: Seq<Seq<char>>) -> Set<Seq<char>> {
    m.dom().filter(|k: Seq<char>| exists|j: int| 0 <= j < req.len() && #[trigger] glob(req[j], k))
}

proof fn lemma_first_request(req: Seq<Seq<char>>, name: Seq<char>)
    ensures
        0 <= first_request(req, name) <= req.len(),
        first_request(req, name) < req.len() ==> glob(req[first_request(req, name)], name),
        forall|j: int| 0 <= j < first_request(req, name) ==> !#[trigger] glob(req[j], name),
    decreases req.len(),
{
    if req.len() > 0 && !glob(req[0], name) {
        let rest = req.drop_first();
        lemma_first_request(rest, name);
        assert forall|j: int| 0 <= j < first_request(req, name) implies !#[trigger] glob(req[j], name) by {
            if j > 0 {
                assert(req[j] == rest[j - 1]);
            }
        }
    }
}

/// Asking for `*` picks every package of the source and leaves none:
/// `sync '*'` syncs everything in the source.
pub proof fn law_star_picks_all(pkgs: Map<Seq<char>, DirModel>)
    ensures
        requested_names(pkgs, seq![seq!['*']]) == pkgs.dom(),
        pkgs.remove_keys(requested_names(pkgs, seq![seq!['*']])) == Map::<Seq<char>, DirModel>::empty(),
{
    let req = seq![seq!['*']];
    assert(requested_names(pkgs, req) =~= pkgs.dom()) by {
        assert forall|k: Seq<char>| pkgs.dom().contains(k) implies requested_names(pkgs, req).contains(k) by {
            crate::glob::law_star_matches_all(k);
            assert(glob(req[0], k));
        }
    }
    assert(pkgs.remove_keys(pkgs.dom()) =~= Map::<Seq<char>, DirModel>::empty());
}

/// Asking for packages by plain names (with no `*`, `?` or `[`) picks
/// exactly the packages of the source that have those names.
pub proof fn law_plain_names_pick_themselves(pkgs: Map<Seq<char>, DirModel>, req: Seq<Seq<char>>)
    requires
        forall|j: int| 0 <= j < req.len() ==> is_plain(#[trigger] req[j]),
    ensures
        requested_names(pkgs, req) == pkgs.dom().filter(|k: Seq<char>| req.contains(k)),
{
    assert(requested_names(pkgs, req) =~= pkgs.dom().filter(|k: Seq<char>| req.contains(k))) by {
        assert forall|k: Seq<char>| pkgs.dom().contains(k) implies (requested_names(pkgs, req).contains(k)
            <==> req.contains(k)) by {
            if requested_names(pkgs, req).contains(k) {
                let j = choose|j: int| 0 <= j < req.len() && #[trigger] glob(req[j], k);
                law_plain_pattern_matches_itself(req[j], k);
            }
            if req.contains(k) {
                let j = choose|j: int| 0 <= j < req.len() && req[j] == k;
                law_plain_pattern_matches_itself(req[j], k);
                assert(glob(req[j], k));
            }
        }
    }
}

/// Takes from the source's packages those that the requests name (or
/// match): each once, those of an earlier request first; when none is
/// valid, there is nothing to run and the source's packages are to be
/// listed.
#[verifier::spinoff_prover]
#[verifier::rlimit(30)]
pub fn select_packages(src_pks: &mut PackageMap, req: &Vec<String>, source: &SysPath) -> (r:
    Result<Vec<Package>, ErKind>)
    ensures
        package_map(*final(src_pks)) == package_map(*old(src_pks)).remove_keys(
            requested_names(package_map(*old(src_pks)), views(req@)),
        ),
        match r {
            Ok(v) => {
                &&& v@.len() > 0
                &&& packages_of(
                    v@,
                    package_map(*old(src_pks)),
                    requested_names(package_map(*old(src_pks)), views(req@)),
                )
                &&& forall|a: int, b: int|
                    #![trigger v@[a], v@[b]]
                    0 <= a <= b < v@.len() ==> first_request(views(req@), v@[a].name@)
                        <= first_request(views(req@), v@[b].name@)
            },
            Err(e) => {
                &&& requested_names(package_map(*old(src_pks)), views(req@)).is_empty()
                &&& e matches ErKind::NoValidPackage(Some(s))
                &&& s@ == source@
                &&& s.written() == source.written()
            },
        },
{
    let ghost all = package_map(*src_pks);
    let ghost rq = views(req@);
    let mut chosen: Vec<Package> = Vec::new();
    let mut i: usize = 0;
    assert(requested_names(all, rq.take(0)) =~= Set::<Seq<char>>::empty());
    assert(pkg_names(chosen@).to_set() =~= Set::<Seq<char>>::empty());
    assert(all.remove_keys(Set::empty()) =~= all);
    while i < req.len()
        invariant
            i <= req@.len(),
            rq == views(req@),
            package_map(*src_pks) == all.remove_keys(pkg_names(chosen@).to_set()),
            packages_of(chosen@, all, requested_names(all, rq.take(i as int))),
            forall|a: int| 0 <= a < chosen@.len() ==> first_request(rq, (#[trigger] chosen@[a]).name@) < i,
            forall|a: int, b: int|
                #![trigger chosen@[a], chosen@[b]]
                0 <= a <= b < chosen@.len() ==> first_request(rq, chosen@[a].name@) <= first_request(
                    rq,
                    chosen@[b].name@,
                ),
        decreases req.len() - i,
    {
        let ghost cur = package_map(*src_pks);
        let ghost before = chosen@;
        let ghost cn = pkg_names(before);
        let ghost pat = rq[i as int];
        assert(req@[i as int]@ == pat);
        let taken = get_pkg_by_name(src_pks, req[i].as_str());
        let ghost found = matching_names(cur, pat);
        assert forall|k: Seq<char>| #[trigger] found.contains(k) implies {
            &&& all.contains_key(k)
            &&& !cn.to_set().contains(k)
            &&& first_request(rq, k) == i
        } by {
            lemma_first_request(rq, k);
            if first_request(rq, k) < i {
                let f = first_request(rq, k);
                assert(rq.take(i as int)[f] == rq[f]);
                assert(requested_names(all, rq.take(i as int)).contains(k));
            }
        }
        match taken {
            Some(mut more) => {
                let ghost extra = more@;
                chosen.append(&mut more);
                let ghost en = pkg_names(extra);
                assert(pkg_names(chosen@) =~= cn + en);
                assert forall|a: int| 0 <= a < extra.len() implies found.contains(
                    (#[trigger] extra[a]).name@,
                ) by {
                    assert(en[a] == extra[a].name@);
                    assert(en.to_set().contains(en[a]));
                }
                assert forall|a: int, b: int|
                    0 <= a < b < pkg_names(chosen@).len() implies pkg_names(chosen@)[a] != pkg_names(
                        chosen@,
                    )[b] by {
                    if a < cn.len() && b >= cn.len() {
                        assert(chosen@[b] == extra[b - cn.len()]);
                        assert(cn.to_set().contains(cn[a]));
                    } else if a >= cn.len() {
                        assert(en[a - cn.len()] != en[b - cn.len()]);
                    }
                }
                let ghost wanted = requested_names(all, rq.take(i + 1));
                assert(pkg_names(chosen@).to_set() =~= wanted) by {
                    assert forall|k: Seq<char>| #[trigger] wanted.contains(k) implies pkg_names(
                        chosen@,
                    ).to_set().contains(k) by {
                        let j = choose|j: int| 0 <= j < i + 1 && #[trigger] glob(rq.take(i + 1)[j], k);
                        if j < i {
                            assert(rq.take(i as int)[j] == rq.take(i + 1)[j]);
                            assert(requested_names(all, rq.take(i as int)).contains(k));
                            let t = choose|t: int| 0 <= t < cn.len() && cn[t] == k;
                            assert(pkg_names(chosen@)[t] == k);
                        } else {
                            if cn.to_set().contains(k) {
                                let t = choose|t: int| 0 <= t < cn.len() && cn[t] == k;
                                assert(pkg_names(chosen@)[t] == k);
                            } else {
                                assert(found.contains(k));
                                assert(en.to_set().contains(k));
                                let t = choose|t: int| 0 <= t < en.len() && en[t] == k;
                                assert(pkg_names(chosen@)[cn.len() + t] == k);
                            }
                        }
                    }
                    assert forall|k: Seq<char>| #[trigger] pkg_names(chosen@).to_set().contains(k) implies wanted.contains(k) by {
                        let t = choose|t: int| 0 <= t < pkg_names(chosen@).len() && pkg_names(chosen@)[t] == k;
                        if t < cn.len() {
                            assert(cn.to_set().contains(k));
                            assert(requested_names(all, rq.take(i as int)).contains(k));
                            let j = choose|j: int| 0 <= j < i && #[trigger] glob(rq.take(i as int)[j], k);
                            assert(rq.take(i + 1)[j] == rq.take(i as int)[j]);
                        } else {
                            assert(extra[t - cn.len()].name@ == k);
                            assert(found.contains(k));
                            assert(rq.take(i + 1)[i as int] == pat);
                        }
                    }
                }
                proof {
                    vstd::seq_lib::seq_to_set_distributes_over_add(cn, en);
                }
                assert(package_map(*src_pks) =~= all.remove_keys(pkg_names(chosen@).to_set()));
                assert forall|a: int| 0 <= a < chosen@.len() implies {
                    &&& all.contains_key((#[trigger] chosen@[a]).name@)
                    &&& dir_model(chosen@[a].path) == all[chosen@[a].name@]
                    &&& first_request(rq, chosen@[a].name@) <= i
                } by {
                    if a >= before.len() {
                        assert(chosen@[a] == extra[a - before.len()]);
                    }
                }
            },
            None => {
                assert(found =~= Set::<Seq<char>>::empty());
                assert(cur.remove_keys(found) =~= cur);
                let ghost wanted = requested_names(all, rq.take(i + 1));
                assert(cn.to_set() =~= wanted) by {
                    assert forall|k: Seq<char>| #[trigger] wanted.contains(k) implies cn.to_set().contains(k) by {
                        let j = choose|j: int| 0 <= j < i + 1 && #[trigger] glob(rq.take(i + 1)[j], k);
                        if j < i {
                            assert(rq.take(i as int)[j] == rq.take(i + 1)[j]);
                            assert(requested_names(all, rq.take(i as int)).contains(k));
                        } else if !cn.to_set().contains(k) {
                            assert(cur.contains_key(k));
                            assert(found.contains(k));
                        }
                    }
                    assert forall|k: Seq<char>| #[trigger] cn.to_set().contains(k) implies wanted.contains(k) by {
                        assert(requested_names(all, rq.take(i as int)).contains(k));
                        let j = choose|j: int| 0 <= j < i && #[trigger] glob(rq.take(i as int)[j], k);
                        assert(rq.take(i + 1)[j] == rq.take(i as int)[j]);
                    }
                }
            },
        }
        i = i + 1;
    }
    assert(rq.take(req@.len() as int) =~= rq);
    if chosen.len() == 0 {
        assert(pkg_names(chosen@).to_set() =~= Set::<Seq<char>>::empty());
        Err(ErKind::NoValidPackage(Some(source.duplicate())))
    } else {
        Ok(chosen)
    }
}

/// What to do with one file of a package.
#[derive(Debug, PartialEq, Eq, Structural)]
pub enum SyncAction {
    /// Only report whether the file is in sync.
    Report(bool),
    /// Leave the file: it is already linked.
    Skip,
    /// Delete the file on the system, then link it to the stowed one.
    Replace,
    /// Move the file on the system over the stowed one, then link it.
    Adopt,
}

/// What to do with one file of a package: report only when checking
/// differences; nothing when the system's file is already the stowed one;
/// else replace it when forced or when the resolver says so, or adopt it.
pub open spec fn sync_action_of(is_same: bool, diff_only: bool, force: bool, resolver: Resolver) -> SyncAction {
    if diff_only {
        SyncAction::Report(is_same)
    } else if is_same {
        SyncAction::Skip
    } else if force || resolver == Resolver::Replace {
        SyncAction::Replace
    } else {
        SyncAction::Adopt
    }
}

/// A file on the system that already is the stowed one is left alone by
/// a sync, forced or not and whatever the resolver: a link is never moved
/// over the file that it points to.
pub proof fn law_linked_file_left_alone(force: bool, resolver: Resolver)
    ensures
        sync_action_of(true, false, force, resolver) == SyncAction::Skip,
{
}

/// Checking differences only reports, for each file, whether the system's
/// file is the stowed one; forcing and the resolver change nothing then.
pub proof fn law_status_reports_link(is_same: bool, force: bool, resolver: Resolver)
    ensures
        sync_action_of(is_same, true, force, resolver) == SyncAction::Report(is_same),
{
}

/// A sync touches a file of the system only when it is not already the
/// stowed one and not only checking differences; it replaces it rather
/// than adopting it exactly when forced or when the resolver replaces.
pub proof fn law_sync_changes_only_unlinked(is_same: bool, diff_only: bool, force: bool, resolver: Resolver)
    ensures
        sync_action_of(is_same, diff_only, force, resolver) is Replace || sync_action_of(
            is_same,
            diff_only,
            force,
            resolver,
        ) is Adopt ==> !is_same && !diff_only,
        !is_same && !diff_only ==> (sync_action_of(is_same, diff_only, force, resolver) is Replace
            <==> (force || resolver == Resolver::Replace)),
{
}

/// What to do with one file of a package.
pub fn sync_action(is_same: bool, diff_only: bool, force: bool, resolver: Resolver) -> (r: SyncAction)
    ensures
        r == sync_action_of(is_same, diff_only, force, resolver),
{
    if diff_only {
        SyncAction::Report(is_same)
    } else if is_same {
        SyncAction::Skip
    } else if force || resolver.is_replace() {
        SyncAction::Replace
    } else {
        SyncAction::Adopt
    }
}

/// The tally of a sync: how many packages synced, and which newly named
/// packages to record.
pub struct SyncTally {
    pub success: usize,
    pub new_pks: Vec<String>,
}

impl SyncTally {
    pub fn new() -> (r: SyncTally)
        ensures
            r.success == 0,
            r.new_pks@.len() == 0,
    {
        SyncTally { success: 0, new_pks: Vec::new() }
    }

    /// Records how syncing the package `name` went: a package that synced
    /// (not when only checking differences) counts, and one the user
    /// named that is not yet on this system is to be recorded.
    pub fn record(&mut self, name: String, synced: bool, diff_only: bool, user_named: bool, sys_pks: &Vec<String>)
        requires
            old(self).success < usize::MAX,
        ensures
            if synced && !diff_only {
                &&& final(self).success == old(self).success + 1
                &&& views(final(self).new_pks@) == if user_named && !has_name(sys_pks@, name@) {
                    views(old(self).new_pks@).push(name@)
                } else {
                    views(old(self).new_pks@)
                }
            } else {
                &&& final(self).success == old(self).success
                &&& final(self).new_pks@ == old(self).new_pks@
            },
    {
        if synced && !diff_only {
            if user_named && !contains_name(sys_pks, name.as_str()) {
                let ghost before = self.new_pks@;
                let ghost nv = name@;
                self.new_pks.push(name);
                assert(views(self.new_pks@) =~= views(before).push(nv));
            }
            self.success = self.success + 1;
        }
    }

    /// How many packages the summary says were requested: as many as
    /// asked for, or as were picked if more.
    pub fn requested_count(num_req: usize, num_selected: usize) -> (r: usize)
        ensures
            r == if num_req >= num_selected { num_req } else { num_selected },
    {
        if num_req >= num_selected { num_req } else { num_selected }
    }
}

/// The configuration to save after a sync: none when only checking
/// differences or when no new package was synced; else the configuration
/// with the new packages recorded, sorted.
pub fn finish_sync(cfg: Config, tally: SyncTally, diff_only: bool) -> (r: Option<Config>)
    ensures
        diff_only || tally.new_pks@.len() == 0 ==> r is None,
        !diff_only && tally.new_pks@.len() > 0 ==> {
            &&& r matches Some(c)
            &&& views(c.packages@) == (views(cfg.packages@) + views(tally.new_pks@)).sort_by(
                name_order(),
            )
            &&& c.path_source == cfg.path_source
            &&& c.path_root == cfg.path_root
            &&& c.resolver == cfg.resolver
        },
{
    if diff_only || tally.new_pks.len() == 0 {
        None
    } else {
        let mut cfg = cfg;
        cfg.add_packages(tally.new_pks);
        Some(cfg)
    }
}

} // verus!
