//! The decisions of removing packages: which package, which of its files,
//! what to do with each file, and what the configuration records
//! afterwards.
use vstd::prelude::*;

use crate::config::Config;
use crate::error::ErKind;
use crate::fileio::{IoFailure, IoKind};
use crate::glob::{glob, glob_match};
use crate::packages::{dir_model, get_pkg_by_name, PackageMap, matching_names, package_map, pkg_names, Package};
use crate::path::{has_prefix, render, strip_prefix, SysPath};
use crate::text::{name_order, push_str, views};
use vstd::relations::sorted_by;

verus! {

/// The message when nothing is named for removal.
pub open spec fn nothing_to_remove() -> Seq<char> {
    "nothing to remove\nuse '--all' if you want to remove all packages"@
}

/// Which packages a removal is about: all of them (`None`), when asked
/// to; one of the packages that the name matches, all of which are taken
/// out of `src_pks`; or an error when nothing is named and all are not
/// asked for, or when the name matches nothing. Which of several matching
/// packages comes back follows the order in which the map is walked.
pub fn removal_target(
    usr_req_pk: Option<String>,
    is_remove_all: bool,
    src_pks: &mut PackageMap,
) -> (r: Result<Option<Package>, ErKind>)
    ensures
        match usr_req_pk {
            None => *final(src_pks) == *old(src_pks) && if is_remove_all {
                r matches Ok(None)
            } else {
                r matches Err(ErKind::Generic(m)) && m@ == nothing_to_remove()
            },
            Some(name) => {
                let found = matching_names(package_map(*old(src_pks)), name@);
                &&& package_map(*final(src_pks)) == package_map(*old(src_pks)).remove_keys(found)
                &&& if found.is_empty() {
                    r matches Err(ErKind::NotFoundPackage(n)) && n@ == name@
                } else {
                    &&& r matches Ok(Some(p))
                    &&& found.contains(p.name@)
                    &&& dir_model(p.path) == package_map(*old(src_pks))[p.name@]
                }
            },
        },
{
    match usr_req_pk {
        None => {
            if is_remove_all {
                Ok(None)
            } else {
                Err(
                    ErKind::Generic(
                        String::from_str(
                            "nothing to remove\nuse '--all' if you want to remove all packages",
                        ),
                    ),
                )
            }
        },
        Some(name) => match get_pkg_by_name(src_pks, name.as_str()) {
            None => Err(ErKind::NotFoundPackage(name)),
            Some(mut found) => {
                let ghost f = found@;
                let first = found.swap_remove(0);
                assert(first == f[0]);
                assert(pkg_names(f)[0] == first.name@);
                assert(pkg_names(f).to_set().contains(first.name@));
                Ok(Some(first))
            },
        },
    }
}

/// The number of `/` in front of `s`.
pub open spec fn leading_slashes(s: Seq<char>) -> int
    decreases s.len(),
{
    if s.len() > 0 && s[0] == '/' {
        1 + leading_slashes(s.drop_first())
    } else {
        0
    }
}

/// `s` without the `/` in front of it.
pub fn trim_leading_slashes(s: &str) -> (r: String)
    ensures
        r@ == s@.skip(leading_slashes(s@)),
{
    let n = s.unicode_len();
    let mut i: usize = 0;
    assert(s@.skip(0) =~= s@);
    while i < n && s.get_char(i) == '/'
        invariant
            n == s@.len(),
            i <= n,
            i + leading_slashes(s@.skip(i as int)) == leading_slashes(s@),
        decreases n - i,
    {
        assert(s@.skip(i as int).drop_first() =~= s@.skip(i + 1));
        i = i + 1;
    }
    String::from_str(s.substring_char(i, n))
}

/// How a file named for removal is taken.
pub enum FileRequest {
    /// It is a file of the package (or a link to one): this one.
    Stowed(SysPath),
    /// It is taken as a pattern for the package's files.
    Pattern(String),
    /// It is not valid.
    Invalid,
}

/// How a file named for removal is taken, from the path it resolved to
/// (if it did) and its text (if it has one): a path inside the package is
/// that file; else its text, without leading `/`, is a pattern.
pub fn file_request(resolved: Option<SysPath>, text: Option<String>, pk_path: &SysPath) -> (r: FileRequest)
    ensures
        match resolved {
            Some(f) if has_prefix(f@, pk_path@) => r matches FileRequest::Stowed(g) && g@ == f@ && g.written()
                == f.written(),
            _ => match text {
                Some(t) => r matches FileRequest::Pattern(p) && p@ == t@.skip(leading_slashes(t@)),
                None => r is Invalid,
            },
        },
{
    match resolved {
        Some(f) => {
            if f.strip_prefix(pk_path).is_some() {
                return FileRequest::Stowed(f);
            }
        },
        None => {},
    }
    match text {
        Some(t) => FileRequest::Pattern(trim_leading_slashes(t.as_str())),
        None => FileRequest::Invalid,
    }
}

/// The files of a package that a pattern picks: those whose place in the
/// package, as written, matches it.
pub open spec fn picked(files: Seq<SysPath>, pk_path: SysPath, pattern: Seq<char>) -> Seq<SysPath>
    decreases files.len(),
{
    if files.len() == 0 {
        files
    } else {
        let rest = picked(files.drop_last(), pk_path, pattern);
        let f = files.last();
        match strip_prefix(f@, pk_path@) {
            Some(rel) if glob(pattern, render(rel)) => rest.push(f),
            _ => rest,
        }
    }
}

/// The files of a package (listed in `files`) that a pattern picks.
pub fn pick_files(files: &Vec<SysPath>, pk_path: &SysPath, pattern: &str) -> (r: Vec<SysPath>)
    ensures
        r@.len() == picked(files@, *pk_path, pattern@).len(),
        forall|k: int|
            0 <= k < r@.len() ==> (#[trigger] r@[k])@ == picked(files@, *pk_path, pattern@)[k]@
                && r@[k].written() == picked(files@, *pk_path, pattern@)[k].written(),
{
    let mut r: Vec<SysPath> = Vec::new();
    let mut i: usize = 0;
    assert(files@.take(0) =~= Seq::<SysPath>::empty());
    while i < files.len()
        invariant
            i <= files@.len(),
            r@.len() == picked(files@.take(i as int), *pk_path, pattern@).len(),
            forall|k: int|
                0 <= k < r@.len() ==> (#[trigger] r@[k])@ == picked(files@.take(i as int), *pk_path, pattern@)[k]@
                    && r@[k].written() == picked(files@.take(i as int), *pk_path, pattern@)[k].written(),
        decreases files.len() - i,
    {
        assert(files@.take(i + 1).drop_last() =~= files@.take(i as int));
        assert(files@.take(i + 1).last() == files@[i as int]);
        match files[i].strip_prefix(pk_path) {
            Some(rel) => {
                let written = rel.render();
                if glob_match(pattern, written.as_str()) {
                    r.push(files[i].duplicate());
                }
            },
            None => {},
        }
        i = i + 1;
    }
    assert(files@.take(files@.len() as int) =~= files@);
    r
}

/// The files of a package that a pattern picks; when it picks none, no
/// file of the package (written as its directory is) matches the pattern.
pub fn pattern_files(files: &Vec<SysPath>, pk_path: &SysPath, pattern: &str) -> (r: Result<
    Vec<SysPath>,
    ErKind,
>)
    ensures
        match r {
            Ok(v) => {
                &&& v@.len() > 0
                &&& v@.len() == picked(files@, *pk_path, pattern@).len()
                &&& forall|k: int|
                    0 <= k < v@.len() ==> (#[trigger] v@[k])@ == picked(files@, *pk_path, pattern@)[k]@
                        && v@[k].written() == picked(files@, *pk_path, pattern@)[k].written()
            },
            Err(e) => {
                &&& picked(files@, *pk_path, pattern@).len() == 0
                &&& e matches ErKind::NotFoundFile(pk, pat)
                &&& pk@ == pk_path.written()
                &&& pat@ == pattern@
            },
        },
{
    let found = pick_files(files, pk_path, pattern);
    if found.len() == 0 {
        Err(ErKind::NotFoundFile(pk_path.text(), String::from_str(pattern)))
    } else {
        Ok(found)
    }
}

/// What to do with one file of the package.
#[derive(Debug, PartialEq, Eq, Structural)]
pub enum RemoveStep {
    /// Delete the stowed file, then the file on the system.
    PurgeBoth,
    /// Move the stowed file back over its link on the system.
    Restore,
    /// Delete the stowed file only: the system does not link to it.
    DropStowed,
}

/// What to do with one file: delete everything when purging; else put
/// the stowed file back where the system links to it, or delete it when
/// the system does not link to it.
pub fn remove_step(purge: bool, is_same: bool) -> (r: RemoveStep)
    ensures
        r == if purge {
            RemoveStep::PurgeBoth
        } else if is_same {
            RemoveStep::Restore
        } else {
            RemoveStep::DropStowed
        },
{
    if purge {
        RemoveStep::PurgeBoth
    } else if is_same {
        RemoveStep::Restore
    } else {
        RemoveStep::DropStowed
    }
}

/// What a failed step on a file means: nothing when the file was not
/// there; else an error on the stowed file that says whether removing
/// or restoring failed.
pub fn removal_failure(f_stowed: &SysPath, purge: bool, failure: Option<IoFailure>) -> (r: Option<ErKind>)
    ensures
        match failure {
            None => r is None,
            Some(f) => if f.kind == IoKind::NotFound {
                r is None
            } else {
                &&& r matches Some(ErKind::IOFailWrite(p, m))
                &&& p@ == f_stowed@
                &&& p.written() == f_stowed.written()
                &&& m@ == (if purge { "remove"@ } else { "restore"@ }) + " file: "@ + f.message@
            },
        },
{
    match failure {
        None => None,
        Some(f) => {
            if f.kind == IoKind::NotFound {
                None
            } else {
                let mut m = if purge {
                    String::from_str("remove")
                } else {
                    String::from_str("restore")
                };
                push_str(&mut m, " file: ");
                push_str(&mut m, f.message.as_str());
                Some(ErKind::IOFailWrite(f_stowed.duplicate(), m))
            }
        },
    }
}

/// Records how removing the package `pkg` went: a package that still
/// holds files stays recorded quietly; a failure stays recorded and is
/// returned for reporting; a removed package is forgotten (as
/// `Config::forget_package` does).
pub fn settle_removal(cfg: &mut Config, pkg: &str, result: Result<(), ErKind>) -> (r: Option<ErKind>)
    ensures
        match result {
            Ok(_) => r is None && (final(cfg).packages@ == old(cfg).packages@ || (
            crate::config::has_name(old(cfg).packages@, pkg@) && views(final(cfg).packages@).to_multiset()
                == views(old(cfg).packages@).to_multiset().remove(pkg@))) && (vstd::relations::sorted_by(
                views(old(cfg).packages@),
                crate::text::name_order(),
            ) && crate::config::has_name(old(cfg).packages@, pkg@) ==> views(final(cfg).packages@).to_multiset()
                == views(old(cfg).packages@).to_multiset().remove(pkg@)),
            Err(e) => final(cfg).packages@ == old(cfg).packages@ && if e is PackageNotEmpty {
                r is None
            } else {
                r == Some(e)
            },
        },
        final(cfg).path_source == old(cfg).path_source,
        final(cfg).path_root == old(cfg).path_root,
        final(cfg).resolver == old(cfg).resolver,
{
    match result {
        Ok(_) => {
            cfg.forget_package(pkg);
            None
        },
        Err(e) => match e {
            ErKind::PackageNotEmpty => None,
            _ => Some(e),
        },
    }
}

/// The files picked for removal, unless there are none: then there is no
/// valid file to remove.
pub fn removable_files(files: Vec<SysPath>) -> (r: Result<Vec<SysPath>, ErKind>)
    ensures
        files@.len() == 0 ==> r matches Err(ErKind::NoValidPackage(None)),
        files@.len() > 0 ==> (r matches Ok(v) && v@ == files@),
{
    if files.len() == 0 {
        Err(ErKind::NoValidPackage(None))
    } else {
        Ok(files)
    }
}

/// The errors that removals report, in order: every failure but that of
/// a package that still holds files.
pub open spec fn reported(results: Seq<(String, Result<(), ErKind>)>) -> Seq<ErKind>
    decreases results.len(),
{
    if results.len() == 0 {
        Seq::empty()
    } else {
        let rest = reported(results.drop_last());
        match results.last().1 {
            Err(e) => if e is PackageNotEmpty {
                rest
            } else {
                rest.push(e)
            },
            Ok(_) => rest,
        }
    }
}

/// Some removal of the package `name` among `results` succeeded.
pub open spec fn removed(results: Seq<(String, Result<(), ErKind>)>, name: Seq<char>) -> bool {
    exists|i: int| 0 <= i < results.len() && (#[trigger] results[i]).0@ == name && results[i].1 is Ok
}

/// One step of settling a removal on the recorded names: a failure leaves
/// them; a success drops one record of the name when the list is sorted
/// and records it, and otherwise either drops one record of the name or
/// leaves the list, as a binary search on it finds the name or not.
pub open spec fn settle_step(
    res: (String, Result<(), ErKind>),
    before: Seq<Seq<char>>,
    after: Seq<Seq<char>>,
) -> bool {
    let name = res.0@;
    match res.1 {
        Err(_) => after == before,
        Ok(_) => {
            &&& (after == before || (before.contains(name) && after.to_multiset()
                == before.to_multiset().remove(name)))
            &&& (sorted_by(before, name_order()) && before.contains(name) ==> after.to_multiset()
                == before.to_multiset().remove(name))
        },
    }
}

/// The recorded names go through `states`, one step for each removal.
pub open spec fn settled_through(
    results: Seq<(String, Result<(), ErKind>)>,
    states: Seq<Seq<Seq<char>>>,
) -> bool {
    &&& states.len() == results.len() + 1
    &&& forall|i: int|
        0 <= i < results.len() ==> settle_step(#[trigger] results[i], states[i], states[i + 1])
}

/// What removing packages leaves, from how removing each went, in order:
/// nothing when nothing was removed; else the configuration with the
/// removed packages forgotten (as `settle_removal` does, one after the
/// other) and the list sorted; and the errors to report.
#[verifier::spinoff_prover]
pub fn finish_removal(cfg: Config, results: Vec<(String, Result<(), ErKind>)>) -> (r: (
    Option<Config>,
    Vec<ErKind>,
))
    ensures
        r.1@ == reported(results@),
        results@.len() == 0 ==> r.0 is None,
        results@.len() > 0 ==> {
            &&& r.0 matches Some(c)
            &&& sorted_by(views(c.packages@), name_order())
            &&& views(c.packages@).to_multiset().subset_of(views(cfg.packages@).to_multiset())
            &&& forall|x: Seq<char>|
                !removed(results@, x) ==> #[trigger] views(c.packages@).to_multiset().count(x)
                    == views(cfg.packages@).to_multiset().count(x)
            &&& exists|states: Seq<Seq<Seq<char>>>|
                {
                    &&& #[trigger] settled_through(results@, states)
                    &&& states[0] == views(cfg.packages@)
                    &&& views(c.packages@) == states.last().sort_by(name_order())
                }
            &&& c.path_source == cfg.path_source
            &&& c.path_root == cfg.path_root
            &&& c.resolver == cfg.resolver
        },
        results@.len() == 1 && results@[0].1 is Ok && sorted_by(views(cfg.packages@), name_order())
            && views(cfg.packages@).contains(results@[0].0@) ==> (r.0 matches Some(c) && views(
            c.packages@,
        ) == views(cfg.packages@).remove(views(cfg.packages@).index_of(results@[0].0@))),
{
    broadcast use {vstd::multiset::group_multiset_axioms, vstd::seq_lib::group_to_multiset_ensures};

    let ghost all = results@;
    let ghost orig = views(cfg.packages@).to_multiset();
    let n = results.len();
    let mut cfg = cfg;
    let ghost start = cfg;
    let ghost mut states: Seq<Seq<Seq<char>>> = seq![views(cfg.packages@)];
    let mut rest = results;
    let mut errs: Vec<ErKind> = Vec::new();
    let mut i: usize = 0;
    assert(all.take(0) =~= Seq::<(String, Result<(), ErKind>)>::empty());
    assert(all.skip(0) =~= all);
    while i < n
        invariant
            n == all.len(),
            i <= n,
            rest@ == all.skip(i as int),
            errs@ == reported(all.take(i as int)),
            views(cfg.packages@).to_multiset().subset_of(orig),
            forall|x: Seq<char>|
                !removed(all.take(i as int), x) ==> #[trigger] views(cfg.packages@).to_multiset().count(x)
                    == orig.count(x),
            cfg.path_source == start.path_source,
            cfg.path_root == start.path_root,
            cfg.resolver == start.resolver,
            states.len() == i + 1,
            states[0] == views(start.packages@),
            states.last() == views(cfg.packages@),
            forall|j: int| 0 <= j < i ==> settle_step(#[trigger] all[j], states[j], states[j + 1]),
        decreases n - i,
    {
        let ghost before = views(cfg.packages@).to_multiset();
        let ghost before_v = views(cfg.packages@);
        let ghost done = all.take(i as int);
        let ghost next = all.take(i + 1);
        assert(next.drop_last() =~= done);
        assert(rest@[0] == all[i as int]);
        let (name, result) = rest.remove(0);
        assert(rest@ =~= all.skip(i + 1));
        assert(next.last() == all[i as int]);
        let ok = result.is_ok();
        let ghost res = result;
        assert(name == all[i as int].0 && res == all[i as int].1);
        match settle_removal(&mut cfg, name.as_str(), result) {
            Some(e) => {
                errs.push(e);
            },
            None => {},
        }
        proof {
            let after_v = views(cfg.packages@);
            assert(settle_step(all[i as int], before_v, after_v));
            let prev = states;
            states = states.push(after_v);
            assert forall|j: int| 0 <= j < i + 1 implies settle_step(
                #[trigger] all[j],
                states[j],
                states[j + 1],
            ) by {
                if j < i {
                    assert(states[j] == prev[j] && states[j + 1] == prev[j + 1]);
                }
            }
            let after = views(cfg.packages@).to_multiset();
            assert(errs@ =~= reported(next));
            if ok {
                assert(after.subset_of(before));
            }
            assert forall|x: Seq<char>| !removed(next, x) implies #[trigger] after.count(x)
                == orig.count(x) by {
                assert(!removed(done, x)) by {
                    if removed(done, x) {
                        let j = choose|j: int| 0 <= j < done.len() && (#[trigger] done[j]).0@ == x
                            && done[j].1 is Ok;
                        assert(next[j] == done[j]);
                    }
                }
                if ok && x == name@ {
                    assert(next[i as int].0@ == x);
                }
            }
        }
        i = i + 1;
    }
    assert(all.take(n as int) =~= all);
    if n == 0 {
        (None, errs)
    } else {
        let ghost unsorted = views(cfg.packages@);
        cfg.sort_packages();
        proof {
            crate::text::lemma_name_order_total();
            unsorted.lemma_sort_by_ensures(name_order());
            assert(settled_through(all, states));
            if n == 1 && all[0].1 is Ok && sorted_by(states[0], name_order()) && states[0].contains(
                all[0].0@,
            ) {
                assert(settle_step(all[0], states[0], states[1]));
                crate::config::law_forget_then_sort(states[0], all[0].0@, states[1]);
            }
        }
        (Some(cfg), errs)
    }
}

} // verus!
