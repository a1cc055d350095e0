//! The layout of package listings.
use vstd::prelude::*;

use crate::error::ErKind;
use crate::packages::{dir_model, find_package, package_map, PackageMap};
use crate::path::{file_name, SysPath};
use crate::text::{name_order, sort_names, views};

verus! {

/// The label of an entry of a package's tree: its file name.
pub fn label(p: &SysPath) -> (r: String)
    requires
        file_name(p@) is Some,
    ensures
        file_name(p@) == Some(r@),
{
    p.file_name().unwrap()
}

/// Whether the entry at index `i` of `total` ends a row: rows hold four
/// names, and the last name ends the last row.
pub open spec fn ends_row(i: int, total: int) -> bool {
    (i + 1) % 4 == 0 || i == total - 1
}

/// The names of the packages in order, each with whether it ends a row
/// of the listing.
pub fn name_grid(names: Vec<String>) -> (r: Vec<(String, bool)>)
    ensures
        r@.len() == names@.len(),
        forall|i: int|
            0 <= i < r@.len() ==> (#[trigger] r@[i]).0@ == views(names@).sort_by(name_order())[i]
                && r@[i].1 == ends_row(i, r@.len() as int),
{
    let ghost orig = views(names@);
    let mut names = names;
    sort_names(&mut names);
    proof {
        crate::text::lemma_name_order_total();
        orig.lemma_sort_by_ensures(name_order());
        vstd::seq_lib::to_multiset_len(orig);
        vstd::seq_lib::to_multiset_len(orig.sort_by(name_order()));
    }
    let ghost sorted = views(names@);
    let total = names.len();
    let mut r: Vec<(String, bool)> = Vec::new();
    let mut i: usize = 0;
    while i < total
        invariant
            total == names@.len(),
            sorted == views(names@),
            i <= total,
            r@.len() == i,
            forall|k: int|
                0 <= k < i ==> (#[trigger] r@[k]).0@ == sorted[k] && r@[k].1 == ends_row(k, total as int),
        decreases total - i,
    {
        let last = (i + 1) % 4 == 0 || i == total - 1;
        r.push((names[i].clone(), last));
        i = i + 1;
    }
    proof {
        assert(sorted.len() == names@.len());
    }
    r
}

/// What a listing shows.
pub enum ListPlan {
    /// The tree of files of one package, in this directory.
    Tree(SysPath),
    /// The packages of the source (every file of each when the flag is
    /// set), then the error to fail with, if any.
    All(bool, Option<ErKind>),
}

/// What a listing shows: the tree of the package asked for; when it is
/// not in the source, the names of all packages and then the error that
/// it is not there; with no package asked for, all packages (every file
/// of each when `full_list`).
pub fn list_plan(pkgs: &PackageMap, req_pk: Option<String>, full_list: bool) -> (r: ListPlan)
    ensures
        match req_pk {
            Some(name) => if package_map(*pkgs).contains_key(name@) {
                r matches ListPlan::Tree(p) && dir_model(p) == package_map(*pkgs)[name@]
            } else {
                r matches ListPlan::All(false, Some(ErKind::NotFoundPackage(n))) && n@ == name@
            },
            None => r matches ListPlan::All(f, None) && f == full_list,
        },
{
    match req_pk {
        Some(name) => match find_package(pkgs, name.as_str()) {
            Some(p) => ListPlan::Tree(p),
            None => ListPlan::All(false, Some(ErKind::NotFoundPackage(name))),
        },
        None => ListPlan::All(full_list, None),
    }
}

/// One of the four names from index `i` on ends a row.
pub open spec fn row_end_among_four(i: int, total: int) -> bool {
    exists|j: int| i <= j < i + 4 && #[trigger] ends_row(j, total)
}

/// Every row of the listing holds four names but the last, which holds
/// one to four: the last name ends a row; any four names in a row include
/// the end of a row; and the row ends before the last name come no
/// earlier than the fourth name and at least four names apart.
pub proof fn law_rows_of_four(total: int)
    requires
        total > 0,
    ensures
        ends_row(total - 1, total),
        forall|i: int| 0 <= i && i + 4 <= total ==> #[trigger] row_end_among_four(i, total),
        forall|i: int| 0 <= i < total - 1 && #[trigger] ends_row(i, total) ==> i >= 3,
        forall|i: int, j: int|
            0 <= i < j < total - 1 && #[trigger] ends_row(i, total) && #[trigger] ends_row(j, total)
                ==> j - i >= 4,
{
    assert forall|i: int| 0 <= i && i + 4 <= total implies #[trigger] row_end_among_four(i, total) by {
        let j = i + 3 - i % 4;
        assert((j + 1) % 4 == 0) by (nonlinear_arith)
            requires
                j == i + 3 - i % 4,
                i >= 0,
        ;
        assert(ends_row(j, total));
    }
    assert forall|i: int, j: int|
        0 <= i < j < total - 1 && #[trigger] ends_row(i, total) && #[trigger] ends_row(j, total)
            implies j - i >= 4 by {
        assert(j - i >= 4) by (nonlinear_arith)
            requires
                (i + 1) % 4 == 0,
                (j + 1) % 4 == 0,
                0 <= i < j,
        ;
    }
}

} // verus!
