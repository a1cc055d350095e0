//! The decisions of stowing files into a package: finding or creating the
//! package, and the steps that move one file into it and link it back.
use vstd::prelude::*;

use crate::config::{Config, Resolver};
use crate::error::ErKind;
use crate::fileio::{IoFailure, IoKind};
use crate::packages::{dir_model, find_package, package_map, PackageMap};
use crate::path::{join, parent, parent_text, parse, push_text, strip_prefix, strip_text, SysPath};
use crate::text::{name_order, push_str, views};

verus! {

/// How the package to stow into was found.
pub enum StowLookup {
    /// It exists, in this directory.
    Found(SysPath),
    /// It is to be created, once the user agrees; the error to report
    /// first, if any.
    Create(Option<ErKind>),
    /// Looking for it failed.
    Fail(ErKind),
}

/// What looking up the package `name` among the source's packages gives:
/// its directory; or, when it is not among them (reported) or the source
/// holds none (not reported), a package to create; any other error stops
/// the stow.
pub fn stow_lookup(pkgs: Result<PackageMap, ErKind>, name: &str) -> (r: StowLookup)
    ensures
        match pkgs {
            Ok(m) => if package_map(m).contains_key(name@) {
                r matches StowLookup::Found(q) && dir_model(q) == package_map(m)[name@]
            } else {
                r matches StowLookup::Create(Some(ErKind::NotFoundPackage(n))) && n@ == name@
            },
            Err(e) => match e {
                ErKind::NotFoundPackage(_) => r == StowLookup::Create(Some(e)),
                ErKind::SourceEmpty => r == StowLookup::Create(None),
                _ => r == StowLookup::Fail(e),
            },
        },
{
    match pkgs {
        Ok(m) => match find_package(&m, name) {
            Some(p) => StowLookup::Found(p),
            None => StowLookup::Create(Some(ErKind::NotFoundPackage(String::from_str(name)))),
        },
        Err(e) => match e {
            ErKind::NotFoundPackage(_) => StowLookup::Create(Some(e)),
            ErKind::SourceEmpty => StowLookup::Create(None),
            _ => StowLookup::Fail(e),
        },
    }
}

/// The directory of a new package named `name` in the source `source`.
pub fn package_dir(source: &SysPath, name: &str) -> (r: SysPath)
    ensures
        r@ == join(source@, parse(name@)),
        r.written() == push_text(source.written(), name@),
{
    source.join(&SysPath::parse(name))
}

/// Where stowing one file stands.
#[derive(Clone, Copy, Debug, PartialEq, Eq, Structural)]
pub enum StowPhase {
    /// Checking whether the file is already the stowed one.
    Checking,
    /// Creating the directory that will hold the stowed file.
    MakingParent,
    /// Checking whether the package already holds the file.
    Probing,
    /// Copying the file into the package.
    Copying,
    /// Removing the file from the system.
    Removing,
    /// Linking the file on the system to the stowed one.
    Linking,
    /// Finished.
    Done,
}

/// Stowing one file: the file on the system, its place in the package,
/// the directory that holds that place, how the file is shown in
/// messages, the resolver, and where the work stands.
pub struct StowFile {
    pub fsys: SysPath,
    pub dest: SysPath,
    pub parent: Option<SysPath>,
    pub shown: String,
    pub resolver: Resolver,
    pub phase: StowPhase,
}

/// What the outside world answered.
pub enum StowEvent {
    /// Whether the file on the system is already the stowed one.
    Same(bool),
    /// Creating the directory: how it failed, if it did.
    ParentMade(Option<IoFailure>),
    /// Whether the package already holds the file.
    DestExists(bool),
    /// Copying the file: how it failed, if it did.
    Copied(Option<IoFailure>),
    /// Removing the file from the system: how it failed, if it did.
    Removed(Option<IoFailure>),
    /// Linking the file: how it failed, if it did.
    Linked(Option<IoFailure>),
}

/// What to do next.
#[derive(Debug)]
pub enum StowAction {
    /// Skip the file: it is not under the root.
    SkipNotInRoot,
    /// Check whether the file on the system is already the stowed one.
    CheckSame,
    /// Skip the file: it is already stowed.
    SkipStowed,
    /// Create the directory `parent` and all above it.
    MakeParent,
    /// Check whether the package already holds the file.
    ProbeDest,
    /// Copy the file on the system into the package.
    Copy,
    /// Remove the file from the system.
    Remove,
    /// Link the file on the system to the stowed one.
    Link,
    /// The file is stowed.
    Stowed,
    /// Stowing stops with this error.
    Fail(ErKind),
}

/// The events that each phase waits for.
pub open spec fn stow_accepts(s: StowFile, e: StowEvent) -> bool {
    match s.phase {
        StowPhase::Checking => e matches StowEvent::Same(same) && (!same ==> s.parent is Some),
        StowPhase::MakingParent => e is ParentMade && s.parent is Some,
        StowPhase::Probing => e is DestExists,
        StowPhase::Copying => e is Copied,
        StowPhase::Removing => e is Removed,
        StowPhase::Linking => e is Linked,
        StowPhase::Done => false,
    }
}

/// The error of a failed step: the path it concerns and its message.
pub open spec fn write_failure(act: StowAction, path: SysPath, message: Seq<char>) -> bool {
    act matches StowAction::Fail(ErKind::IOFailWrite(p, m)) && p@ == path@ && p.written() == path.written()
        && m@ == message
}

/// One step of stowing a file: the next phase and action for a phase and
/// the event it waited for. The paths, the display and the resolver stay.
pub open spec fn stow_step(s: StowFile, e: StowEvent, next: StowPhase, act: StowAction) -> bool {
    match s.phase {
        StowPhase::Checking => match e {
            StowEvent::Same(same) => if same {
                next == StowPhase::Done && act is SkipStowed
            } else {
                next == StowPhase::MakingParent && act is MakeParent
            },
            _ => false,
        },
        StowPhase::MakingParent => match e {
            StowEvent::ParentMade(Some(f)) if f.kind == IoKind::AlreadyExists => {
                next == StowPhase::Done && write_failure(act, s.parent->0, f.message@)
            },
            StowEvent::ParentMade(_) => next == StowPhase::Probing && act is ProbeDest,
            _ => false,
        },
        StowPhase::Probing => match e {
            StowEvent::DestExists(present) => if !present || s.resolver == Resolver::Adopt {
                next == StowPhase::Copying && act is Copy
            } else {
                next == StowPhase::Removing && act is Remove
            },
            _ => false,
        },
        StowPhase::Copying => match e {
            StowEvent::Copied(Some(f)) => next == StowPhase::Done && write_failure(
                act,
                s.dest,
                "copy from "@ + s.shown@ + " err: "@ + f.message@,
            ),
            StowEvent::Copied(None) => next == StowPhase::Removing && act is Remove,
            _ => false,
        },
        StowPhase::Removing => match e {
            StowEvent::Removed(Some(f)) => next == StowPhase::Done && write_failure(
                act,
                s.fsys,
                "remove err: "@ + f.message@,
            ),
            StowEvent::Removed(None) => next == StowPhase::Linking && act is Link,
            _ => false,
        },
        StowPhase::Linking => match e {
            StowEvent::Linked(Some(f)) => next == StowPhase::Done && write_failure(
                act,
                s.dest,
                "make symlink -> '"@ + s.shown@ + "': "@ + f.message@,
            ),
            StowEvent::Linked(None) => next == StowPhase::Done && act is Stowed,
            _ => false,
        },
        StowPhase::Done => false,
    }
}

fn message3(a: &str, b: &str, c: &str) -> (r: String)
    ensures
        r@ == a@ + b@ + c@,
{
    let mut r = String::from_str(a);
    push_str(&mut r, b);
    push_str(&mut r, c);
    r
}

impl StowFile {
    /// Starts stowing the file `fsys` into the package at `pk_path`: a file
    /// outside the root is skipped; else its place in the package is its
    /// place under the root, and the first step checks whether it is
    /// already stowed. `shown` is how messages show the file.
    pub fn start(fsys: SysPath, root: &SysPath, pk_path: &SysPath, shown: String, resolver: Resolver) -> (r: (
        StowFile,
        StowAction,
    ))
        ensures
            r.0.fsys@ == fsys@,
            r.0.fsys.written() == fsys.written(),
            r.0.shown@ == shown@,
            r.0.resolver == resolver,
            match strip_prefix(fsys@, root@) {
                None => r.0.phase == StowPhase::Done && r.1 is SkipNotInRoot,
                Some(rel) => {
                    &&& r.0.phase == StowPhase::Checking
                    &&& r.1 is CheckSame
                    &&& r.0.dest@ == join(pk_path@, rel)
                    &&& r.0.dest.written() == push_text(
                        pk_path.written(),
                        strip_text(fsys.written(), root@.len() as int),
                    )
                    &&& match parent(r.0.dest@) {
                        Some(q) => r.0.parent matches Some(p) && p@ == q && p.written() == parent_text(
                            r.0.dest.written(),
                        ),
                        None => r.0.parent is None,
                    }
                },
            },
    {
        match fsys.strip_prefix(root) {
            None => {
                let dest = fsys.duplicate();
                (
                    StowFile { fsys, dest, parent: None, shown, resolver, phase: StowPhase::Done },
                    StowAction::SkipNotInRoot,
                )
            },
            Some(rel) => {
                let dest = pk_path.join(&rel);
                let parent = dest.parent();
                (
                    StowFile { fsys, dest, parent, shown, resolver, phase: StowPhase::Checking },
                    StowAction::CheckSame,
                )
            },
        }
    }

    /// The next step of stowing this file, for the event its phase waited
    /// for.
    pub fn step(&mut self, event: StowEvent) -> (r: StowAction)
        requires
            stow_accepts(*old(self), event),
        ensures
            stow_step(*old(self), event, final(self).phase, r),
            final(self).fsys == old(self).fsys,
            final(self).dest == old(self).dest,
            final(self).parent == old(self).parent,
            final(self).shown == old(self).shown,
            final(self).resolver == old(self).resolver,
    {
        match self.phase {
            StowPhase::Checking => match event {
                StowEvent::Same(same) => {
                    if same {
                        self.phase = StowPhase::Done;
                        StowAction::SkipStowed
                    } else {
                        self.phase = StowPhase::MakingParent;
                        StowAction::MakeParent
                    }
                },
                _ => StowAction::Stowed,
            },
            StowPhase::MakingParent => match event {
                StowEvent::ParentMade(f) => match f {
                    Some(f) => {
                        if f.kind == IoKind::AlreadyExists {
                            self.phase = StowPhase::Done;
                            let p = match &self.parent {
                                Some(p) => p.duplicate(),
                                None => self.dest.duplicate(),
                            };
                            StowAction::Fail(ErKind::IOFailWrite(p, f.message))
                        } else {
                            self.phase = StowPhase::Probing;
                            StowAction::ProbeDest
                        }
                    },
                    None => {
                        self.phase = StowPhase::Probing;
                        StowAction::ProbeDest
                    },
                },
                _ => StowAction::Stowed,
            },
            StowPhase::Probing => match event {
                StowEvent::DestExists(present) => {
                    if !present || self.resolver.is_adopt() {
                        self.phase = StowPhase::Copying;
                        StowAction::Copy
                    } else {
                        self.phase = StowPhase::Removing;
                        StowAction::Remove
                    }
                },
                _ => StowAction::Stowed,
            },
            StowPhase::Copying => match event {
                StowEvent::Copied(f) => match f {
                    Some(f) => {
                        self.phase = StowPhase::Done;
                        let m = message3("copy from ", self.shown.as_str(), " err: ");
                        let m = message3(m.as_str(), f.message.as_str(), "");
                        proof {
                            reveal_strlit("");
                            assert(m@ =~= "copy from "@ + self.shown@ + " err: "@ + f.message@);
                        }
                        StowAction::Fail(ErKind::IOFailWrite(self.dest.duplicate(), m))
                    },
                    None => {
                        self.phase = StowPhase::Removing;
                        StowAction::Remove
                    },
                },
                _ => StowAction::Stowed,
            },
            StowPhase::Removing => match event {
                StowEvent::Removed(f) => match f {
                    Some(f) => {
                        self.phase = StowPhase::Done;
                        let m = message3("remove err: ", f.message.as_str(), "");
                        proof {
                            reveal_strlit("");
                            assert(m@ =~= "remove err: "@ + f.message@);
                        }
                        StowAction::Fail(ErKind::IOFailWrite(self.fsys.duplicate(), m))
                    },
                    None => {
                        self.phase = StowPhase::Linking;
                        StowAction::Link
                    },
                },
                _ => StowAction::Stowed,
            },
            StowPhase::Linking => match event {
                StowEvent::Linked(f) => match f {
                    Some(f) => {
                        self.phase = StowPhase::Done;
                        let m = message3("make symlink -> '", self.shown.as_str(), "': ");
                        let m = message3(m.as_str(), f.message.as_str(), "");
                        proof {
                            reveal_strlit("");
                            assert(m@ =~= "make symlink -> '"@ + self.shown@ + "': "@ + f.message@);
                        }
                        StowAction::Fail(ErKind::IOFailWrite(self.dest.duplicate(), m))
                    },
                    None => {
                        self.phase = StowPhase::Done;
                        StowAction::Stowed
                    },
                },
                _ => StowAction::Stowed,
            },
            StowPhase::Done => StowAction::Stowed,
        }
    }
}

/// The configuration to save after a stow: the new package recorded, in
/// order, when it was created and at least one file was stowed into it;
/// else none.
pub fn finish_stow(cfg: Config, pk_name: String, success: usize, is_new: bool) -> (r: Option<Config>)
    ensures
        !(success > 0 && is_new) ==> r is None,
        success > 0 && is_new ==> {
            &&& r matches Some(c)
            &&& views(c.packages@) == views(cfg.packages@).push(pk_name@).sort_by(name_order())
            &&& c.path_source == cfg.path_source
            &&& c.path_root == cfg.path_root
            &&& c.resolver == cfg.resolver
        },
{
    if success > 0 && is_new {
        let mut cfg = cfg;
        let ghost nv = pk_name@;
        let mut new = Vec::new();
        new.push(pk_name);
        assert(views(cfg.packages@) + views(new@) =~= views(cfg.packages@).push(nv));
        cfg.add_packages(new);
        Some(cfg)
    } else {
        None
    }
}

/// When the package does not hold the file yet, stowing always copies it
/// in before removing it from the system, whatever the resolver; the
/// system's file goes without a copy only when the package already holds
/// one and the resolver keeps it.
pub proof fn law_missing_dest_copied(s: StowFile, present: bool, next: StowPhase, act: StowAction)
    requires
        s.phase == StowPhase::Probing,
        stow_step(s, StowEvent::DestExists(present), next, act),
    ensures
        !present ==> next == StowPhase::Copying && act is Copy,
        act is Remove ==> present && s.resolver == Resolver::Replace,
        present && s.resolver == Resolver::Adopt ==> act is Copy,
{
}

} // verus!
