//! What the file operations decide: when two paths are the same file,
//! which files have an extension, and what each outcome of creating,
//! removing or running something means for the caller.
use vstd::prelude::*;

use crate::error::ErKind;
use crate::path::{extension, SysPath};
use crate::text::{decimal, push_decimal, push_str, same_text};

verus! {

/// The kinds of failure of a filesystem operation that the stower tells
/// apart.
#[derive(Clone, Copy, Debug, PartialEq, Eq, Structural)]
pub enum IoKind {
    NotFound,
    AlreadyExists,
    DirectoryNotEmpty,
    InvalidInput,
    Other,
}

/// A failed filesystem operation: its kind and its message.
#[derive(Debug)]
pub struct IoFailure {
    pub kind: IoKind,
    pub message: String,
}

/// A failure that does not stop the work: the file was not there.
pub open spec fn tolerated(f: Option<IoFailure>) -> bool {
    match f {
        None => true,
        Some(e) => e.kind == IoKind::NotFound,
    }
}

/// Whether the outcome of an operation lets the work go on: it succeeded,
/// or what it was to act on was not there.
pub fn is_tolerated(f: &Option<IoFailure>) -> (r: bool)
    ensures
        r == tolerated(*f),
{
    match f {
        None => true,
        Some(e) => e.kind == IoKind::NotFound,
    }
}

/// Whether a link and a source are the same file, given the paths that
/// resolving each of them gave (`None` where it failed): both resolved,
/// to the same path.
pub fn is_the_same_file(link_resolved: &Option<SysPath>, src_resolved: &Option<SysPath>) -> (r:
    bool)
    ensures
        r == (link_resolved matches Some(a) && src_resolved matches Some(b) && a@ == b@),
{
    match (link_resolved, src_resolved) {
        (Some(a), Some(b)) => a.same_as(b),
        _ => false,
    }
}

/// The extension of a path, or the empty text when it has none.
pub open spec fn extension_or_empty(p: Seq<crate::path::Comp>) -> Seq<char> {
    match extension(p) {
        Some(e) => e,
        None => Seq::empty(),
    }
}

/// Whether `file` has the extension `ext`; a file without extension
/// counts as having the empty one.
pub fn has_extension(file: &SysPath, ext: &str) -> (r: bool)
    ensures
        r == (extension_or_empty(file@) == ext@),
{
    match file.extension() {
        Some(e) => same_text(e.as_str(), ext),
        None => {
            let empty = ext.unicode_len() == 0;
            assert(empty ==> ext@ =~= Seq::<char>::empty());
            empty
        },
    }
}

/// How an external program ran.
pub enum ProgramRun {
    /// It could not be started; the reason.
    NotStarted(String),
    /// It ran: whether it succeeded, its exit code if it had one, and what
    /// it wrote to its error stream.
    Exited { success: bool, code: Option<i32>, stderr: Vec<u8> },
}

/// The exit code reported when a program has none.
pub open spec fn missing_code() -> i32 {
    0xAF
}

/// The bytes of `b`, each written in decimal, one after the other.
pub open spec fn bytes_decimal(b: Seq<u8>) -> Seq<char>
    decreases b.len(),
{
    if b.len() == 0 {
        Seq::empty()
    } else {
        bytes_decimal(b.drop_last()) + decimal(b.last() as nat)
    }
}

/// What running a program gives the caller: `Ok` when it succeeded, else
/// the error that names the program, its exit code and its message.
pub open spec fn program_outcome(cmd: Seq<char>, run: ProgramRun, r: Result<(), ErKind>) -> bool {
    match run {
        ProgramRun::NotStarted(m) => r matches Err(ErKind::ExternProgram(n, c, msg)) && n@ == cmd
            && c == missing_code() && msg@ == m@,
        ProgramRun::Exited { success, code, stderr } => if success {
            r is Ok
        } else {
            r matches Err(ErKind::ExternProgram(n, c, msg)) && n@ == cmd && c == (match code {
                Some(c) => c,
                None => missing_code(),
            }) && msg@ == bytes_decimal(stderr@)
        },
    }
}

/// The outcome of running the program `cmd`.
pub fn run_outcome(cmd: &str, run: ProgramRun) -> (r: Result<(), ErKind>)
    ensures
        program_outcome(cmd@, run, r),
{
    match run {
        ProgramRun::NotStarted(m) => Err(ErKind::ExternProgram(String::from_str(cmd), 0xAF, m)),
        ProgramRun::Exited { success, code, stderr } => {
            if success {
                Ok(())
            } else {
                let mut msg = String::new();
                let mut i: usize = 0;
                assert(stderr@.take(0) =~= Seq::<u8>::empty());
                while i < stderr.len()
                    invariant
                        i <= stderr@.len(),
                        msg@ == bytes_decimal(stderr@.take(i as int)),
                    decreases stderr.len() - i,
                {
                    push_decimal(&mut msg, stderr[i] as u64);
                    assert(stderr@.take(i + 1).drop_last() =~= stderr@.take(i as int));
                    i = i + 1;
                }
                assert(stderr@.take(stderr@.len() as int) =~= stderr@);
                let c = match code {
                    Some(c) => c,
                    None => 0xAF,
                };
                Err(ErKind::ExternProgram(String::from_str(cmd), c, msg))
            }
        },
    }
}

/// What creating the directory `dest` gives the caller, from how creating
/// it failed, if it did: an existing directory is fine (and reported when
/// `verbose`), any other failure is an error. The boolean says whether to
/// report the existing directory.
pub fn make_dir_outcome(dest: &SysPath, failure: Option<IoFailure>, verbose: bool) -> (r: (
    Result<(), ErKind>,
    bool,
))
    ensures
        match failure {
            None => r.0 is Ok && !r.1,
            Some(f) => if f.kind == IoKind::AlreadyExists {
                r.0 is Ok && r.1 == verbose
            } else {
                &&& !r.1
                &&& r.0 matches Err(ErKind::IOFailWrite(p, m))
                &&& p@ == dest@
                &&& p.written() == dest.written()
                &&& m@ == "failed makedir: "@ + f.message@
            },
        },
{
    match failure {
        None => (Ok(()), false),
        Some(f) => {
            if f.kind == IoKind::AlreadyExists {
                (Ok(()), verbose)
            } else {
                let mut m = String::from_str("failed makedir: ");
                push_str(&mut m, f.message.as_str());
                (Err(ErKind::IOFailWrite(dest.duplicate(), m)), false)
            }
        },
    }
}

/// What cleaning up the empty directories under `path` gives the caller:
/// a symlink is never cleaned up; a directory that is not empty means the
/// package still holds files; any other failure is an error.
pub fn empty_dirs_outcome(path: &SysPath, is_symlink: bool, failure: Option<IoFailure>) -> (r:
    Result<(), ErKind>)
    ensures
        is_symlink ==> r == Err::<(), ErKind>(ErKind::PackageNotEmpty),
        !is_symlink ==> match failure {
            None => r is Ok,
            Some(f) => if f.kind == IoKind::DirectoryNotEmpty {
                r == Err::<(), ErKind>(ErKind::PackageNotEmpty)
            } else {
                r matches Err(ErKind::IOFailWrite(p, m)) && p@ == path@ && p.written() == path.written()
                    && m@ == f.message@
            },
        },
{
    if is_symlink {
        return Err(ErKind::PackageNotEmpty);
    }
    match failure {
        None => Ok(()),
        Some(f) => {
            if f.kind == IoKind::DirectoryNotEmpty {
                Err(ErKind::PackageNotEmpty)
            } else {
                Err(ErKind::IOFailWrite(path.duplicate(), f.message))
            }
        },
    }
}

/// What the user's answer to a confirmation gives the caller: the answer,
/// unless it is no and a no does not let the work go on, which is the
/// user declining.
pub fn confirm_outcome(choice: bool, false_continue: bool) -> (r: Result<bool, ErKind>)
    ensures
        choice || false_continue ==> r == Ok::<bool, ErKind>(choice),
        !(choice || false_continue) ==> r == Err::<bool, ErKind>(ErKind::UserAbort(None)),
{
    if choice || false_continue {
        Ok(choice)
    } else {
        Err(ErKind::UserAbort(None))
    }
}

} // verus!
