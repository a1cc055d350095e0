//! The library's errors and the messages that describe them.
use vstd::prelude::*;

use crate::log::Tint;
use crate::path::{Comp, SysPath};
use crate::text::push_str;

verus! {

/// What went wrong.
#[derive(Debug, PartialEq)]
#[non_exhaustive]
pub enum ErKind {
    /// The user declined to go on, with an optional reason.
    UserAbort(Option<String>),
    Generic(String),
    NotFoundConfig,
    SourceEmpty,
    /// After validation, no package requested by the user is valid; holds
    /// the source directory, to list the packages available there.
    NoValidPackage(Option<SysPath>),
    /// No package is in sync on this system; holds the source directory,
    /// to list the packages available there.
    SysEmpty(Option<SysPath>),
    IOFailRead(SysPath, String),
    IOFailWrite(SysPath, String),
    /// A file or directory exists there and is not a symlink.
    IOExisted(SysPath),
    BadConfigFile(String),
    /// An external program failed: its name, exit code and message.
    ExternProgram(String, i32, String),
    NotFoundPackage(String),
    /// No file of the package matches: the package and the pattern.
    NotFoundFile(String, String),
    PackageNotEmpty,
}

/// A piece of a message, with its colour.
pub struct Piece {
    pub text: String,
    pub tint: Tint,
}

/// The texts and colours of a message.
pub open spec fn pieces_view(v: Seq<Piece>) -> Seq<(Seq<char>, Tint)> {
    v.map_values(|p: Piece| (p.text@, p.tint))
}

/// A path can be shortened for display: it has fewer than three
/// components, or its last three are names.
pub open spec fn trimmable(p: Seq<Comp>) -> bool {
    p.len() < 3 || (p[p.len() - 1] is Name && p[p.len() - 2] is Name && p[p.len() - 3] is Name)
}

/// A path as errors show it: as written when it has fewer than three
/// components, else `../` and its last three names.
pub open spec fn trimmed(path: SysPath) -> Seq<char> {
    let p = path@;
    if p.len() < 3 {
        path.written()
    } else {
        "../"@ + p[p.len() - 3]->Name_0 + "/"@ + p[p.len() - 2]->Name_0 + "/"@ + p[p.len()
            - 1]->Name_0
    }
}

/// Whether `path` can be shortened for display.
pub fn is_trimmable(path: &SysPath) -> (r: bool)
    ensures
        r == trimmable(path@),
{
    if path.len() < 3 {
        return true;
    }
    if path.file_name().is_none() {
        return false;
    }
    let p1 = path.parent().unwrap();
    if p1.file_name().is_none() {
        return false;
    }
    let p2 = p1.parent().unwrap();
    p2.file_name().is_some()
}

/// A path as errors show it.
pub fn trim_path(path: &SysPath) -> (r: String)
    requires
        trimmable(path@),
    ensures
        r@ == trimmed(*path),
{
    if path.len() < 3 {
        path.text()
    } else {
        let n0 = path.file_name().unwrap();
        let p1 = path.parent().unwrap();
        let n1 = p1.file_name().unwrap();
        let n2 = p1.parent().unwrap().file_name().unwrap();
        let mut r = String::from_str("../");
        push_str(&mut r, n2.as_str());
        push_str(&mut r, "/");
        push_str(&mut r, n1.as_str());
        push_str(&mut r, "/");
        push_str(&mut r, n0.as_str());
        r
    }
}

/// The paths that an error shows can all be shortened for display.
pub open spec fn displayable(e: ErKind) -> bool {
    match e {
        ErKind::IOFailRead(p, _) => trimmable(p@),
        ErKind::IOFailWrite(p, _) => trimmable(p@),
        ErKind::IOExisted(p) => trimmable(p@),
        _ => true,
    }
}

/// The message that describes an error, piece by piece.
pub open spec fn message(e: ErKind) -> Seq<(Seq<char>, Tint)> {
    match e {
        ErKind::SourceEmpty => seq![("no package in <source>"@, Tint::Plain)],
        ErKind::NotFoundConfig => seq![("not found configurations file!!"@, Tint::Plain)],
        ErKind::NoValidPackage(_) => seq![("nothing to run!"@, Tint::Plain)],
        ErKind::SysEmpty(_) => seq![("no package currently in sync on this system!"@, Tint::Plain)],
        ErKind::PackageNotEmpty => seq![("there are files remain in package!!"@, Tint::Plain)],
        ErKind::BadConfigFile(m) => seq![("invalid config: "@ + m@, Tint::Plain)],
        ErKind::Generic(m) => seq![(m@, Tint::Plain)],
        ErKind::UserAbort(m) => match m {
            Some(m) => seq![(m@, Tint::Plain)],
            None => seq![("user abort, peacefully exit!!"@, Tint::Plain)],
        },
        ErKind::IOFailRead(p, m) => seq![
            ("read from '"@, Tint::Plain),
            (trimmed(p), Tint::Blue),
            ("': "@ + m@, Tint::Plain),
        ],
        ErKind::IOFailWrite(p, m) => seq![
            ("write to '"@, Tint::Plain),
            (trimmed(p), Tint::Blue),
            ("': "@ + m@, Tint::Plain),
        ],
        ErKind::IOExisted(p) => seq![
            ("already exists: '"@, Tint::Plain),
            (trimmed(p), Tint::Blue),
            ("' and it not a symlink!"@, Tint::Plain),
        ],
        ErKind::NotFoundFile(pkg, file) => seq![
            ("not found file '"@, Tint::Plain),
            (file@, Tint::Cyan),
            ("' in package: "@, Tint::Plain),
            (pkg@, Tint::Blue),
        ],
        ErKind::ExternProgram(name, code, m) => seq![
            ("external '"@, Tint::Plain),
            (name@, Tint::Blue),
            ("' exit /w code: "@ + crate::text::signed_decimal(code as int) + " error: "@ + m@, Tint::Plain),
        ],
        ErKind::NotFoundPackage(pkg) => seq![
            ("request package '"@, Tint::Plain),
            (pkg@, Tint::Blue),
            ("' not in <source>"@, Tint::Plain),
        ],
    }
}

fn piece(text: String, tint: Tint) -> (r: Piece)
    ensures
        r.text@ == text@,
        r.tint == tint,
{
    Piece { text, tint }
}

fn plain(s: &str) -> (r: Piece)
    ensures
        r.text@ == s@,
        r.tint == Tint::Plain,
{
    Piece { text: String::from_str(s), tint: Tint::Plain }
}

fn joined(a: &str, b: &str) -> (r: String)
    ensures
        r@ == a@ + b@,
{
    let mut r = String::from_str(a);
    push_str(&mut r, b);
    r
}

impl ErKind {
    /// Whether the paths that this error shows can be shortened for display.
    pub fn is_displayable(&self) -> (r: bool)
        ensures
            r == displayable(*self),
    {
        match self {
            ErKind::IOFailRead(p, _) => is_trimmable(p),
            ErKind::IOFailWrite(p, _) => is_trimmable(p),
            ErKind::IOExisted(p) => is_trimmable(p),
            _ => true,
        }
    }

    /// The message that describes this error, piece by piece, with the
    /// colour of each piece.
    pub fn message(&self) -> (r: Vec<Piece>)
        requires
            displayable(*self),
        ensures
            pieces_view(r@) == message(*self),
    {
        let mut r: Vec<Piece> = Vec::new();
        match self {
            ErKind::SourceEmpty => r.push(plain("no package in <source>")),
            ErKind::NotFoundConfig => r.push(plain("not found configurations file!!")),
            ErKind::NoValidPackage(_) => r.push(plain("nothing to run!")),
            ErKind::SysEmpty(_) => r.push(plain("no package currently in sync on this system!")),
            ErKind::PackageNotEmpty => r.push(plain("there are files remain in package!!")),
            ErKind::BadConfigFile(m) => r.push(piece(joined("invalid config: ", m.as_str()), Tint::Plain)),
            ErKind::Generic(m) => r.push(plain(m.as_str())),
            ErKind::UserAbort(m) => match m {
                Some(m) => r.push(plain(m.as_str())),
                None => r.push(plain("user abort, peacefully exit!!")),
            },
            ErKind::IOFailRead(p, m) => {
                r.push(plain("read from '"));
                r.push(piece(trim_path(p), Tint::Blue));
                r.push(piece(joined("': ", m.as_str()), Tint::Plain));
            },
            ErKind::IOFailWrite(p, m) => {
                r.push(plain("write to '"));
                r.push(piece(trim_path(p), Tint::Blue));
                r.push(piece(joined("': ", m.as_str()), Tint::Plain));
            },
            ErKind::IOExisted(p) => {
                r.push(plain("already exists: '"));
                r.push(piece(trim_path(p), Tint::Blue));
                r.push(plain("' and it not a symlink!"));
            },
            ErKind::NotFoundFile(pkg, file) => {
                r.push(plain("not found file '"));
                r.push(piece(file.clone(), Tint::Cyan));
                r.push(plain("' in package: "));
                r.push(piece(pkg.clone(), Tint::Blue));
            },
            ErKind::ExternProgram(name, code, m) => {
                r.push(plain("external '"));
                r.push(piece(name.clone(), Tint::Blue));
                let mut t = String::from_str("' exit /w code: ");
                crate::text::push_signed_decimal(&mut t, *code);
                push_str(&mut t, " error: ");
                push_str(&mut t, m.as_str());
                r.push(piece(t, Tint::Plain));
            },
            ErKind::NotFoundPackage(pkg) => {
                r.push(plain("request package '"));
                r.push(piece(pkg.clone(), Tint::Blue));
                r.push(plain("' not in <source>"));
            },
        }
        assert(pieces_view(r@) =~= message(*self));
        r
    }

    /// Whether this error is the user declining to go on, which the log
    /// reports as information rather than as an error.
    pub fn is_user_abort(&self) -> (r: bool)
        ensures
            r == (*self is UserAbort),
    {
        match self {
            ErKind::UserAbort(_) => true,
            _ => false,
        }
    }

    /// The source directory whose packages are listed after this error,
    /// if any.
    pub fn listing_source(&self) -> (r: Option<SysPath>)
        ensures
            match *self {
                ErKind::NoValidPackage(Some(p)) => r matches Some(q) && q@ == p@ && q.written() == p.written(),
                ErKind::SysEmpty(Some(p)) => r matches Some(q) && q@ == p@ && q.written() == p.written(),
                _ => r is None,
            },
    {
        match self {
            ErKind::NoValidPackage(Some(p)) => Some(p.duplicate()),
            ErKind::SysEmpty(Some(p)) => Some(p.duplicate()),
            _ => None,
        }
    }
}

} // verus!
