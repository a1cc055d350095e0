use me_stow::config::{contains_name, search_name, Config, Resolver, Setup, SetupAction, SetupEvent};
use me_stow::error::{is_trimmable, trim_path, ErKind, Piece};
use me_stow::log::{log_line, msg, Level, Note, Stream, Tint};
use me_stow::path::SysPath;

fn p(s: &str) -> SysPath {
    SysPath::parse(s)
}

fn cfg(pks: &[&str]) -> Config {
    let mut c = Config::from_dirs(p("/src"), p("/home/u"));
    c.packages = pks.iter().map(|s| s.to_string()).collect();
    c
}

fn text(pieces: &[Piece]) -> String {
    pieces.iter().map(|p| p.text.clone()).collect()
}

#[test]
fn resolver_kinds() {
    assert!(Resolver::Adopt.is_adopt());
    assert!(!Resolver::Adopt.is_replace());
    assert!(Resolver::Replace.is_replace());
    assert!(!Resolver::Replace.is_adopt());
}

#[test]
fn new_config_defaults() {
    let c = Config::from_dirs(p("/src"), p("/home/u"));
    assert_eq!(c.resolver, Resolver::Adopt);
    assert!(c.packages.is_empty());
    assert_eq!(c.path_source.render(), "/src");
}

#[test]
fn add_packages_keeps_sorted() {
    let mut c = cfg(&["git", "zsh"]);
    c.add_packages(vec!["nvim".to_string(), "alacritty".to_string()]);
    assert_eq!(c.packages, vec!["alacritty", "git", "nvim", "zsh"]);
}

#[test]
fn forget_package_on_sorted_list() {
    let mut c = cfg(&["alacritty", "git", "nvim", "zsh"]);
    c.forget_package("git");
    c.sort_packages();
    assert_eq!(c.packages, vec!["alacritty", "nvim", "zsh"]);
    c.forget_package("missing");
    assert_eq!(c.packages, vec!["alacritty", "nvim", "zsh"]);
}

#[test]
fn search_and_contains() {
    let v: Vec<String> = vec!["a".into(), "c".into(), "e".into(), "g".into()];
    assert_eq!(search_name(&v, "e"), Some(2));
    assert_eq!(search_name(&v, "d"), None);
    assert!(contains_name(&v, "g"));
    assert!(!contains_name(&v, "b"));
}

#[test]
fn setup_existing_config() {
    let (s, a) = Setup::start().step(SetupEvent::Loaded(Ok(cfg(&["x"]))));
    assert!(matches!(s, Setup::Done));
    match a {
        SetupAction::Finish(Ok(c)) => assert_eq!(c.packages, vec!["x"]),
        _ => panic!("expected the loaded configuration"),
    }
}

#[test]
fn setup_other_error_stops() {
    let (_, a) = Setup::start().step(SetupEvent::Loaded(Err(ErKind::BadConfigFile("bad".into()))));
    assert!(matches!(a, SetupAction::Finish(Err(ErKind::BadConfigFile(_)))));
}

#[test]
fn setup_declined() {
    let (s, a) = Setup::start().step(SetupEvent::Loaded(Err(ErKind::NotFoundConfig)));
    assert!(matches!(a, SetupAction::WarnAndAskCreate(ErKind::NotFoundConfig)));
    let (_, a) = s.step(SetupEvent::CreateAnswered(false));
    match a {
        SetupAction::Finish(Err(ErKind::UserAbort(Some(m)))) => {
            assert_eq!(m, "Create config file and run again.\nExit...!!")
        }
        _ => panic!("expected the user to abort"),
    }
}

#[test]
fn setup_create_and_save() {
    let (s, _) = Setup::start().step(SetupEvent::Loaded(Err(ErKind::NotFoundConfig)));
    let (s, a) = s.step(SetupEvent::CreateAnswered(true));
    assert!(matches!(a, SetupAction::AskDirs));
    let (s, a) = s.step(SetupEvent::DirsEntered(p("/dots"), p("/home/me")));
    assert!(matches!(a, SetupAction::AskSave));
    let (s, a) = s.step(SetupEvent::SaveAnswered(true));
    assert!(matches!(a, SetupAction::Save));
    match &s {
        Setup::Saving(c) => assert_eq!(c.path_root.render(), "/home/me"),
        _ => panic!("expected to be saving"),
    }
    let (_, a) = s.step(SetupEvent::Saved(Ok(())));
    match a {
        SetupAction::Finish(Ok(c)) => {
            assert_eq!(c.path_source.render(), "/dots");
            assert_eq!(c.resolver, Resolver::Adopt);
        }
        _ => panic!("expected the new configuration"),
    }
}

#[test]
fn setup_save_declined_and_failed() {
    let (s, _) = Setup::start().step(SetupEvent::Loaded(Err(ErKind::NotFoundConfig)));
    let (s, _) = s.step(SetupEvent::CreateAnswered(true));
    let (s, _) = s.step(SetupEvent::DirsEntered(p("/d"), p("/h")));
    let (_, a) = s.step(SetupEvent::SaveAnswered(false));
    assert!(matches!(a, SetupAction::Finish(Ok(_))));

    let (s, _) = Setup::start().step(SetupEvent::Loaded(Err(ErKind::NotFoundConfig)));
    let (s, _) = s.step(SetupEvent::CreateAnswered(true));
    let (s, _) = s.step(SetupEvent::DirsEntered(p("/d"), p("/h")));
    let (s, _) = s.step(SetupEvent::SaveAnswered(true));
    let (_, a) = s.step(SetupEvent::Saved(Err(ErKind::IOFailWrite(p("/c"), "denied".into()))));
    assert!(matches!(a, SetupAction::Finish(Err(ErKind::IOFailWrite(_, _)))));
}

#[test]
fn trimmed_paths() {
    assert_eq!(trim_path(&p("a/b")), "a/b");
    assert_eq!(trim_path(&p("a/")), "a/");
    assert_eq!(trim_path(&p("a//./b")), "a//./b");
    assert_eq!(trim_path(&p("/home/u/.config/x")), "../u/.config/x");
    assert!(!is_trimmable(&p("/a/b")));
    assert!(is_trimmable(&p("/a")));
    assert!(!is_trimmable(&p("a/b/..")));
}

#[test]
fn error_messages() {
    assert_eq!(text(&ErKind::SourceEmpty.message()), "no package in <source>");
    assert_eq!(text(&ErKind::IOFailWrite(p("./a/"), "x".into()).message()), "write to './a/': x");
    assert_eq!(text(&ErKind::UserAbort(None).message()), "user abort, peacefully exit!!");
    assert_eq!(text(&ErKind::BadConfigFile("x".into()).message()), "invalid config: x");
    let e = ErKind::IOFailRead(p("/home/u/.config/me-stow.toml"), "denied".into());
    let m = e.message();
    assert_eq!(text(&m), "read from '../u/.config/me-stow.toml': denied");
    assert_eq!(m[1].tint, Tint::Blue);
    let e = ErKind::ExternProgram("git".into(), -3, "oops".into());
    assert_eq!(text(&e.message()), "external 'git' exit /w code: -3 error: oops");
    let e = ErKind::NotFoundFile("pkg".into(), "*.rs".into());
    let m = e.message();
    assert_eq!(text(&m), "not found file '*.rs' in package: pkg");
    assert_eq!(m[1].tint, Tint::Cyan);
    assert_eq!(text(&ErKind::NotFoundPackage("vim".into()).message()), "request package 'vim' not in <source>");
    assert_eq!(text(&ErKind::IOExisted(p("x")).message()), "already exists: 'x' and it not a symlink!");
}

#[test]
fn error_kinds() {
    assert!(ErKind::UserAbort(None).is_user_abort());
    assert!(!ErKind::SourceEmpty.is_user_abort());
    assert!(!ErKind::IOFailWrite(p("/a/b"), "m".into()).is_displayable());
    assert_eq!(ErKind::SysEmpty(Some(p("/s"))).listing_source().unwrap().render(), "/s");
    assert!(ErKind::NoValidPackage(None).listing_source().is_none());
}

#[test]
fn log_lines() {
    assert_eq!(log_line("x", "y"), "[x] -- y");
    assert_eq!(msg("hello"), "[ .. ] -- hello");
    let (label, tint, stream) = Level::Error.style();
    assert_eq!(label, "error");
    assert_eq!(tint, Tint::Red);
    assert_eq!(stream, Stream::Stderr);
    let (label, _, stream) = Note::Warn.style();
    assert_eq!(label, " warn ");
    assert_eq!(stream, Stream::Stderr);
    assert_eq!(Note::Success.style().0, "  ok  ");
}
