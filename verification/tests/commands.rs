use me_stow::config::{Config, Resolver};
use me_stow::error::ErKind;
use me_stow::fileio::{
    confirm_outcome, empty_dirs_outcome, has_extension, is_the_same_file, is_tolerated,
    make_dir_outcome, run_outcome, IoFailure, IoKind, ProgramRun,
};
use me_stow::list::{label, list_plan, name_grid, ListPlan};
use me_stow::packages::{collect_packages, find_package, get_pkg_by_name, PackageMap, SourceEntry};
use me_stow::path::SysPath;
use me_stow::remove::{
    file_request, finish_removal, pattern_files, pick_files, removable_files, removal_failure, removal_target, remove_step, settle_removal,
    trim_leading_slashes, FileRequest, RemoveStep,
};
use me_stow::stow::{finish_stow, package_dir, stow_lookup, StowAction, StowEvent, StowFile, StowLookup, StowPhase};
use me_stow::sync::{finish_sync, requested_packages, select_packages, sync_action, SyncAction, SyncTally};

fn p(s: &str) -> SysPath {
    SysPath::parse(s)
}

fn entries(names: &[&str]) -> Vec<SourceEntry> {
    names
        .iter()
        .map(|n| SourceEntry { name: n.to_string(), path: p(&format!("/src/{n}")), is_dir: true })
        .collect()
}

fn pkgs(names: &[&str]) -> PackageMap {
    collect_packages(&entries(names)).unwrap()
}

fn sorted_names(v: impl Iterator<Item = String>) -> Vec<String> {
    let mut names: Vec<String> = v.collect();
    names.sort();
    names
}

fn fail(kind: IoKind, m: &str) -> Option<IoFailure> {
    Some(IoFailure { kind, message: m.to_string() })
}

fn cfg(pks: &[&str]) -> Config {
    let mut c = Config::from_dirs(p("/src"), p("/home/u"));
    c.packages = pks.iter().map(|s| s.to_string()).collect();
    c
}

#[test]
fn same_file_needs_both_resolved() {
    assert!(is_the_same_file(&Some(p("/a/b")), &Some(p("/a//b"))));
    assert!(!is_the_same_file(&Some(p("/a/b")), &Some(p("/a/c"))));
    assert!(!is_the_same_file(&None, &Some(p("/a"))));
    assert!(!is_the_same_file(&Some(p("/a")), &None));
}

#[test]
fn extension_matching() {
    assert!(has_extension(&p("/x/a.toml"), "toml"));
    assert!(!has_extension(&p("/x/a.toml"), "tom"));
    assert!(has_extension(&p("/x/README"), ""));
    assert!(has_extension(&p("/x/.hidden"), ""));
}

#[test]
fn program_outcomes() {
    assert!(run_outcome("ls", ProgramRun::Exited { success: true, code: Some(0), stderr: vec![1] }).is_ok());
    let e = run_outcome("ls", ProgramRun::Exited { success: false, code: Some(2), stderr: vec![1, 255, 0] });
    assert_eq!(e, Err(ErKind::ExternProgram("ls".into(), 2, "12550".into())));
    let e = run_outcome("ls", ProgramRun::Exited { success: false, code: None, stderr: vec![] });
    assert_eq!(e, Err(ErKind::ExternProgram("ls".into(), 0xAF, "".into())));
    let e = run_outcome("nope", ProgramRun::NotStarted("not found".into()));
    assert_eq!(e, Err(ErKind::ExternProgram("nope".into(), 0xAF, "not found".into())));
}

#[test]
fn make_dir_outcomes() {
    assert_eq!(make_dir_outcome(&p("/d"), None, true), (Ok(()), false));
    assert_eq!(make_dir_outcome(&p("/d"), fail(IoKind::AlreadyExists, "e"), true), (Ok(()), true));
    assert_eq!(make_dir_outcome(&p("/d"), fail(IoKind::AlreadyExists, "e"), false), (Ok(()), false));
    assert_eq!(
        make_dir_outcome(&p("/d"), fail(IoKind::Other, "denied"), true),
        (Err(ErKind::IOFailWrite(p("/d"), "failed makedir: denied".into())), false)
    );
}

#[test]
fn empty_dirs_outcomes() {
    assert_eq!(empty_dirs_outcome(&p("/d"), true, None), Err(ErKind::PackageNotEmpty));
    assert_eq!(empty_dirs_outcome(&p("/d"), false, None), Ok(()));
    assert_eq!(empty_dirs_outcome(&p("/d"), false, fail(IoKind::DirectoryNotEmpty, "x")), Err(ErKind::PackageNotEmpty));
    assert_eq!(
        empty_dirs_outcome(&p("/d"), false, fail(IoKind::Other, "busy")),
        Err(ErKind::IOFailWrite(p("/d"), "busy".into()))
    );
}

#[test]
fn confirm_outcomes() {
    assert_eq!(confirm_outcome(true, false), Ok(true));
    assert_eq!(confirm_outcome(false, true), Ok(false));
    assert_eq!(confirm_outcome(false, false), Err(ErKind::UserAbort(None)));
    assert!(is_tolerated(&None));
    assert!(is_tolerated(&fail(IoKind::NotFound, "")));
    assert!(!is_tolerated(&fail(IoKind::Other, "")));
}

#[test]
fn packages_from_source_entries() {
    let mut listed = entries(&["nvim", "zsh"]);
    listed.push(SourceEntry { name: "README.md".into(), path: p("/src/README.md"), is_dir: false });
    let m = collect_packages(&listed).unwrap();
    assert_eq!(m.len(), 2);
    assert_eq!(m.get("nvim").unwrap().render(), "/src/nvim");
    assert!(m.get("README.md").is_none());
    let files_only = vec![SourceEntry { name: "a".into(), path: p("/src/a"), is_dir: false }];
    assert_eq!(collect_packages(&files_only).err(), Some(ErKind::SourceEmpty));
    assert_eq!(collect_packages(&Vec::new()).err(), Some(ErKind::SourceEmpty));
}

#[test]
fn packages_by_glob_and_name() {
    let mut v = pkgs(&["nvim", "zsh", "zellij", "git"]);
    let got = get_pkg_by_name(&mut v, "z*").unwrap();
    assert_eq!(sorted_names(got.into_iter().map(|p| p.name)), vec!["zellij", "zsh"]);
    assert_eq!(sorted_names(v.keys().cloned()), vec!["git", "nvim"]);
    assert!(get_pkg_by_name(&mut v, "x*").is_none());
    assert_eq!(v.len(), 2);
    let exact = get_pkg_by_name(&mut v, "git").unwrap();
    assert_eq!(exact.len(), 1);
    assert_eq!(exact[0].path.render(), "/src/git");
    assert_eq!(sorted_names(v.keys().cloned()), vec!["nvim"]);
    assert_eq!(find_package(&v, "nvim").unwrap().render(), "/src/nvim");
    assert!(find_package(&v, "nv").is_none());
    assert!(find_package(&v, "git").is_none());
}

#[test]
fn listing_plans() {
    let v = pkgs(&["nvim", "zsh"]);
    match list_plan(&v, Some("zsh".into()), true) {
        ListPlan::Tree(d) => assert_eq!(d.render(), "/src/zsh"),
        _ => panic!("expected the package's tree"),
    }
    match list_plan(&v, Some("git".into()), true) {
        ListPlan::All(full, err) => {
            assert!(!full);
            assert_eq!(err, Some(ErKind::NotFoundPackage("git".into())));
        }
        _ => panic!("expected the whole listing"),
    }
    assert!(matches!(list_plan(&v, None, true), ListPlan::All(true, None)));
    assert!(matches!(list_plan(&v, None, false), ListPlan::All(false, None)));
}

#[test]
fn sync_requests() {
    let sys: Vec<String> = vec!["a".into()];
    let src = p("/src");
    assert_eq!(requested_packages(&Some(vec!["b".into()]), &sys, &src).unwrap(), vec!["b"]);
    assert_eq!(requested_packages(&None, &sys, &src).unwrap(), vec!["a"]);
    assert_eq!(requested_packages(&None, &vec![], &src), Err(ErKind::SysEmpty(Some(p("/src")))));
}

#[test]
fn sync_selection() {
    let mut v = pkgs(&["nvim", "zsh", "git"]);
    let req: Vec<String> = vec!["git".into(), "nope".into(), "*".into()];
    let got = select_packages(&mut v, &req, &p("/src")).unwrap();
    assert_eq!(got.len(), 3);
    assert_eq!(got[0].name, "git");
    assert_eq!(got[0].path.render(), "/src/git");
    assert_eq!(sorted_names(got[1..].iter().map(|p| p.name.clone())), vec!["nvim", "zsh"]);
    assert!(v.is_empty());
    let mut v = pkgs(&["nvim", "zsh", "git"]);
    let req: Vec<String> = vec!["zsh".into(), "zsh".into()];
    let got = select_packages(&mut v, &req, &p("/src")).unwrap();
    assert_eq!(got.len(), 1);
    assert_eq!(sorted_names(v.keys().cloned()), vec!["git", "nvim"]);
    let mut v = pkgs(&["nvim"]);
    let req: Vec<String> = vec!["x".into()];
    assert_eq!(select_packages(&mut v, &req, &p("/src")).err(), Some(ErKind::NoValidPackage(Some(p("/src")))));
}

#[test]
fn sync_actions() {
    assert_eq!(sync_action(true, true, false, Resolver::Adopt), SyncAction::Report(true));
    assert_eq!(sync_action(false, true, true, Resolver::Replace), SyncAction::Report(false));
    assert_eq!(sync_action(true, false, true, Resolver::Replace), SyncAction::Skip);
    assert_eq!(sync_action(false, false, true, Resolver::Adopt), SyncAction::Replace);
    assert_eq!(sync_action(false, false, false, Resolver::Replace), SyncAction::Replace);
    assert_eq!(sync_action(false, false, false, Resolver::Adopt), SyncAction::Adopt);
}

#[test]
fn sync_tally_and_finish() {
    let sys: Vec<String> = vec!["git".into()];
    let mut t = SyncTally::new();
    t.record("zsh".into(), true, false, true, &sys);
    t.record("git".into(), true, false, true, &sys);
    t.record("nvim".into(), false, false, true, &sys);
    assert_eq!(t.success, 2);
    assert_eq!(t.new_pks, vec!["zsh"]);
    assert_eq!(SyncTally::requested_count(3, 5), 5);
    assert_eq!(SyncTally::requested_count(3, 1), 3);
    let c = finish_sync(cfg(&["git"]), t, false).unwrap();
    assert_eq!(c.packages, vec!["git", "zsh"]);
    let mut t = SyncTally::new();
    t.record("zsh".into(), true, true, true, &sys);
    assert_eq!(t.success, 0);
    assert!(finish_sync(cfg(&["git"]), t, true).is_none());
    assert!(finish_sync(cfg(&["git"]), SyncTally::new(), false).is_none());
}

#[test]
fn stow_lookups() {
    match stow_lookup(Ok(pkgs(&["a", "b"])), "a") {
        StowLookup::Found(d) => assert_eq!(d.render(), "/src/a"),
        _ => panic!("expected the package"),
    }
    match stow_lookup(Ok(pkgs(&["a"])), "zsh") {
        StowLookup::Create(Some(e)) => assert_eq!(e, ErKind::NotFoundPackage("zsh".into())),
        _ => panic!("expected a new package, with the reason"),
    }
    assert!(matches!(stow_lookup(Err(ErKind::NotFoundPackage("a".into())), "a"), StowLookup::Create(Some(_))));
    assert!(matches!(stow_lookup(Err(ErKind::SourceEmpty), "a"), StowLookup::Create(None)));
    assert!(matches!(stow_lookup(Err(ErKind::PackageNotEmpty), "a"), StowLookup::Fail(_)));
    assert_eq!(package_dir(&p("/src"), "nvim").render(), "/src/nvim");
}

#[test]
fn stow_one_file_all_steps() {
    let (mut f, a) = StowFile::start(p("/home/u/.zshrc"), &p("/home/u"), &p("/src/zsh"), "zshrc".into(), Resolver::Adopt);
    assert!(matches!(a, StowAction::CheckSame));
    assert_eq!(f.dest.render(), "/src/zsh/.zshrc");
    assert_eq!(f.parent.as_ref().unwrap().render(), "/src/zsh");
    assert!(matches!(f.step(StowEvent::Same(false)), StowAction::MakeParent));
    assert!(matches!(f.step(StowEvent::ParentMade(None)), StowAction::ProbeDest));
    assert!(matches!(f.step(StowEvent::DestExists(true)), StowAction::Copy));
    assert!(matches!(f.step(StowEvent::Copied(None)), StowAction::Remove));
    assert!(matches!(f.step(StowEvent::Removed(None)), StowAction::Link));
    assert!(matches!(f.step(StowEvent::Linked(None)), StowAction::Stowed));
    assert_eq!(f.phase, StowPhase::Done);
}

#[test]
fn stow_skips_and_failures() {
    let (_, a) = StowFile::start(p("/etc/x"), &p("/home/u"), &p("/src/zsh"), "x".into(), Resolver::Adopt);
    assert!(matches!(a, StowAction::SkipNotInRoot));
    let (mut f, _) = StowFile::start(p("/home/u/a"), &p("/home/u"), &p("/src/p"), "A".into(), Resolver::Replace);
    assert!(matches!(f.step(StowEvent::Same(true)), StowAction::SkipStowed));
    let (mut f, _) = StowFile::start(p("/home/u/a"), &p("/home/u"), &p("/src/p"), "A".into(), Resolver::Replace);
    f.step(StowEvent::Same(false));
    match f.step(StowEvent::ParentMade(fail(IoKind::AlreadyExists, "exists"))) {
        StowAction::Fail(e) => assert_eq!(e, ErKind::IOFailWrite(p("/src/p"), "exists".into())),
        _ => panic!("expected a failure"),
    }
    let (mut f, _) = StowFile::start(p("/home/u/a"), &p("/home/u"), &p("/src/p"), "A".into(), Resolver::Replace);
    f.step(StowEvent::Same(false));
    f.step(StowEvent::ParentMade(fail(IoKind::Other, "other")));
    assert!(matches!(f.step(StowEvent::DestExists(true)), StowAction::Remove));
    match f.step(StowEvent::Removed(fail(IoKind::Other, "busy"))) {
        StowAction::Fail(e) => assert_eq!(e, ErKind::IOFailWrite(p("/home/u/a"), "remove err: busy".into())),
        _ => panic!("expected a failure"),
    }
    let (mut f, _) = StowFile::start(p("/home/u/a"), &p("/home/u"), &p("/src/p"), "A".into(), Resolver::Replace);
    f.step(StowEvent::Same(false));
    f.step(StowEvent::ParentMade(None));
    assert!(matches!(f.step(StowEvent::DestExists(false)), StowAction::Copy));
    match f.step(StowEvent::Copied(fail(IoKind::Other, "full"))) {
        StowAction::Fail(e) => assert_eq!(e, ErKind::IOFailWrite(p("/src/p/a"), "copy from A err: full".into())),
        _ => panic!("expected a failure"),
    }
    let (mut f, _) = StowFile::start(p("/home/u/a"), &p("/home/u"), &p("/src/p"), "A".into(), Resolver::Adopt);
    f.step(StowEvent::Same(false));
    f.step(StowEvent::ParentMade(None));
    f.step(StowEvent::DestExists(false));
    f.step(StowEvent::Copied(None));
    f.step(StowEvent::Removed(None));
    match f.step(StowEvent::Linked(fail(IoKind::Other, "ro"))) {
        StowAction::Fail(e) => assert_eq!(e, ErKind::IOFailWrite(p("/src/p/a"), "make symlink -> 'A': ro".into())),
        _ => panic!("expected a failure"),
    }
}

#[test]
fn stow_finish() {
    let c = finish_stow(cfg(&["zsh"]), "git".into(), 1, true).unwrap();
    assert_eq!(c.packages, vec!["git", "zsh"]);
    assert!(finish_stow(cfg(&["zsh"]), "git".into(), 0, true).is_none());
    assert!(finish_stow(cfg(&["zsh"]), "git".into(), 3, false).is_none());
}

#[test]
fn removal_targets() {
    let mut v = pkgs(&["nvim", "zsh"]);
    match removal_target(None, false, &mut v) {
        Err(ErKind::Generic(m)) => assert_eq!(m, "nothing to remove\nuse '--all' if you want to remove all packages"),
        _ => panic!("expected a refusal"),
    }
    assert!(matches!(removal_target(None, true, &mut v), Ok(None)));
    assert_eq!(removal_target(Some("git".into()), false, &mut v).err(), Some(ErKind::NotFoundPackage("git".into())));
    assert_eq!(v.len(), 2);
    let one = removal_target(Some("z*".into()), false, &mut v).unwrap().unwrap();
    assert_eq!(one.name, "zsh");
    assert_eq!(one.path.render(), "/src/zsh");
    assert_eq!(sorted_names(v.keys().cloned()), vec!["nvim"]);
}

#[test]
fn removal_files() {
    assert_eq!(trim_leading_slashes("//a/b"), "a/b");
    assert_eq!(trim_leading_slashes("a"), "a");
    let pk = p("/src/nvim");
    assert!(matches!(file_request(Some(p("/src/nvim/init.lua")), Some("init.lua".into()), &pk), FileRequest::Stowed(_)));
    match file_request(Some(p("/etc/x")), Some("/lua/*".into()), &pk) {
        FileRequest::Pattern(s) => assert_eq!(s, "lua/*"),
        _ => panic!("expected a pattern"),
    }
    assert!(matches!(file_request(None, None, &pk), FileRequest::Invalid));
    let files = vec![p("/src/nvim/init.lua"), p("/src/nvim/lua/a.lua"), p("/src/nvim/lua/b.vim")];
    let got = pick_files(&files, &pk, "lua/*.lua");
    assert_eq!(got.len(), 1);
    assert_eq!(got[0].render(), "/src/nvim/lua/a.lua");
}

#[test]
fn removal_steps() {
    assert_eq!(remove_step(true, false), RemoveStep::PurgeBoth);
    assert_eq!(remove_step(false, true), RemoveStep::Restore);
    assert_eq!(remove_step(false, false), RemoveStep::DropStowed);
    assert_eq!(removal_failure(&p("/s/a"), true, None), None);
    assert_eq!(removal_failure(&p("/s/a"), true, fail(IoKind::NotFound, "gone")), None);
    assert_eq!(
        removal_failure(&p("/s/a"), false, fail(IoKind::Other, "denied")),
        Some(ErKind::IOFailWrite(p("/s/a"), "restore file: denied".into()))
    );
    assert_eq!(
        removal_failure(&p("/s/a"), true, fail(IoKind::Other, "denied")),
        Some(ErKind::IOFailWrite(p("/s/a"), "remove file: denied".into()))
    );
}

#[test]
fn removal_settled() {
    let mut c = cfg(&["git", "nvim", "zsh"]);
    assert_eq!(settle_removal(&mut c, "nvim", Ok(())), None);
    assert_eq!(settle_removal(&mut c, "git", Err(ErKind::PackageNotEmpty)), None);
    assert_eq!(settle_removal(&mut c, "git", Err(ErKind::SourceEmpty)), Some(ErKind::SourceEmpty));
    c.sort_packages();
    assert_eq!(c.packages, vec!["git", "zsh"]);
}

#[test]
fn listing_layout() {
    assert_eq!(label(&p("/src/nvim/init.lua")), "init.lua");
    let names: Vec<String> = ["f", "e", "d", "c", "b", "a"].iter().map(|s| s.to_string()).collect();
    let grid = name_grid(names);
    let flags: Vec<bool> = grid.iter().map(|e| e.1).collect();
    assert_eq!(grid[0].0, "a");
    assert_eq!(grid[5].0, "f");
    assert_eq!(flags, vec![false, false, false, true, false, true]);
    assert!(name_grid(vec![]).is_empty());
}

#[test]
fn removal_finish() {
    assert_eq!(removable_files(Vec::new()).err(), Some(ErKind::NoValidPackage(None)));
    assert_eq!(removable_files(vec![p("/src/a/x")]).unwrap().len(), 1);
    let (none, errs) = finish_removal(cfg(&["git", "nvim"]), Vec::new());
    assert!(none.is_none());
    assert!(errs.is_empty());
    let results = vec![
        ("nvim".to_string(), Ok(())),
        ("git".to_string(), Err(ErKind::PackageNotEmpty)),
        ("zsh".to_string(), Err(ErKind::SourceEmpty)),
    ];
    let (saved, errs) = finish_removal(cfg(&["git", "nvim", "zsh"]), results);
    assert_eq!(saved.unwrap().packages, vec!["git", "zsh"]);
    assert_eq!(errs, vec![ErKind::SourceEmpty]);
}

#[test]
fn removal_patterns_that_match_nothing() {
    let pk = p("/src/nvim");
    let files = vec![p("/src/nvim/init.lua"), p("/src/nvim/lua/a.lua")];
    assert_eq!(pattern_files(&files, &pk, "init*").unwrap().len(), 1);
    assert_eq!(pattern_files(&files, &pk, "*.lua").unwrap().len(), 2);
    assert_eq!(
        pattern_files(&files, &pk, "*.vim").err(),
        Some(ErKind::NotFoundFile("/src/nvim".into(), "*.vim".into()))
    );
}

#[test]
fn removal_finish_single_package() {
    let results = vec![("nvim".to_string(), Ok(()))];
    let (saved, errs) = finish_removal(cfg(&["git", "nvim", "zsh"]), results);
    assert_eq!(saved.unwrap().packages, vec!["git", "zsh"]);
    assert!(errs.is_empty());
    let kept = vec![("nvim".to_string(), Err(ErKind::PackageNotEmpty))];
    let (saved, errs) = finish_removal(cfg(&["git", "nvim"]), kept);
    assert_eq!(saved.unwrap().packages, vec!["git", "nvim"]);
    assert!(errs.is_empty());
}

#[test]
fn picked_files_keep_their_text() {
    let pk = p("/src/nvim");
    let files = vec![p("/src/nvim//init.lua")];
    let got = pattern_files(&files, &pk, "init*").unwrap();
    assert_eq!(got[0].text(), "/src/nvim//init.lua");
}
