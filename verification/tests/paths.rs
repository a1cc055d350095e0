use me_stow::path::{extension_of_name, relocate, Component, SysPath};

fn p(s: &str) -> SysPath {
    SysPath::parse(s)
}

#[test]
fn parse_and_render_absolute() {
    let path = p("/home/user/.config/nvim");
    assert_eq!(path.len(), 5);
    assert!(path.is_absolute());
    assert_eq!(path.render(), "/home/user/.config/nvim");
}

#[test]
fn parse_normalizes_like_std() {
    assert_eq!(p("./a/../b/").render(), "./a/../b");
    assert_eq!(p("a//b/./c").render(), "a/b/c");
    assert_eq!(p("/").render(), "/");
    assert_eq!(p("").len(), 0);
    assert_eq!(p(".").render(), ".");
    assert_eq!(p("a/.").render(), "a");
}

#[test]
fn parse_components() {
    let path = p("./x/../y");
    let want = SysPath::parse(".");
    assert_eq!(path.len(), 4);
    assert!(path.parent().unwrap().parent().unwrap().parent().unwrap().same_as(&want));
    let dots = p("..");
    assert_eq!(dots.file_name(), None);
    let _ = Component::ParentDir;
}

#[test]
fn join_relative_and_absolute() {
    assert_eq!(p("/home/u").join(&p("a/b")).render(), "/home/u/a/b");
    assert_eq!(p("/home/u").join(&p("/etc")).render(), "/etc");
    assert_eq!(p("a").join(&p("./b")).render(), "a/b");
    assert_eq!(p("").join(&p("./b")).render(), "./b");
    assert_eq!(p("a").join(&p("")).render(), "a");
}

#[test]
fn strip_prefix_by_components() {
    let rest = p("/home/u/.config/x").strip_prefix(&p("/home/u")).unwrap();
    assert_eq!(rest.render(), ".config/x");
    assert!(p("/home/uu/x").strip_prefix(&p("/home/u")).is_none());
    assert_eq!(p("/a/b").strip_prefix(&p("/a/b")).unwrap().len(), 0);
}

#[test]
fn parent_and_file_name() {
    assert_eq!(p("/a/b").parent().unwrap().render(), "/a");
    assert_eq!(p("/a").parent().unwrap().render(), "/");
    assert!(p("/").parent().is_none());
    assert!(p("").parent().is_none());
    assert_eq!(p("a").parent().unwrap().len(), 0);
    assert_eq!(p("/a/b.txt").file_name().unwrap(), "b.txt");
    assert_eq!(p("/").file_name(), None);
}

#[test]
fn extensions_like_std() {
    assert_eq!(extension_of_name("a.tar.gz"), Some("gz".to_string()));
    assert_eq!(extension_of_name(".bashrc"), None);
    assert_eq!(extension_of_name("foo."), Some("".to_string()));
    assert_eq!(extension_of_name("noext"), None);
    assert_eq!(extension_of_name("..foo"), Some("foo".to_string()));
    assert_eq!(p("/x/y.toml").extension(), Some("toml".to_string()));
}

#[test]
fn relocate_round_trip() {
    let root = p("/home/u");
    let pk = p("/src/pkg");
    let fsys = p("/home/u/.config/app/conf");
    let (rel, dest) = relocate(&fsys, &root, &pk);
    assert_eq!(rel.render(), ".config/app/conf");
    assert_eq!(dest.render(), "/src/pkg/.config/app/conf");
    let (rel2, back) = relocate(&dest, &pk, &root);
    assert!(rel2.same_as(&rel));
    assert!(back.same_as(&fsys));
}

#[test]
fn paths_compare_by_components() {
    assert!(p("a//b/").same_as(&p("a/b")));
    assert!(!p("a/b").same_as(&p("/a/b")));
    assert_eq!(p("a/b").clone(), p("a/b"));
}

#[test]
fn text_as_written_like_std() {
    assert_eq!(p("a//b/./").text(), "a//b/./");
    assert_eq!(p("a").join(&p("b")).text(), "a/b");
    assert_eq!(p("a/").join(&p("b")).text(), "a/b");
    assert_eq!(p("").join(&p("b")).text(), "b");
    assert_eq!(p("a").join(&p("")).text(), "a/");
    assert_eq!(p("a").join(&p("/etc")).text(), "/etc");
    assert_eq!(p("a").join(&p("./b")).text(), "a/./b");
    assert_eq!(p("a//b/").parent().unwrap().text(), "a");
    assert_eq!(p("/a").parent().unwrap().text(), "/");
    assert_eq!(p("./a").parent().unwrap().text(), ".");
    assert_eq!(p(".").parent().unwrap().text(), "");
    assert_eq!(p("/./a/b").parent().unwrap().text(), "/./a");
    assert_eq!(p("a//b/c/").strip_prefix(&p("a")).unwrap().text(), "b/c");
    assert_eq!(p("/a/b").strip_prefix(&p("/")).unwrap().text(), "a/b");
    assert_eq!(p("a/b/.").strip_prefix(&p("")).unwrap().text(), "a/b");
    assert_eq!(p("./").strip_prefix(&p("")).unwrap().text(), ".");
    assert_eq!(p("/a/b").strip_prefix(&p("/a/b")).unwrap().text(), "");
    let (rel, dest) = relocate(&p("/home/u//.zshrc"), &p("/home/u"), &p("/src/zsh/"));
    assert_eq!(rel.text(), ".zshrc");
    assert_eq!(dest.text(), "/src/zsh/.zshrc");
    assert!(p("a//b/") == p("a/b"));
    assert!(p("a") != p("/a"));
}
