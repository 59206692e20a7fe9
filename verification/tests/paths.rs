use tfs::path::FsPath;
use tfs::text::{decimal, hex};

fn parts(p: &FsPath) -> Vec<&str> {
    p.components().iter().map(|s| s.as_str()).collect()
}

#[test]
fn parse_splits_on_separators_and_drops_empty_runs() {
    let p = FsPath::parse("/a//b/./../c/");
    assert!(p.is_absolute());
    assert_eq!(parts(&p), vec!["a", "b", ".", "..", "c"]);
    assert_eq!(p.len(), 5);

    let q = FsPath::parse("x/y");
    assert!(!q.is_absolute());
    assert_eq!(parts(&q), vec!["x", "y"]);

    let empty = FsPath::parse("");
    assert!(!empty.is_absolute());
    assert_eq!(empty.len(), 0);
    assert!(empty.same(&FsPath::empty()));

    let root = FsPath::parse("/");
    assert!(root.is_absolute());
    assert_eq!(root.len(), 0);
}

#[test]
fn text_and_parse_are_inverse_on_what_the_library_holds() {
    for text in ["/", "", "/a", "a", "/a/b/c", "a/b", "/a/../b", "./x"] {
        let p = FsPath::parse(text);
        assert_eq!(p.to_text(), text);
        assert!(FsPath::parse(&p.to_text()).same(&p));
    }
    assert_eq!(FsPath::parse("//a///b/").to_text(), "/a/b");
}

#[test]
fn normalize_drops_dot_and_lets_dotdot_remove_a_component() {
    assert_eq!(FsPath::parse("/a/./b/../c").normalize().to_text(), "/a/c");
    assert_eq!(FsPath::parse("/a/b/../../..").normalize().to_text(), "/");
    assert_eq!(FsPath::parse("/../x").normalize().to_text(), "/x");
    assert_eq!(FsPath::parse("../x").normalize().to_text(), "../x");
    assert_eq!(FsPath::parse("a/../../x").normalize().to_text(), "../x");
    assert_eq!(FsPath::parse("a/b/..").normalize().to_text(), "a");
    assert_eq!(FsPath::parse("/a/b").normalize().to_text(), "/a/b");
}

#[test]
fn join_appends_and_an_absolute_path_replaces() {
    let root = FsPath::parse("/work");
    assert_eq!(root.join(&FsPath::parse("a/b")).to_text(), "/work/a/b");
    assert_eq!(root.join(&FsPath::parse("/etc")).to_text(), "/etc");
    assert_eq!(root.join(&FsPath::parse("")).to_text(), "/work");
    assert_eq!(FsPath::parse("a").join(&FsPath::parse("../b")).to_text(), "a/../b");
}

#[test]
fn starts_with_compares_whole_components() {
    let root = FsPath::parse("/work");
    assert!(FsPath::parse("/work").starts_with(&root));
    assert!(FsPath::parse("/work/a").starts_with(&root));
    assert!(!FsPath::parse("/workshop/a").starts_with(&root));
    assert!(!FsPath::parse("/wor").starts_with(&root));
    assert!(!FsPath::parse("work/a").starts_with(&root));
    assert!(FsPath::parse("/anything").starts_with(&FsPath::parse("/")));
}

#[test]
fn parent_and_strip_prefix() {
    let p = FsPath::parse("/a/b/c");
    assert_eq!(p.parent().unwrap().to_text(), "/a/b");
    assert!(FsPath::parse("/").parent().is_none());
    assert_eq!(FsPath::parse("a").parent().unwrap().to_text(), "");
    assert_eq!(p.strip_prefix(&FsPath::parse("/a")).unwrap().to_text(), "b/c");
    assert_eq!(p.strip_prefix(&p).unwrap().to_text(), "");
    assert!(p.strip_prefix(&FsPath::parse("/x")).is_none());
}

#[test]
fn duplicate_and_clone_keep_the_path() {
    let p = FsPath::parse("/a/b");
    assert_eq!(p.duplicate(), p);
    assert_eq!(p.clone(), p);
    assert!(p.same(&p.duplicate()));
    assert!(!p.same(&FsPath::parse("a/b")));
    assert!(!p.same(&FsPath::parse("/a/c")));
    p.well_formed();
}

#[test]
fn decimal_and_hex_write_numbers_out() {
    assert_eq!(decimal(0), "0");
    assert_eq!(decimal(2), "2");
    assert_eq!(decimal(10), "10");
    assert_eq!(decimal(1234567890), "1234567890");
    assert_eq!(decimal(u64::MAX), "18446744073709551615");
    assert_eq!(hex(0xdeadbeef, 8), "deadbeef");
    assert_eq!(hex(0xab, 8), "000000ab");
    assert_eq!(hex(0x1ff, 2), "ff");
    assert_eq!(hex(7, 0), "");
}
