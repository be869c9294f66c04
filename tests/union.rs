use std::time::Duration;

use libfuse_fs::flags::{
    validate_flags, EEXIST, EINVAL, EISDIR, ENOENT, ENOTDIR, ENOTEMPTY, RENAME_EXCHANGE, RENAME_NOREPLACE,
    RENAME_WHITEOUT,
};
use libfuse_fs::hook::{MockLayer, RenameBehavior};
use libfuse_fs::layer::Layer;
use libfuse_fs::name::{check_name, ENAMETOOLONG};
use libfuse_fs::node::{FileKind, Node};
use libfuse_fs::overlay::{Overlay, Resolved};

const ROOT: u64 = 1;

fn s(x: &str) -> String {
    x.to_string()
}

fn union_of(upper: Layer, lower: Layer) -> Overlay {
    Overlay::from_layers(upper, vec![lower])
}

fn data(fs: &Overlay, dir: u64, name: &str) -> Option<String> {
    match fs.lookup(dir, &s(name)) {
        Resolved::Present(_, n) => Some(n.data.clone()),
        _ => None,
    }
}

fn upper_whiteout(fs: &Overlay, dir: u64, name: &str) -> bool {
    fs.upper.get(dir, &s(name)).map(|n| n.is_whiteout()).unwrap_or(false)
}

#[test]
fn flags_validation() {
    assert_eq!(validate_flags(0), Ok(()));
    assert_eq!(validate_flags(RENAME_NOREPLACE), Ok(()));
    assert_eq!(validate_flags(RENAME_EXCHANGE), Ok(()));
    assert_eq!(validate_flags(RENAME_WHITEOUT), Ok(()));
    assert_eq!(validate_flags(RENAME_NOREPLACE | RENAME_WHITEOUT), Ok(()));
    assert_eq!(validate_flags(RENAME_EXCHANGE | RENAME_NOREPLACE), Err(EINVAL));
    assert_eq!(validate_flags(RENAME_EXCHANGE | RENAME_WHITEOUT), Err(EINVAL));
    assert_eq!(validate_flags(8), Err(EINVAL));
}

#[test]
fn name_checks() {
    assert_eq!(check_name("a.txt"), Ok(()));
    assert_eq!(check_name(""), Err(ENOENT));
    assert_eq!(check_name("a/b"), Err(EINVAL));
    assert_eq!(check_name(&"x".repeat(255)), Ok(()));
    assert_eq!(check_name(&"x".repeat(256)), Err(ENAMETOOLONG));
}

#[test]
fn rename_rejects_bad_names() {
    let mut up = Layer::new();
    up.insert_name(ROOT, s("a"), Node::file(10, "a"));
    let mut fs = union_of(up, Layer::new());
    assert_eq!(fs.rename2(ROOT, "a", ROOT, "", 0), Err(ENOENT));
    assert_eq!(fs.rename2(ROOT, "a", ROOT, "d/b", 0), Err(EINVAL));
    assert_eq!(fs.rename2(ROOT, "a", ROOT, &"y".repeat(300), 0), Err(ENAMETOOLONG));
    assert_eq!(fs.rename2(ROOT, "a/", ROOT, "b", 0), Err(EINVAL));
    // the flags are checked first
    assert_eq!(fs.rename2(ROOT, "a", ROOT, "", 16), Err(EINVAL));
    assert_eq!(data(&fs, ROOT, "a"), Some(s("a")));
}

#[test]
fn lookup_whited_out_means_upper_marker() {
    let mut low = Layer::new();
    low.insert_name(ROOT, s("gone"), Node::file(10, "old"));
    let mut up = Layer::new();
    up.insert_name(ROOT, s("gone"), Node::whiteout());
    let fs = union_of(up, low);
    assert!(matches!(fs.lookup(ROOT, &s("gone")), Resolved::WhitedOut));
    assert!(upper_whiteout(&fs, ROOT, "gone"));
    assert!(matches!(fs.lookup(ROOT, &s("none")), Resolved::NotPresent));
    assert!(fs.lower_has(ROOT, &s("gone")));
}

#[test]
fn lookup_prefers_upper_then_first_lower() {
    let mut l1 = Layer::new();
    l1.insert_name(ROOT, s("f"), Node::file(10, "one"));
    let mut l2 = Layer::new();
    l2.insert_name(ROOT, s("f"), Node::file(11, "two"));
    l2.insert_name(ROOT, s("g"), Node::file(12, "deep"));
    let fs = Overlay::from_layers(Layer::new(), vec![l1, l2]);
    match fs.lookup(ROOT, &s("f")) {
        Resolved::Present(layer, n) => {
            assert_eq!(layer, 1);
            assert_eq!(n.data, "one");
        }
        _ => panic!("f should be present"),
    }
    match fs.lookup(ROOT, &s("g")) {
        Resolved::Present(layer, _) => assert_eq!(layer, 2),
        _ => panic!("g should be present"),
    }
}

#[test]
fn copy_up_materializes_lower_entry() {
    let mut low = Layer::new();
    low.insert_name(ROOT, s("f"), Node::file(10, "lower"));
    let mut fs = union_of(Layer::new(), low);
    assert!(fs.upper.get(ROOT, &s("f")).is_none());
    assert_eq!(fs.copy_up(ROOT, &s("f")), Ok(()));
    assert_eq!(fs.upper.get(ROOT, &s("f")).unwrap().data, "lower");
    assert!(matches!(fs.lookup(ROOT, &s("f")), Resolved::Present(0, _)));
    assert_eq!(fs.copy_up(ROOT, &s("missing")), Err(ENOENT));
}

#[test]
fn plain_rename_without_lower_leaves_no_whiteout() {
    let mut up = Layer::new();
    up.insert_name(ROOT, s("a"), Node::file(10, "x"));
    let mut fs = union_of(up, Layer::new());
    assert_eq!(fs.rename2(ROOT, "a", ROOT, "b", 0), Ok(()));
    assert!(fs.upper.get(ROOT, &s("a")).is_none());
    assert_eq!(data(&fs, ROOT, "b"), Some(s("x")));
}

#[test]
fn rename_of_lower_only_entry_copies_up_and_whites_out() {
    let mut low = Layer::new();
    low.insert_name(ROOT, s("a"), Node::file(10, "lower"));
    let mut fs = union_of(Layer::new(), low);
    assert_eq!(fs.rename2(ROOT, "a", ROOT, "b", 0), Ok(()));
    assert_eq!(fs.upper.get(ROOT, &s("b")).unwrap().data, "lower");
    assert!(upper_whiteout(&fs, ROOT, "a"));
    assert!(matches!(fs.lookup(ROOT, &s("a")), Resolved::WhitedOut));
    assert_eq!(fs.lowers[0].get(ROOT, &s("a")).unwrap().data, "lower");
}

#[test]
fn exchange_copies_up_lower_side() {
    let mut low = Layer::new();
    low.insert_name(ROOT, s("b"), Node::file(11, "lower b"));
    let mut up = Layer::new();
    up.insert_name(ROOT, s("a"), Node::file(10, "upper a"));
    let mut fs = union_of(up, low);
    assert_eq!(fs.rename2(ROOT, "a", ROOT, "b", RENAME_EXCHANGE), Ok(()));
    assert_eq!(fs.upper.get(ROOT, &s("a")).unwrap().data, "lower b");
    assert_eq!(fs.upper.get(ROOT, &s("b")).unwrap().data, "upper a");
    assert_eq!(fs.lowers[0].get(ROOT, &s("b")).unwrap().data, "lower b");
}

#[test]
fn exchange_rejects_whited_out_destination() {
    let mut low = Layer::new();
    low.insert_name(ROOT, s("b"), Node::file(11, "lower b"));
    let mut up = Layer::new();
    up.insert_name(ROOT, s("a"), Node::file(10, "a"));
    up.insert_name(ROOT, s("b"), Node::whiteout());
    let mut fs = union_of(up, low);
    assert_eq!(fs.rename2(ROOT, "a", ROOT, "b", RENAME_EXCHANGE), Err(ENOENT));
    assert_eq!(data(&fs, ROOT, "a"), Some(s("a")));
    assert!(upper_whiteout(&fs, ROOT, "b"));
}

#[test]
fn scenario_exchange_rejects_missing_dst() {
    let mut up = Layer::new();
    up.insert_name(ROOT, s("file1.txt"), Node::file(10, "a"));
    let mut fs = union_of(up, Layer::new());
    assert_eq!(fs.rename2(ROOT, "file1.txt", ROOT, "file2.txt", RENAME_EXCHANGE), Err(ENOENT));
    assert_eq!(data(&fs, ROOT, "file1.txt"), Some(s("a")));
    assert!(fs.upper.get(ROOT, &s("file2.txt")).is_none());
    assert_eq!(fs.upper.entries.len(), 1);
}

#[test]
fn scenario_invalid_flag_combo_changes_nothing() {
    let mut up = Layer::new();
    up.insert_name(ROOT, s("x"), Node::file(10, "1"));
    up.insert_name(ROOT, s("y"), Node::file(11, "2"));
    let mut fs = union_of(up, Layer::new());
    assert_eq!(fs.rename2(ROOT, "x", ROOT, "y", RENAME_EXCHANGE | RENAME_NOREPLACE), Err(EINVAL));
    assert_eq!(data(&fs, ROOT, "x"), Some(s("1")));
    assert_eq!(data(&fs, ROOT, "y"), Some(s("2")));
    // even when the source is missing, the flags decide first
    assert_eq!(fs.rename2(ROOT, "zz", ROOT, "y", RENAME_EXCHANGE | RENAME_NOREPLACE), Err(EINVAL));
}

#[test]
fn noreplace_against_lower_only_destination() {
    let mut low = Layer::new();
    low.insert_name(ROOT, s("b"), Node::file(11, "lower"));
    let mut up = Layer::new();
    up.insert_name(ROOT, s("a"), Node::file(10, "a"));
    let mut fs = union_of(up, low);
    assert_eq!(fs.rename2(ROOT, "a", ROOT, "b", RENAME_NOREPLACE), Err(EEXIST));
    assert_eq!(data(&fs, ROOT, "b"), Some(s("lower")));
}

#[test]
fn whiteout_flag_onto_whited_out_name() {
    let mut low = Layer::new();
    low.insert_name(ROOT, s("b"), Node::file(11, "lower"));
    let mut up = Layer::new();
    up.insert_name(ROOT, s("a"), Node::file(10, "a"));
    up.insert_name(ROOT, s("b"), Node::whiteout());
    let mut fs = union_of(up, low);
    assert_eq!(fs.rename2(ROOT, "a", ROOT, "b", RENAME_WHITEOUT | RENAME_NOREPLACE), Ok(()));
    assert_eq!(data(&fs, ROOT, "b"), Some(s("a")));
    assert!(upper_whiteout(&fs, ROOT, "a"));
}

#[test]
fn same_path_is_noop_for_any_valid_flags() {
    let mut low = Layer::new();
    low.insert_name(ROOT, s("f"), Node::file(10, "lower"));
    let mut fs = union_of(Layer::new(), low);
    for flags in [0, RENAME_NOREPLACE, RENAME_EXCHANGE, RENAME_WHITEOUT, RENAME_WHITEOUT | RENAME_NOREPLACE] {
        assert_eq!(fs.rename2(ROOT, "f", ROOT, "f", flags), Ok(()));
        assert!(fs.upper.get(ROOT, &s("f")).is_none());
        assert_eq!(data(&fs, ROOT, "f"), Some(s("lower")));
    }
}

#[test]
fn rename_there_and_back_restores_union() {
    let mut low = Layer::new();
    low.insert_name(ROOT, s("a"), Node::file(10, "content"));
    let mut fs = union_of(Layer::new(), low);
    assert_eq!(fs.rename2(ROOT, "a", ROOT, "b", 0), Ok(()));
    assert_eq!(fs.rename2(ROOT, "b", ROOT, "a", 0), Ok(()));
    assert_eq!(data(&fs, ROOT, "a"), Some(s("content")));
    assert!(!matches!(fs.lookup(ROOT, &s("b")), Resolved::Present(_, _)));
}

#[test]
fn rename_keeps_link_count() {
    let mut up = Layer::new();
    up.insert_name(ROOT, s("one"), Node::file(10, "d"));
    up.insert_name(ROOT, s("two"), Node::file(10, "d"));
    let mut fs = union_of(up, Layer::new());
    assert_eq!(fs.rename2(ROOT, "one", ROOT, "three", 0), Ok(()));
    let count = ["one", "two", "three"]
        .iter()
        .filter(|n| fs.upper.get(ROOT, &s(n)).map(|x| x.ino == 10).unwrap_or(false))
        .count();
    assert_eq!(count, 2);
    // two names of one inode: the rename does nothing
    assert_eq!(fs.rename2(ROOT, "two", ROOT, "three", 0), Ok(()));
    assert!(fs.upper.get(ROOT, &s("two")).is_some());
}

#[test]
fn directory_over_file_is_enotdir() {
    let mut up = Layer::new();
    up.insert_name(ROOT, s("d"), Node::dir(20));
    up.insert_name(ROOT, s("f"), Node::file(10, "x"));
    let mut fs = union_of(up, Layer::new());
    assert_eq!(fs.rename2(ROOT, "d", ROOT, "f", 0), Err(ENOTDIR));
    assert_eq!(fs.rename2(ROOT, "f", ROOT, "d", 0), Err(EISDIR));
}

#[test]
fn lower_children_make_directory_nonempty() {
    let mut low = Layer::new();
    low.insert_name(ROOT, s("dst"), Node::dir(30));
    low.insert_name(30, s("child"), Node::file(31, "c"));
    let mut up = Layer::new();
    up.insert_name(ROOT, s("src"), Node::dir(20));
    let mut fs = union_of(up, low);
    assert!(fs.union_has_children(30));
    assert_eq!(fs.rename2(ROOT, "src", ROOT, "dst", 0), Err(ENOTEMPTY));
    // once the child is whited out the directory counts as empty
    fs.upper.insert_name(30, s("child"), Node::whiteout());
    assert!(!fs.union_has_children(30));
    assert_eq!(fs.rename2(ROOT, "src", ROOT, "dst", 0), Ok(()));
    match fs.lookup(ROOT, &s("dst")) {
        Resolved::Present(0, n) => assert_eq!(n.ino, 20),
        _ => panic!("dst should hold the moved directory"),
    }
}

#[test]
fn moved_directory_is_opaque() {
    let mut low = Layer::new();
    low.insert_name(ROOT, s("d"), Node::dir(20));
    low.insert_name(20, s("old"), Node::file(21, "lower child"));
    let mut up = Layer::new();
    up.insert_name(ROOT, s("d"), Node::dir(20));
    let mut fs = union_of(up, low);
    assert_eq!(data(&fs, 20, "old"), Some(s("lower child")));
    assert_eq!(fs.rename2(ROOT, "d", ROOT, "e", 0), Ok(()));
    assert!(fs.upper.is_opaque(20));
    assert!(matches!(fs.lookup(20, &s("old")), Resolved::NotPresent));
    assert!(upper_whiteout(&fs, ROOT, "d"));
}

#[test]
fn layer_raw_rename_flags() {
    let mut l = Layer::new();
    l.insert_name(ROOT, s("a"), Node::file(10, "a"));
    l.insert_name(ROOT, s("b"), Node::file(11, "b"));
    assert_eq!(l.raw_rename(ROOT, &s("a"), ROOT, &s("b"), RENAME_NOREPLACE), Err(EEXIST));
    assert_eq!(l.raw_rename(ROOT, &s("a"), ROOT, &s("b"), RENAME_EXCHANGE), Ok(()));
    assert_eq!(l.get(ROOT, &s("a")).unwrap().data, "b");
    assert_eq!(l.raw_rename(ROOT, &s("a"), ROOT, &s("c"), RENAME_WHITEOUT), Ok(()));
    let w = l.get(ROOT, &s("a")).unwrap();
    assert!(w.is_whiteout());
    assert_eq!(w.kind, FileKind::CharDevice);
    assert_eq!(w.rdev, 0);
    assert_eq!(w.mode, 0o644);
    assert_eq!(l.raw_rename(ROOT, &s("zz"), ROOT, &s("c"), 0), Err(ENOENT));
}

#[test]
fn hook_errno_touches_nothing() {
    let mut up = Layer::new();
    up.insert_name(ROOT, s("a"), Node::file(10, "a"));
    let mut m = MockLayer::new_from_passthrough(union_of(up, Layer::new()), RenameBehavior::Errno(5));
    assert_eq!(m.rename2(ROOT, "a", ROOT, "b", 0), Err(5));
    // the override comes before validation
    assert_eq!(m.rename2(ROOT, "a", ROOT, "b", RENAME_EXCHANGE | RENAME_NOREPLACE), Err(5));
    assert_eq!(data(m.inner(), ROOT, "a"), Some(s("a")));
    m.set_behavior(RenameBehavior::Forward);
    assert_eq!(m.rename2(ROOT, "a", ROOT, "b", 0), Ok(()));
    assert_eq!(data(m.inner(), ROOT, "b"), Some(s("a")));
    assert!(m.delay().is_none());
}

#[test]
fn hook_delay_then_forward() {
    let mut m = MockLayer::new(RenameBehavior::DelayOk(Duration::from_millis(3)));
    assert_eq!(m.delay(), Some(Duration::from_millis(3)));
    assert_eq!(m.rename2(ROOT, "missing", ROOT, "b", 0), Err(ENOENT));
    assert!(matches!(m.behavior(), RenameBehavior::DelayOk(_)));
}

#[test]
fn create_whiteout_marks_free_name_only() {
    let mut l = Layer::new();
    l.insert_name(ROOT, s("taken"), Node::file(10, "x"));
    assert_eq!(l.create_whiteout(ROOT, &s("taken")), Err(EEXIST));
    assert_eq!(l.get(ROOT, &s("taken")).unwrap().data, "x");
    assert_eq!(l.create_whiteout(ROOT, &s("free")), Ok(()));
    let w = l.get(ROOT, &s("free")).unwrap();
    assert!(w.is_whiteout());
    assert_eq!(w.mode, 0o644);
}
