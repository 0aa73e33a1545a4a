use diff_trees::{
    candidate_is_same, needs_contents, same_contents, strip_prefix, Diff, DiffEntry, DiffTag,
    DisplayDiffOpts, FileMeta, PathInfo,
};

/// A tree for the walks below: each path with `None` for a directory or the
/// file's contents, listed in the order a walk meets them (a directory
/// before its contents).
type Tree<'a> = Vec<(&'a str, Option<&'a str>)>;

fn components(path: &str) -> Vec<Vec<u8>> {
    path.split('/')
        .filter(|c| !c.is_empty())
        .map(|c| c.as_bytes().to_vec())
        .collect()
}

fn meta(dev: u64, ino: usize, contents: Option<&str>) -> FileMeta {
    FileMeta {
        dev,
        ino: ino as u64,
        is_dir: contents.is_none(),
        len: contents.map_or(0, |c| c.len() as u64),
    }
}

fn under(path: &str, dirs: &[String]) -> bool {
    dirs.iter().any(|d| path.starts_with(&format!("{d}/")))
}

/// Walks `old` and then `new` the way a directory walk would, pruning where
/// the diff says not to descend. Files of the old tree sit on device 1 and
/// those of the new tree on device 2, unless `shared` lists a path that is
/// the same object in both.
fn diff_walk(old: &Tree, new: &Tree, shared: &[&str]) -> Diff {
    let old_root = "/old";
    let new_root = "/new";
    let mut diff = Diff::new();
    let mut pruned: Vec<String> = Vec::new();
    for (ino, (path, contents)) in old.iter().enumerate() {
        if under(path, &pruned) {
            continue;
        }
        let full = components(&format!("{old_root}/{path}"));
        let relative = strip_prefix(full, &components(old_root)).unwrap();
        let old_meta = meta(1, ino, *contents);
        let candidate = new
            .iter()
            .position(|(p, _)| p == path)
            .map(|j| {
                if shared.contains(path) {
                    (old_meta, new[j].1)
                } else {
                    (meta(2, j, new[j].1), new[j].1)
                }
            });
        let mut same = false;
        if let Some((new_meta, new_contents)) = candidate {
            if needs_contents(&old_meta, &new_meta) {
                same = same_contents(
                    &contents.unwrap().as_bytes().to_vec(),
                    &new_contents.unwrap().as_bytes().to_vec(),
                );
            }
        }
        let inserted = candidate.map(|(m, _)| PathInfo::new(m, new_root.as_bytes().to_vec()));
        let descend = diff.record_removed(
            relative,
            PathInfo::new(old_meta, old_root.as_bytes().to_vec()),
            inserted,
            same,
        );
        if !descend {
            pruned.push(path.to_string());
        }
    }
    let mut pruned: Vec<String> = Vec::new();
    for (ino, (path, contents)) in new.iter().enumerate() {
        if under(path, &pruned) {
            continue;
        }
        let full = components(&format!("{new_root}/{path}"));
        let relative = strip_prefix(full, &components(new_root)).unwrap();
        let info = PathInfo::new(meta(2, ino, *contents), new_root.as_bytes().to_vec());
        if !diff.record_added(relative, info) {
            pruned.push(path.to_string());
        }
    }
    diff
}

fn pairs(diff: &Diff) -> Vec<(String, DiffTag)> {
    (0..diff.len())
        .map(|i| {
            let e: &DiffEntry = diff.entry(i);
            let parts: Vec<String> = e
                .relative()
                .iter()
                .map(|c| String::from_utf8(c.clone()).unwrap())
                .collect();
            (parts.join("/"), e.tag())
        })
        .collect()
}

fn text(diff: &Diff) -> String {
    String::from_utf8(diff.to_text()).unwrap()
}

fn complex_old() -> Tree<'static> {
    vec![
        ("a", None),
        ("a/1", Some("1")),
        ("a/2", Some("2")),
        ("b", None),
        ("b/1", Some("1")),
        ("b/2", Some("2")),
        ("c", None),
        ("c/1", Some("1")),
        ("c/2", Some("2")),
    ]
}

#[test]
fn test_same_contents() {
    let old = vec![("puppy", Some("puppy"))];
    let new = vec![("puppy", Some("puppy"))];
    let diff = diff_walk(&old, &new, &[]);
    assert_eq!(pairs(&diff), vec![("puppy".to_string(), DiffTag::Equal)]);
}

#[test]
fn test_different_contents() {
    let old = vec![("puppy", Some("puppy"))];
    let new = vec![("puppy", Some("doggy"))];
    let diff = diff_walk(&old, &new, &[]);
    assert_eq!(pairs(&diff), vec![("puppy".to_string(), DiffTag::Replace)]);
}

#[test]
fn test_complex() {
    let new = vec![
        ("a", None),
        ("a/1", Some("1")),
        ("a/2", Some("2")),
        ("b", None),
        ("b/1", Some("1x")),
        ("b/2", Some("2x")),
    ];
    let diff = diff_walk(&complex_old(), &new, &[]);
    assert_eq!(
        pairs(&diff),
        vec![
            ("a".to_string(), DiffTag::Replace),
            ("a/1".to_string(), DiffTag::Equal),
            ("a/2".to_string(), DiffTag::Equal),
            ("b".to_string(), DiffTag::Replace),
            ("b/1".to_string(), DiffTag::Replace),
            ("b/2".to_string(), DiffTag::Replace),
            ("c".to_string(), DiffTag::Delete),
        ]
    );
}

#[test]
fn test_display() {
    let new = vec![
        ("a", None),
        ("a/1", Some("1")),
        ("a/2", Some("2")),
        ("b", None),
        ("b/1", Some("1x")),
        ("b/2", Some("2x")),
        ("d", None),
        ("d/1", Some("1")),
        ("d/2", Some("2")),
    ];
    let diff = diff_walk(&complex_old(), &new, &[]);
    assert_eq!(text(&diff), "~ b/1\n~ b/2\n- c/\n+ d/\n");
}

#[test]
fn identical_file_trees_are_all_equal_and_render_nothing() {
    let tree = vec![("x", Some("one")), ("y", Some("two")), ("z", Some(""))];
    let diff = diff_walk(&tree, &tree, &[]);
    assert_eq!(diff.len(), 3);
    for (_, tag) in pairs(&diff) {
        assert_eq!(tag, DiffTag::Equal);
    }
    assert_eq!(text(&diff), "");
    assert_eq!(diff.display(DisplayDiffOpts::new().color(true)), Vec::<u8>::new());
}

#[test]
fn same_length_different_bytes_is_replace() {
    let old = vec![("f", Some("abcd"))];
    let new = vec![("f", Some("abce"))];
    let diff = diff_walk(&old, &new, &[]);
    assert_eq!(pairs(&diff), vec![("f".to_string(), DiffTag::Replace)]);
    assert_eq!(text(&diff), "~ f\n");
}

#[test]
fn file_only_on_one_side() {
    let old = vec![("gone", Some("x"))];
    let new = vec![("added", Some("y"))];
    let diff = diff_walk(&old, &new, &[]);
    assert_eq!(
        pairs(&diff),
        vec![
            ("added".to_string(), DiffTag::Insert),
            ("gone".to_string(), DiffTag::Delete),
        ]
    );
    assert_eq!(text(&diff), "+ added\n- gone\n");
    let gone = diff.get(&components("gone")).unwrap();
    assert!(gone.deleted().is_some());
    assert!(gone.inserted().is_none());
    let added = diff.get(&components("added")).unwrap();
    assert!(added.deleted().is_none());
    assert_eq!(added.inserted().unwrap().base(), &b"/new".to_vec());
}

#[test]
fn deleted_directory_is_one_entry() {
    let old = vec![("d", None), ("d/e", None), ("d/e/f", Some("1")), ("d/g", Some("2"))];
    let new: Tree = vec![];
    let diff = diff_walk(&old, &new, &[]);
    assert_eq!(pairs(&diff), vec![("d".to_string(), DiffTag::Delete)]);
    assert_eq!(text(&diff), "- d/\n");
}

#[test]
fn inserted_directory_is_one_entry() {
    let old: Tree = vec![];
    let new = vec![("d", None), ("d/e", Some("1")), ("d/f", None), ("d/f/g", Some("2"))];
    let diff = diff_walk(&old, &new, &[]);
    assert_eq!(pairs(&diff), vec![("d".to_string(), DiffTag::Insert)]);
    assert_eq!(text(&diff), "+ d/\n");
}

#[test]
fn order_does_not_depend_on_walk_order() {
    let old = vec![("b", Some("1")), ("a", Some("2")), ("a-b", Some("3")), ("c", None)];
    let new = vec![("c", None), ("c/x", Some("4")), ("a-b", Some("3")), ("b", Some("5"))];
    let mut old_rev = old.clone();
    old_rev.reverse();
    let new_rev = vec![("b", Some("5")), ("a-b", Some("3")), ("c", None), ("c/x", Some("4"))];
    let one = diff_walk(&old, &new, &[]);
    let two = diff_walk(&old_rev, &new_rev, &[]);
    assert_eq!(pairs(&one), pairs(&two));
    assert_eq!(
        pairs(&one),
        vec![
            ("a".to_string(), DiffTag::Delete),
            ("a-b".to_string(), DiffTag::Equal),
            ("b".to_string(), DiffTag::Replace),
            ("c".to_string(), DiffTag::Replace),
            ("c/x".to_string(), DiffTag::Insert),
        ]
    );
}

#[test]
fn components_order_before_longer_names() {
    let old: Tree = vec![];
    let new = vec![("a-b", Some("1")), ("a", None)];
    let diff = diff_walk(&old, &new, &[]);
    assert_eq!(
        pairs(&diff),
        vec![("a".to_string(), DiffTag::Insert), ("a-b".to_string(), DiffTag::Insert)]
    );
}

#[test]
fn hard_link_is_equal_without_hashing() {
    let old_meta = FileMeta { dev: 7, ino: 42, is_dir: false, len: 5 };
    let new_meta = old_meta;
    assert!(!needs_contents(&old_meta, &new_meta));
    // Contents reported as different are never consulted for one object.
    assert_eq!(candidate_is_same(&old_meta, &new_meta, false), DiffTag::Equal);
    let old = vec![("link", Some("aaaaa"))];
    let new = vec![("link", Some("bbbbb"))];
    let diff = diff_walk(&old, &new, &["link"]);
    assert_eq!(pairs(&diff), vec![("link".to_string(), DiffTag::Equal)]);
}

#[test]
fn directories_in_both_trees_are_replace() {
    let dir_old = FileMeta { dev: 1, ino: 1, is_dir: true, len: 4096 };
    let dir_new = FileMeta { dev: 2, ino: 1, is_dir: true, len: 4096 };
    assert!(!needs_contents(&dir_old, &dir_new));
    assert_eq!(candidate_is_same(&dir_old, &dir_new, true), DiffTag::Replace);
    let file = FileMeta { dev: 2, ino: 3, is_dir: false, len: 4096 };
    assert_eq!(candidate_is_same(&dir_old, &file, true), DiffTag::Replace);
}

#[test]
fn different_lengths_are_replace_without_hashing() {
    let a = FileMeta { dev: 1, ino: 1, is_dir: false, len: 3 };
    let b = FileMeta { dev: 1, ino: 2, is_dir: false, len: 4 };
    assert!(!needs_contents(&a, &b));
    assert_eq!(candidate_is_same(&a, &b, true), DiffTag::Replace);
    let c = FileMeta { dev: 1, ino: 3, is_dir: false, len: 3 };
    assert!(needs_contents(&a, &c));
    assert_eq!(candidate_is_same(&a, &c, true), DiffTag::Equal);
    assert_eq!(candidate_is_same(&a, &c, false), DiffTag::Replace);
}

#[test]
fn same_contents_compares_digests() {
    assert!(same_contents(&b"puppy".to_vec(), &b"puppy".to_vec()));
    assert!(!same_contents(&b"puppy".to_vec(), &b"doggy".to_vec()));
    assert!(same_contents(&Vec::new(), &Vec::new()));
    assert!(!same_contents(&Vec::new(), &b"\0".to_vec()));
}

#[test]
fn strip_prefix_removes_root_components() {
    let rel = strip_prefix(components("/tmp/old/a/b"), &components("/tmp/old")).unwrap();
    assert_eq!(rel, components("a/b"));
    let same = strip_prefix(components("/tmp/old"), &components("/tmp/old")).unwrap();
    assert!(same.is_empty());
}

#[test]
fn strip_prefix_mismatch_is_error() {
    let err = strip_prefix(components("/tmp/other/a"), &components("/tmp/old")).unwrap_err();
    assert_eq!(err.path(), &components("/tmp/other/a"));
    assert_eq!(err.prefix(), &components("/tmp/old"));
    // A component that only starts with the root's last component does not match.
    assert!(strip_prefix(components("/tmp/older/a"), &components("/tmp/old")).is_err());
    assert!(strip_prefix(components("/tmp"), &components("/tmp/old")).is_err());
}

#[test]
fn overwrite_returns_previous_entry() {
    let mut diff = Diff::new();
    let info = |dev| PathInfo::new(FileMeta { dev, ino: 1, is_dir: false, len: 1 }, b"/r".to_vec());
    let first = DiffEntry {
        relative: components("p"),
        tag: DiffTag::Delete,
        deleted: Some(info(1)),
        inserted: None,
    };
    assert!(diff.insert_overwrite(first).is_none());
    let second = DiffEntry {
        relative: components("p"),
        tag: DiffTag::Insert,
        deleted: None,
        inserted: Some(info(2)),
    };
    let prev = diff.insert_overwrite(second).unwrap();
    assert_eq!(prev.tag(), DiffTag::Delete);
    assert_eq!(diff.len(), 1);
    assert_eq!(diff.entry(0).tag(), DiffTag::Insert);
    assert_eq!(diff.into_entries().len(), 1);
}

#[test]
fn markers_and_options() {
    assert_eq!(DiffTag::Equal.marker(), ' ');
    assert_eq!(DiffTag::Delete.marker(), '-');
    assert_eq!(DiffTag::Replace.marker(), '~');
    assert_eq!(DiffTag::Insert.marker(), '+');
    assert!(!DisplayDiffOpts::new().color);
    assert!(DisplayDiffOpts::new().color(true).color);
}

#[test]
fn colored_output_styles_each_line() {
    let old = vec![("gone", Some("x")), ("kept", Some("1"))];
    let new = vec![("added", Some("y")), ("kept", Some("2"))];
    let diff = diff_walk(&old, &new, &[]);
    let colored = String::from_utf8(diff.display(DisplayDiffOpts::new().color(true))).unwrap();
    assert_eq!(
        colored,
        "\x1b[32m+ added\x1b[0m\n\x1b[31m- gone\x1b[0m\n\x1b[33m~ kept\x1b[0m\n"
    );
    assert_eq!(text(&diff), "+ added\n- gone\n~ kept\n");
}

#[test]
fn entry_line_and_directory_flag() {
    let old = vec![("d", None), ("d/f", Some("1"))];
    let new = vec![("d", Some("now a file"))];
    let diff = diff_walk(&old, &new, &[]);
    let d = diff.get(&components("d")).unwrap();
    assert_eq!(d.tag(), DiffTag::Replace);
    // The new side decides: `d` is now a file, so its line is shown.
    assert!(!d.is_dir());
    assert_eq!(d.format_line(), Some(b"~ d".to_vec()));
    assert_eq!(d.deleted().unwrap().metadata().is_dir, true);
    let f = diff.get(&components("d/f")).unwrap();
    assert_eq!(f.tag(), DiffTag::Delete);
    assert_eq!(text(&diff), "~ d\n- d/f\n");
}
