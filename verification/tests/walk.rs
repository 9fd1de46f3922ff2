use sshsync::exclusion::keep_nonempty;
use sshsync::exclusion::list_others_command;
use sshsync::exclusion::list_unignored_command;
use sshsync::exclusion::ExclusionSet;
use sshsync::path::split_from;
use sshsync::path::AbsPath;
use sshsync::plan::entry_tasks;
use sshsync::tree::walk_tree;
use sshsync::tree::DirEntry;
use sshsync::tree::EntryKind;
use sshsync::tree::FsTree;

fn bytes(s: &str) -> Vec<u8> {
    s.as_bytes().to_vec()
}

fn abs(s: &str) -> AbsPath {
    let root = AbsPath::root();
    AbsPath::resolve(&bytes(s), &root, &root)
}

fn file(name: &str, size: u64, mode: u32) -> FsTree {
    FsTree::File {
        name: bytes(name),
        size,
        mode,
    }
}

fn dir(name: &str, children: Vec<FsTree>) -> FsTree {
    FsTree::Dir {
        name: bytes(name),
        children,
    }
}

fn rendered_paths(entries: &[DirEntry]) -> Vec<Vec<u8>> {
    entries.iter().map(|e| e.path.to_bytes()).collect()
}

#[test]
fn nul_listing_drops_empty_tokens() {
    let out = bytes("a.txt\0sub/b.txt\0\0");
    let tokens = keep_nonempty(&split_from(&out, 0, 0));
    assert_eq!(tokens, vec![bytes("a.txt"), bytes("sub/b.txt")]);
    let empty = keep_nonempty(&split_from(&bytes(""), 0, 0));
    assert!(empty.is_empty());
}

#[test]
fn exclusion_is_listing_difference() {
    // Fixture: A tracked, B gitignored, C untracked and unignored.
    // `--others` reports B and C; `--others --exclude-standard` reports C.
    let root = abs("/repo");
    let others = bytes("b.log\0c.txt\0");
    let unignored = bytes("c.txt\0");
    let ex = ExclusionSet::build(&root, &others, &unignored);
    assert_eq!(ex.paths.len(), 1);
    assert_eq!(ex.paths[0].to_bytes(), bytes("/repo/b.log"));
    assert!(ex.contains(&abs("/repo/b.log")));
    assert!(!ex.contains(&abs("/repo/c.txt")));
    assert!(!ex.contains(&abs("/repo/a.txt")));
}

#[test]
fn exclusion_of_non_repo_is_empty() {
    // A root that is no repository lists nothing on either side.
    let root = abs("/plain");
    let ex = ExclusionSet::build(&root, &bytes(""), &bytes(""));
    assert!(ex.paths.is_empty());
    assert!(!ex.contains(&abs("/plain/x")));
}

#[test]
fn walk_yields_every_node_exactly_once() {
    let tree = dir(
        "proj",
        vec![
            file("a.txt", 3, 0o644),
            dir(
                "sub",
                vec![file("inner.txt", 1, 0o600), dir("empty", vec![])],
            ),
            file("z.bin", 9, 0o755),
        ],
    );
    let root = abs("/home/u/proj");
    let out = walk_tree(&root, &tree, &ExclusionSet::empty());
    let mut got = rendered_paths(&out);
    assert_eq!(
        got,
        vec![
            bytes("/home/u/proj"),
            bytes("/home/u/proj/a.txt"),
            bytes("/home/u/proj/sub"),
            bytes("/home/u/proj/sub/inner.txt"),
            bytes("/home/u/proj/sub/empty"),
            bytes("/home/u/proj/z.bin"),
        ]
    );
    got.sort();
    got.dedup();
    assert_eq!(got.len(), out.len());
    assert_eq!(out[0].kind, EntryKind::Dir);
    assert_eq!(out[1].kind, EntryKind::File);
    assert_eq!(out[1].size, 3);
    assert_eq!(out[1].mode, 0o644);
}

#[test]
fn walk_skips_excluded_files_but_never_directories() {
    let tree = dir(
        "proj",
        vec![
            file("keep.txt", 1, 0o644),
            dir(
                "ignored_dir",
                vec![file("wanted.txt", 1, 0o644), file("dropped.txt", 1, 0o644)],
            ),
        ],
    );
    let root = abs("/r");
    let others = bytes("ignored_dir/dropped.txt\0");
    let ex = ExclusionSet::build(&root, &others, &bytes(""));
    let out = walk_tree(&root, &tree, &ex);
    let got = rendered_paths(&out);
    // The directory is still yielded and descended; only the listed file
    // is dropped, and an unignored file beneath it is still found.
    assert_eq!(
        got,
        vec![
            bytes("/r"),
            bytes("/r/keep.txt"),
            bytes("/r/ignored_dir"),
            bytes("/r/ignored_dir/wanted.txt"),
        ]
    );
}

#[test]
fn walk_never_yields_dot_entries() {
    let tree = dir(
        "proj",
        vec![
            file(".", 0, 0),
            file("..", 0, 0),
            dir(".", vec![file("hidden.txt", 1, 0o644)]),
            file("real.txt", 1, 0o644),
        ],
    );
    let root = abs("/r");
    let out = walk_tree(&root, &tree, &ExclusionSet::empty());
    assert_eq!(rendered_paths(&out), vec![bytes("/r"), bytes("/r/real.txt")]);
}

#[test]
fn entry_tasks_rebase_under_destination() {
    let tree = dir(
        "proj",
        vec![file("a.txt", 5, 0o644), dir("sub", vec![file("b.txt", 2, 0o600)])],
    );
    let src = abs("/home/u/proj");
    let dst = abs("/home/r/proj");
    let entries = walk_tree(&src, &tree, &ExclusionSet::empty());
    let (dirs, tasks) = entry_tasks(&src, &dst, &entries);
    let dir_paths: Vec<Vec<u8>> = dirs.iter().map(|d| d.to_bytes()).collect();
    assert_eq!(
        dir_paths,
        vec![bytes("/home/r/proj"), bytes("/home/r/proj/sub")]
    );
    assert_eq!(tasks.len(), 2);
    assert_eq!(tasks[0].source.to_bytes(), bytes("/home/u/proj/a.txt"));
    assert_eq!(tasks[0].dest.to_bytes(), bytes("/home/r/proj/a.txt"));
    assert_eq!(tasks[0].mode, 0o644);
    assert_eq!(tasks[0].length, 5);
    assert_eq!(tasks[1].dest.to_bytes(), bytes("/home/r/proj/sub/b.txt"));
}

#[test]
fn listing_commands_have_exact_shape() {
    let d = abs("/home/r/proj");
    assert_eq!(
        list_others_command(&d),
        bytes("cd /home/r/proj && git ls-files --others -z")
    );
    assert_eq!(
        list_unignored_command(&d),
        bytes("cd /home/r/proj && git ls-files --others --exclude-standard -z")
    );
}
