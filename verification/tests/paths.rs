use sshsync::connection::classify_args;
use sshsync::connection::parse_host_spec;
use sshsync::connection::ConfigError;
use sshsync::connection::Connection;
use sshsync::connection::Direction;
use sshsync::connection::HostSpec;
use sshsync::connection::PathProvenance;
use sshsync::path::AbsPath;

fn bytes(s: &str) -> Vec<u8> {
    s.as_bytes().to_vec()
}

fn abs(s: &str) -> AbsPath {
    let root = AbsPath::root();
    AbsPath::resolve(&bytes(s), &root, &root)
}

fn comps(p: &AbsPath) -> Vec<String> {
    p.comps
        .iter()
        .map(|c| String::from_utf8(c.clone()).unwrap())
        .collect()
}

#[test]
fn resolve_absolute_input() {
    let home = abs("/home/u");
    let cwd = abs("/work");
    let p = AbsPath::resolve(&bytes("/a/b/c"), &home, &cwd);
    assert_eq!(comps(&p), vec!["a", "b", "c"]);
}

#[test]
fn resolve_relative_against_cwd() {
    let home = abs("/home/u");
    let cwd = abs("/work/dir");
    let p = AbsPath::resolve(&bytes("x/y"), &home, &cwd);
    assert_eq!(comps(&p), vec!["work", "dir", "x", "y"]);
}

#[test]
fn resolve_tilde_against_home() {
    let home = abs("/home/u");
    let cwd = abs("/work");
    let p = AbsPath::resolve(&bytes("~/proj"), &home, &cwd);
    assert_eq!(comps(&p), vec!["home", "u", "proj"]);
    let just_tilde = AbsPath::resolve(&bytes("~"), &home, &cwd);
    assert_eq!(comps(&just_tilde), vec!["home", "u"]);
}

#[test]
fn resolve_drops_dot_and_pops_dotdot() {
    let home = abs("/home/u");
    let cwd = abs("/work");
    let p = AbsPath::resolve(&bytes("/a/./b/../c//d"), &home, &cwd);
    assert_eq!(comps(&p), vec!["a", "c", "d"]);
    let above_root = AbsPath::resolve(&bytes("/../x"), &home, &cwd);
    assert_eq!(comps(&above_root), vec!["x"]);
}

#[test]
fn resolve_is_idempotent() {
    // Resolving the rendering of an already-resolved path changes nothing,
    // whatever home and base are used the second time.
    let home = abs("/home/u");
    let cwd = abs("/work");
    let once = AbsPath::resolve(&bytes("~/p/../q/r"), &home, &cwd);
    let other_home = abs("/other");
    let twice = AbsPath::resolve(&once.to_bytes(), &other_home, &other_home);
    assert!(once.path_eq(&twice));
}

#[test]
fn render_root_and_nested() {
    assert_eq!(AbsPath::root().to_bytes(), bytes("/"));
    assert_eq!(abs("/home/u/proj").to_bytes(), bytes("/home/u/proj"));
}

#[test]
fn ancestors_are_proper_prefixes_root_first() {
    let p = abs("/home/u/proj");
    let a = p.ancestors();
    let rendered: Vec<Vec<u8>> = a.iter().map(|x| x.to_bytes()).collect();
    assert_eq!(rendered, vec![bytes("/"), bytes("/home"), bytes("/home/u")]);
}

#[test]
fn strip_prefix_and_file_name() {
    let p = abs("/home/u/proj/sub/f.txt");
    let base = abs("/home/u");
    let rel = p.strip_prefix(&base).unwrap();
    let rel_names: Vec<Vec<u8>> = rel;
    assert_eq!(rel_names, vec![bytes("proj"), bytes("sub"), bytes("f.txt")]);
    assert!(abs("/other").strip_prefix(&base).is_none());
    assert_eq!(p.file_name().unwrap(), &bytes("f.txt"));
    assert!(AbsPath::root().file_name().is_none());
}

#[test]
fn connection_infers_remote_under_remote_home() {
    let local_home = abs("/home/u");
    let cwd = abs("/home/u");
    let remote_home = abs("/home/r");
    let c = Connection::new(
        None,
        &bytes("/home/u/proj"),
        &local_home,
        &cwd,
        Some(&remote_home),
    )
    .unwrap();
    assert_eq!(c.local_path.to_bytes(), bytes("/home/u/proj"));
    match &c.remote_path {
        PathProvenance::Inferred(p) => assert_eq!(p.to_bytes(), bytes("/home/r/proj")),
        PathProvenance::UserProvided(_) => panic!("expected an inferred destination"),
    }
}

#[test]
fn connection_keeps_user_provided_remote() {
    let local_home = abs("/home/u");
    let cwd = abs("/home/u");
    let remote_home = abs("/home/r");
    let c = Connection::new(
        Some(&bytes("~/dest")),
        &bytes("/home/u/proj"),
        &local_home,
        &cwd,
        Some(&remote_home),
    )
    .unwrap();
    match &c.remote_path {
        PathProvenance::UserProvided(p) => assert_eq!(p.to_bytes(), bytes("/home/r/dest")),
        PathProvenance::Inferred(_) => panic!("expected a user-provided destination"),
    }
}

#[test]
fn connection_rejects_local_outside_home() {
    let local_home = abs("/home/u");
    let cwd = abs("/");
    let remote_home = abs("/home/r");
    let e = Connection::new(None, &bytes("/srv/data"), &local_home, &cwd, Some(&remote_home))
        .unwrap_err();
    assert_eq!(e, ConfigError::OutsideLocalHome);
}

#[test]
fn connection_rejects_missing_remote_home() {
    let local_home = abs("/home/u");
    let cwd = abs("/");
    let e = Connection::new(None, &bytes("/home/u/proj"), &local_home, &cwd, None).unwrap_err();
    assert_eq!(e, ConfigError::NoRemoteHome);
    let e2 = Connection::new(
        Some(&bytes("~/dest")),
        &bytes("/home/u/proj"),
        &local_home,
        &cwd,
        None,
    )
    .unwrap_err();
    assert_eq!(e2, ConfigError::NoRemoteHome);
}

#[test]
fn connection_rejects_relative_remote() {
    let local_home = abs("/home/u");
    let cwd = abs("/");
    let remote_home = abs("/home/r");
    let e = Connection::new(
        Some(&bytes("dest/dir")),
        &bytes("/home/u/proj"),
        &local_home,
        &cwd,
        Some(&remote_home),
    )
    .unwrap_err();
    assert_eq!(e, ConfigError::RemoteNotAbsolute);
}

#[test]
fn calculate_remote_path_rebases_descendants() {
    let local_home = abs("/home/u");
    let cwd = abs("/home/u");
    let remote_home = abs("/home/r");
    let c = Connection::new(
        None,
        &bytes("/home/u/proj"),
        &local_home,
        &cwd,
        Some(&remote_home),
    )
    .unwrap();
    let dest = c.calculate_remote_path(&abs("/home/u/proj/sub/a.txt"));
    assert_eq!(dest.to_bytes(), bytes("/home/r/proj/sub/a.txt"));
}

#[test]
fn classify_bare_host_is_upload() {
    let plan = classify_args(&bytes("proj"), &bytes("myhost")).unwrap();
    assert_eq!(plan.remote_host, bytes("myhost"));
    assert!(plan.remote_path.is_none());
    assert_eq!(plan.local_path, bytes("proj"));
    assert_eq!(plan.direction, Direction::Upload);
}

#[test]
fn classify_host_colon_path_each_side() {
    let up = classify_args(&bytes("proj"), &bytes("h:/dest")).unwrap();
    assert_eq!(up.remote_host, bytes("h"));
    assert_eq!(up.remote_path.unwrap(), bytes("/dest"));
    assert_eq!(up.direction, Direction::Upload);

    let down = classify_args(&bytes("h:/src"), &bytes("proj")).unwrap();
    assert_eq!(down.remote_host, bytes("h"));
    assert_eq!(down.remote_path.unwrap(), bytes("/src"));
    assert_eq!(down.local_path, bytes("proj"));
    assert_eq!(down.direction, Direction::Download);
}

#[test]
fn classify_rejects_colon_on_both_sides() {
    let e = classify_args(&bytes("a:/x"), &bytes("b:/y")).unwrap_err();
    assert_eq!(e, ConfigError::ColonOnBothSides);
}

#[test]
fn host_spec_splits_user_at_address() {
    match parse_host_spec(&bytes("alice@10.0.0.7")) {
        HostSpec::UserAt { user, host } => {
            assert_eq!(user, bytes("alice"));
            assert_eq!(host, bytes("10.0.0.7"));
        }
        HostSpec::Alias { .. } => panic!("expected a user@address split"),
    }
    match parse_host_spec(&bytes("myalias")) {
        HostSpec::Alias { name } => assert_eq!(name, bytes("myalias")),
        HostSpec::UserAt { .. } => panic!("expected an alias"),
    }
}
