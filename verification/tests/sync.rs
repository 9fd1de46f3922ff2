use sshsync::connection::ConfigError;
use sshsync::connection::Connection;
use sshsync::connection::PathProvenance;
use sshsync::exclusion::ExclusionSet;
use sshsync::gitsync::plan_status_sync;
use sshsync::gitsync::remote_checkout_command;
use sshsync::gitsync::remote_remove_command;
use sshsync::gitsync::DiffSyncCmd;
use sshsync::gitsync::DiffSyncError;
use sshsync::gitsync::DiffSyncEvent;
use sshsync::gitsync::DiffSyncState;
use sshsync::gitsync::GitDiffSync;
use sshsync::gitsync::GitStatus;
use sshsync::gitsync::GitStatusEntry;
use sshsync::gitsync::SyncAction;
use sshsync::path::AbsPath;
use sshsync::plan::entry_tasks;
use sshsync::plan::plan_download_root;
use sshsync::plan::plan_upload_root;
use sshsync::plan::PathStat;
use sshsync::sched::compute_bound;
use sshsync::sched::TransferScheduler;
use sshsync::transfer::file_transfer_steps;
use sshsync::transfer::perm_bits_of;
use sshsync::transfer::perm_mode_of;
use sshsync::transfer::TransferStep;
use sshsync::transfer::TransferTask;
use sshsync::tree::walk_tree;
use sshsync::tree::FsTree;

fn bytes(s: &str) -> Vec<u8> {
    s.as_bytes().to_vec()
}

fn abs(s: &str) -> AbsPath {
    let root = AbsPath::root();
    AbsPath::resolve(&bytes(s), &root, &root)
}

fn task(src: &str, dst: &str, mode: u32, length: u64) -> TransferTask {
    TransferTask {
        source: abs(src),
        dest: abs(dst),
        mode,
        length,
    }
}

#[test]
fn perm_bits_round_trip_0644() {
    let b = perm_bits_of(0o644);
    assert!(b.read_owner && b.write_owner && !b.exec_owner);
    assert!(b.read_group && !b.write_group && !b.exec_group);
    assert!(b.read_other && !b.write_other && !b.exec_other);
    assert_eq!(perm_mode_of(&b), 0o644);
}

#[test]
fn perm_bits_round_trip_0755() {
    let b = perm_bits_of(0o755);
    assert!(b.read_owner && b.write_owner && b.exec_owner);
    assert!(b.read_group && !b.write_group && b.exec_group);
    assert!(b.read_other && !b.write_other && b.exec_other);
    assert_eq!(perm_mode_of(&b), 0o755);
}

#[test]
fn perm_bits_mask_high_bits() {
    // A full stat mode keeps only its nine low bits.
    assert_eq!(perm_mode_of(&perm_bits_of(0o100644)), 0o644);
}

#[test]
fn write_comes_before_chmod() {
    let t = task("/s/f", "/d/f", 0o600, 7);
    let steps = file_transfer_steps(&t);
    assert_eq!(steps.len(), 2);
    match &steps[0] {
        TransferStep::WriteFile {
            source,
            dest,
            length,
        } => {
            assert_eq!(source.to_bytes(), bytes("/s/f"));
            assert_eq!(dest.to_bytes(), bytes("/d/f"));
            assert_eq!(*length, 7);
        }
        _ => panic!("the first step must write the bytes"),
    }
    match &steps[1] {
        TransferStep::SetPermissions { dest, bits } => {
            assert_eq!(dest.to_bytes(), bytes("/d/f"));
            assert!(bits.read_owner && bits.write_owner && !bits.read_group);
        }
        _ => panic!("the permissions must come last"),
    }
}

#[test]
fn overwriting_read_only_destination_writes_first() {
    // The destination already holds a read-only file: the plan still
    // writes the content first and only then applies the read-only mode.
    let t = task("/s/locked", "/d/locked", 0o444, 3);
    let steps = file_transfer_steps(&t);
    assert!(matches!(steps[0], TransferStep::WriteFile { .. }));
    match &steps[1] {
        TransferStep::SetPermissions { bits, .. } => {
            assert!(!bits.write_owner && bits.read_owner);
        }
        _ => panic!("the permissions must come last"),
    }
}

#[test]
fn concurrency_bound_formula() {
    assert_eq!(compute_bound(0), 1);
    assert_eq!(compute_bound(3), 1);
    assert_eq!(compute_bound(4), 1);
    assert_eq!(compute_bound(64), 16);
    assert_eq!(compute_bound(100), 25);
    assert_eq!(compute_bound(256), 64);
    assert_eq!(compute_bound(1_000_000), 64);
}

#[test]
fn scheduler_never_exceeds_bound() {
    let mut tasks: Vec<TransferTask> = Vec::new();
    for i in 0..10_000u32 {
        tasks.push(task(&format!("/s/f{i}"), &format!("/d/f{i}"), 0o644, 1));
    }
    let mut sched = TransferScheduler::new(tasks, 16);
    let mut max_in_flight: usize = 0;
    let mut attempted: usize = 0;
    while !sched.done() {
        while let Some(_t) = sched.start() {
            attempted += 1;
            if sched.running.len() > max_in_flight {
                max_in_flight = sched.running.len();
            }
            assert!(sched.running.len() <= 16);
        }
        // drain the whole batch in flight, outcomes mixed
        while !sched.running.is_empty() {
            let ok = sched.running.len() % 2 == 0;
            sched.complete(0, ok);
        }
    }
    assert_eq!(max_in_flight, 16);
    assert_eq!(attempted, 10_000);
    assert_eq!(sched.results.len(), 10_000);
}

#[test]
fn failed_task_cancels_nothing() {
    let mut sched = TransferScheduler::new(
        vec![
            task("/s/a", "/d/a", 0o644, 1),
            task("/s/b", "/d/b", 0o644, 1),
        ],
        1,
    );
    assert!(sched.can_start());
    let _first = sched.start().unwrap();
    assert!(!sched.can_start(), "the bound of one must hold");
    assert!(sched.start().is_none());
    sched.complete(0, false);
    let _second = sched.start().unwrap();
    sched.complete(0, true);
    assert!(sched.done());
    assert_eq!(sched.results.len(), 2);
    assert!(!sched.results[0].ok);
    assert!(sched.results[1].ok);
}

fn test_connection() -> Connection {
    let local_home = abs("/home/u");
    let cwd = abs("/home/u");
    let remote_home = abs("/home/r");
    Connection::new(
        None,
        &bytes("/home/u/proj"),
        &local_home,
        &cwd,
        Some(&remote_home),
    )
    .unwrap()
}

#[test]
fn diff_sync_transfers_exactly_the_modified_file() {
    let conn = test_connection();
    let entries = vec![GitStatusEntry {
        path: bytes("src/x.rs"),
        status: GitStatus::Modified,
    }];
    let actions = plan_status_sync(&conn, &entries);
    assert_eq!(actions.len(), 1);
    match &actions[0] {
        SyncAction::Transfer { source, dest } => {
            assert_eq!(source.to_bytes(), bytes("/home/u/proj/src/x.rs"));
            assert_eq!(dest.to_bytes(), bytes("/home/r/proj/src/x.rs"));
        }
        SyncAction::RemoteRemove { .. } => panic!("a modified file must be transferred"),
    }
}

#[test]
fn diff_sync_maps_each_status_kind() {
    let conn = test_connection();
    let entries = vec![
        GitStatusEntry {
            path: bytes("new.txt"),
            status: GitStatus::New,
        },
        GitStatusEntry {
            path: bytes("gone.txt"),
            status: GitStatus::Deleted,
        },
    ];
    let actions = plan_status_sync(&conn, &entries);
    assert_eq!(actions.len(), 2);
    assert!(matches!(actions[0], SyncAction::Transfer { .. }));
    match &actions[1] {
        SyncAction::RemoteRemove { dest } => {
            assert_eq!(dest.to_bytes(), bytes("/home/r/proj/gone.txt"));
        }
        SyncAction::Transfer { .. } => panic!("a deleted path must be removed remotely"),
    }
}

#[test]
fn remote_commands_have_exact_shape() {
    let d = abs("/home/r/proj");
    assert_eq!(
        remote_checkout_command(&d),
        bytes("cd /home/r/proj && git checkout . && git submodule update --init --recursive")
    );
    assert_eq!(
        remote_remove_command(&abs("/home/r/proj/gone.txt")),
        bytes("rm -rf /home/r/proj/gone.txt")
    );
}

#[test]
fn diff_sync_runs_through_all_states() {
    let mut m = GitDiffSync::new(test_connection());
    assert_eq!(m.state, DiffSyncState::Init);

    match m.step(DiffSyncEvent::Started).unwrap() {
        DiffSyncCmd::EnsureRemoteAncestors { dirs } => {
            let rendered: Vec<Vec<u8>> = dirs.iter().map(|d| d.to_bytes()).collect();
            assert_eq!(rendered, vec![bytes("/"), bytes("/home"), bytes("/home/r")]);
        }
        _ => panic!("the run must first ensure the remote ancestors"),
    }
    assert_eq!(m.state, DiffSyncState::RemoteAliased);

    match m.step(DiffSyncEvent::AncestorsEnsured).unwrap() {
        DiffSyncCmd::RunRemoteCheckout { command } => {
            assert_eq!(
                command,
                bytes(
                    "cd /home/r/proj && git checkout . && git submodule update --init --recursive"
                )
            );
        }
        _ => panic!("the remote tree must be fast-forwarded next"),
    }

    let cmd = m.step(DiffSyncEvent::CheckoutFinished { ok: true }).unwrap();
    assert!(matches!(cmd, DiffSyncCmd::QueryLocalStatus));
    assert_eq!(m.state, DiffSyncState::Diffing);

    let entries = vec![GitStatusEntry {
        path: bytes("x.txt"),
        status: GitStatus::Modified,
    }];
    match m.step(DiffSyncEvent::StatusReady { entries }).unwrap() {
        DiffSyncCmd::ApplyActions { actions } => assert_eq!(actions.len(), 1),
        _ => panic!("the status entries must be applied"),
    }

    let last = m.step(DiffSyncEvent::ActionsApplied).unwrap();
    assert!(matches!(last, DiffSyncCmd::ReportDone));
    assert_eq!(m.state, DiffSyncState::Done);
}

#[test]
fn diff_sync_checkout_failure_is_fatal() {
    let mut m = GitDiffSync::new(test_connection());
    m.step(DiffSyncEvent::Started).unwrap();
    m.step(DiffSyncEvent::AncestorsEnsured).unwrap();
    let e = m
        .step(DiffSyncEvent::CheckoutFinished { ok: false })
        .unwrap_err();
    assert_eq!(e, DiffSyncError::CheckoutFailed);
    assert_eq!(m.state, DiffSyncState::RemoteCheckedOut);
}

#[test]
fn diff_sync_rejects_events_out_of_order() {
    let mut m = GitDiffSync::new(test_connection());
    let e = m.step(DiffSyncEvent::ActionsApplied).unwrap_err();
    assert_eq!(e, DiffSyncError::UnexpectedEvent);
    assert_eq!(m.state, DiffSyncState::Init);
}

#[test]
fn upload_root_absent_creates_ancestors() {
    let mut conn = test_connection();
    let plan = plan_upload_root(&mut conn, true, PathStat::Absent).unwrap();
    let rendered: Vec<Vec<u8>> = plan.create_ancestors.iter().map(|d| d.to_bytes()).collect();
    assert_eq!(rendered, vec![bytes("/"), bytes("/home"), bytes("/home/r")]);
    assert!(plan.create_dest_dir && plan.traverse);
    assert_eq!(conn.remote_path.as_path().to_bytes(), bytes("/home/r/proj"));
}

#[test]
fn upload_root_inferred_collision_is_fatal() {
    let mut conn = test_connection();
    let e = plan_upload_root(&mut conn, true, PathStat::Dir).unwrap_err();
    assert_eq!(e, ConfigError::AmbiguousInferredDestination);
}

#[test]
fn upload_root_user_provided_collision_appends_name() {
    let local_home = abs("/home/u");
    let cwd = abs("/home/u");
    let remote_home = abs("/home/r");
    let mut conn = Connection::new(
        Some(&bytes("/home/r/dest")),
        &bytes("/home/u/proj"),
        &local_home,
        &cwd,
        Some(&remote_home),
    )
    .unwrap();
    let plan = plan_upload_root(&mut conn, true, PathStat::Dir).unwrap();
    assert!(plan.create_dest_dir && plan.traverse);
    assert!(plan.create_ancestors.is_empty());
    assert_eq!(
        conn.remote_path.as_path().to_bytes(),
        bytes("/home/r/dest/proj")
    );
    assert!(matches!(conn.remote_path, PathProvenance::UserProvided(_)));
}

#[test]
fn upload_root_dir_onto_remote_file_is_fatal() {
    let mut conn = test_connection();
    let e = plan_upload_root(&mut conn, true, PathStat::File).unwrap_err();
    assert_eq!(e, ConfigError::RemoteNotADirectory);
}

#[test]
fn upload_root_file_into_remote_dir_appends_name() {
    let mut conn = test_connection();
    let plan = plan_upload_root(&mut conn, false, PathStat::Dir).unwrap();
    assert!(!plan.create_dest_dir && !plan.traverse);
    assert_eq!(
        conn.remote_path.as_path().to_bytes(),
        bytes("/home/r/proj/proj")
    );
}

#[test]
fn download_root_cases() {
    let mut conn = test_connection();
    let plan = plan_download_root(&mut conn, true, PathStat::Absent).unwrap();
    assert!(plan.traverse && plan.create_dest_dir);
    assert_eq!(conn.local_path.to_bytes(), bytes("/home/u/proj"));

    let mut conn2 = test_connection();
    let plan2 = plan_download_root(&mut conn2, true, PathStat::Dir).unwrap();
    assert!(plan2.traverse);
    assert_eq!(conn2.local_path.to_bytes(), bytes("/home/u/proj/proj"));

    let mut conn3 = test_connection();
    let e = plan_download_root(&mut conn3, true, PathStat::File).unwrap_err();
    assert_eq!(e, ConfigError::LocalNotADirectory);

    let mut conn4 = test_connection();
    let plan4 = plan_download_root(&mut conn4, false, PathStat::Dir).unwrap();
    assert!(!plan4.traverse);
    assert_eq!(conn4.local_path.to_bytes(), bytes("/home/u/proj/proj"));
}

#[test]
fn upload_scenario_skips_ignored_and_keeps_mode() {
    // Local /home/u/proj holds a.txt (mode 644), .gitignore naming b.log,
    // and b.log; no explicit remote path, remote home /home/r.  Expected:
    // /home/r/proj/a.txt is written with mode 644, b.log never moves.
    let local_home = abs("/home/u");
    let cwd = abs("/home/u");
    let remote_home = abs("/home/r");
    let mut conn = Connection::new(
        None,
        &bytes("/home/u/proj"),
        &local_home,
        &cwd,
        Some(&remote_home),
    )
    .unwrap();

    let plan = plan_upload_root(&mut conn, true, PathStat::Absent).unwrap();
    assert!(plan.traverse);

    // git sees b.log as untracked-or-ignored but not as allowed-untracked
    let ex = ExclusionSet::build(
        &conn.local_path,
        &bytes("b.log\0"),
        &bytes(".gitignore\0"),
    );

    let tree = FsTree::Dir {
        name: bytes("proj"),
        children: vec![
            FsTree::File {
                name: bytes("a.txt"),
                size: 4,
                mode: 0o644,
            },
            FsTree::File {
                name: bytes(".gitignore"),
                size: 6,
                mode: 0o644,
            },
            FsTree::File {
                name: bytes("b.log"),
                size: 2,
                mode: 0o644,
            },
        ],
    };
    let entries = walk_tree(&conn.local_path, &tree, &ex);
    let (dirs, tasks) = entry_tasks(&conn.local_path, conn.remote_path.as_path(), &entries);

    let dir_paths: Vec<Vec<u8>> = dirs.iter().map(|d| d.to_bytes()).collect();
    assert_eq!(dir_paths, vec![bytes("/home/r/proj")]);

    let dests: Vec<Vec<u8>> = tasks.iter().map(|t| t.dest.to_bytes()).collect();
    assert!(dests.contains(&bytes("/home/r/proj/a.txt")));
    assert!(dests.contains(&bytes("/home/r/proj/.gitignore")));
    assert!(!dests.contains(&bytes("/home/r/proj/b.log")));

    let a = tasks
        .iter()
        .find(|t| t.dest.to_bytes() == bytes("/home/r/proj/a.txt"))
        .unwrap();
    assert_eq!(a.mode, 0o644);
    let steps = file_transfer_steps(a);
    match &steps[1] {
        TransferStep::SetPermissions { bits, .. } => {
            assert_eq!(perm_mode_of(bits), 0o644);
        }
        _ => panic!("the permissions must come last"),
    }
}
