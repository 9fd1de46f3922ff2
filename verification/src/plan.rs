//! Planning the root of a run, before any traversal starts: which remote
//! ancestor directories must be created, whether the destination path has
//! to be adjusted by appending the source's name, and whether the run
//! walks a tree or moves a single file.  Collision policy branches on the
//! destination's provenance: an inferred destination that already exists
//! as a directory is ambiguous and fatal, an explicit one is adjusted.

use vstd::prelude::*;

use crate::connection::ConfigError;
use crate::connection::Connection;
use crate::path::AbsPath;

verus! {

/// What a stat of a path reported; a path that cannot be stat'd is
/// absent, not an error.
#[derive(Clone, Copy, PartialEq, Eq, Structural, Debug)]
pub enum PathStat {
    Absent,
    File,
    Dir,
}

/// What must happen at the destination before transfers begin.
#[derive(Debug)]
pub struct RootPlan {
    /// Directories to create in this order, each acceptable to exist
    /// already; empty unless the destination path could not be stat'd.
    pub create_ancestors: Vec<AbsPath>,
    /// Whether the (possibly adjusted) destination directory itself is
    /// created.
    pub create_dest_dir: bool,
    /// Whether the run traverses a tree; otherwise it moves one file.
    pub traverse: bool,
}

/// Decides what the upload of `conn.local_path` to `conn.remote_path`
/// needs at the remote root, adjusting the remote path where the rules
/// allow it.
///
/// An unreachable remote path is treated as absent and every remote
/// ancestor is created first.  Uploading a directory onto an existing
/// remote directory appends the local directory's name when the
/// destination was user-provided, and is a fatal ambiguity when it was
/// inferred; onto an existing remote file it is fatal.  Uploading a file
/// into an existing remote directory appends the file's name.
pub fn plan_upload_root(conn: &mut Connection, local_is_dir: bool, remote_stat: PathStat) -> (r:
    Result<RootPlan, ConfigError>)
    requires
        old(conn).wf(),
        remote_stat is Dir ==> old(conn).local_path@.len() > 0,
    ensures
        final(conn).wf(),
        final(conn).local_path == old(conn).local_path,
        final(conn).remote_path.is_inferred() == old(conn).remote_path.is_inferred(),
        match r {
            Ok(plan) => {
                &&& plan.create_ancestors@.len() == (if remote_stat is Absent {
                    old(conn).remote_path.spec_path().len()
                } else {
                    0nat
                })
                &&& (remote_stat is Absent ==> forall|i: int|
                    0 <= i < plan.create_ancestors@.len()
                        ==> (#[trigger] plan.create_ancestors@[i])@ == old(
                        conn,
                    ).remote_path.spec_path().take(i))
                &&& plan.traverse == local_is_dir
                &&& plan.create_dest_dir == local_is_dir
                &&& final(conn).remote_path.spec_path() == (if remote_stat is Dir {
                    old(conn).remote_path.spec_path().push(old(conn).local_path@.last())
                } else {
                    old(conn).remote_path.spec_path()
                })
                &&& (local_is_dir && remote_stat is Dir ==> !old(conn).remote_path.is_inferred())
                &&& !(local_is_dir && remote_stat is File)
            },
            Err(e) => {
                &&& *final(conn) == *old(conn)
                &&& local_is_dir
                &&& (remote_stat is File || (remote_stat is Dir && old(
                    conn,
                ).remote_path.is_inferred()))
                &&& (e == ConfigError::AmbiguousInferredDestination <==> (remote_stat is Dir && old(
                    conn,
                ).remote_path.is_inferred()))
                &&& (e == ConfigError::RemoteNotADirectory <==> remote_stat is File)
            },
        },
{
    let create_ancestors: Vec<AbsPath> = match remote_stat {
        PathStat::Absent => conn.remote_path.as_path().ancestors(),
        _ => Vec::new(),
    };
    if local_is_dir {
        match remote_stat {
            PathStat::Dir => {
                match &conn.remote_path {
                    crate::connection::PathProvenance::Inferred(_) => {
                        return Err(ConfigError::AmbiguousInferredDestination);
                    },
                    crate::connection::PathProvenance::UserProvided(_) => {},
                }
                let name = match conn.local_path.file_name() {
                    Some(n) => crate::path::clone_bytes(n),
                    None => unreached(),
                };
                conn.remote_path.push_comp(&name);
                Ok(RootPlan { create_ancestors, create_dest_dir: true, traverse: true })
            },
            PathStat::File => Err(ConfigError::RemoteNotADirectory),
            PathStat::Absent => {
                Ok(RootPlan { create_ancestors, create_dest_dir: true, traverse: true })
            },
        }
    } else {
        if matches!(remote_stat, PathStat::Dir) {
            let name = match conn.local_path.file_name() {
                Some(n) => crate::path::clone_bytes(n),
                None => unreached(),
            };
            conn.remote_path.push_comp(&name);
        }
        Ok(RootPlan { create_ancestors, create_dest_dir: false, traverse: false })
    }
}

/// Decides what the download of `conn.remote_path` to `conn.local_path`
/// needs at the local root, adjusting the local path where the rules
/// allow it.
///
/// Downloading a remote directory into an existing local directory
/// appends the remote directory's name; onto an existing local file it
/// is fatal; onto an absent path it uses that path as the new tree.
/// Downloading a file into an existing local directory appends the
/// file's name.
pub fn plan_download_root(conn: &mut Connection, remote_is_dir: bool, local_stat: PathStat) -> (r:
    Result<RootPlan, ConfigError>)
    requires
        old(conn).wf(),
        local_stat is Dir ==> old(conn).remote_path.spec_path().len() > 0,
    ensures
        final(conn).wf(),
        final(conn).remote_path == old(conn).remote_path,
        match r {
            Ok(plan) => {
                &&& plan.create_ancestors@.len() == 0
                &&& plan.traverse == remote_is_dir
                &&& plan.create_dest_dir == remote_is_dir
                &&& final(conn).local_path@ == (if local_stat is Dir {
                    old(conn).local_path@.push(old(conn).remote_path.spec_path().last())
                } else {
                    old(conn).local_path@
                })
                &&& !(remote_is_dir && local_stat is File)
            },
            Err(e) => {
                &&& *final(conn) == *old(conn)
                &&& remote_is_dir
                &&& local_stat is File
                &&& e == ConfigError::LocalNotADirectory
            },
        },
{
    if remote_is_dir {
        match local_stat {
            PathStat::File => Err(ConfigError::LocalNotADirectory),
            PathStat::Dir => {
                let name = match conn.remote_path.as_path().file_name() {
                    Some(n) => crate::path::clone_bytes(n),
                    None => unreached(),
                };
                conn.local_path.push_comp(&name);
                Ok(RootPlan { create_ancestors: Vec::new(), create_dest_dir: true, traverse: true })
            },
            PathStat::Absent => {
                Ok(RootPlan { create_ancestors: Vec::new(), create_dest_dir: true, traverse: true })
            },
        }
    } else {
        if matches!(local_stat, PathStat::Dir) {
            let name = match conn.remote_path.as_path().file_name() {
                Some(n) => crate::path::clone_bytes(n),
                None => unreached(),
            };
            conn.local_path.push_comp(&name);
        }
        Ok(RootPlan { create_ancestors: Vec::new(), create_dest_dir: false, traverse: false })
    }
}

/// A path under the source root, re-rooted under the destination root.
pub open spec fn rebase(p: Seq<Seq<u8>>, src: Seq<Seq<u8>>, dst: Seq<Seq<u8>>) -> Seq<Seq<u8>> {
    dst + p.skip(src.len() as int)
}

/// The destination directories the entries ask for, in traversal order.
/// An entry whose path does not lie under the source root names nothing
/// to create (traversal only yields paths under its root).
pub open spec fn dir_dests(
    src: Seq<Seq<u8>>,
    dst: Seq<Seq<u8>>,
    es: Seq<crate::tree::EntryModel>,
) -> Seq<Seq<Seq<u8>>>
    decreases es.len(),
{
    if es.len() == 0 {
        Seq::empty()
    } else {
        let pre = dir_dests(src, dst, es.drop_last());
        if es.last().kind is Dir && src.is_prefix_of(es.last().path) {
            pre.push(rebase(es.last().path, src, dst))
        } else {
            pre
        }
    }
}

/// The per-file transfer tasks the entries ask for, in traversal order.
/// An entry whose path does not lie under the source root names no task.
pub open spec fn file_tasks(
    src: Seq<Seq<u8>>,
    dst: Seq<Seq<u8>>,
    es: Seq<crate::tree::EntryModel>,
) -> Seq<crate::transfer::TaskModel>
    decreases es.len(),
{
    if es.len() == 0 {
        Seq::empty()
    } else {
        let pre = file_tasks(src, dst, es.drop_last());
        if es.last().kind is File && src.is_prefix_of(es.last().path) {
            pre.push(
                crate::transfer::TaskModel {
                    source: es.last().path,
                    dest: rebase(es.last().path, src, dst),
                    mode: es.last().mode,
                    length: es.last().size,
                },
            )
        } else {
            pre
        }
    }
}

/// Turns the entries of one traversal into work at the destination: the
/// directories to create, in traversal order — so every directory is
/// created before any file inside it is written — and one transfer task
/// per file, each path re-rooted from the source root under the
/// destination root.
pub fn entry_tasks(src_root: &AbsPath, dst_root: &AbsPath, entries: &Vec<crate::tree::DirEntry>)
    -> (r: (Vec<AbsPath>, Vec<crate::transfer::TransferTask>))
    ensures
        crate::exclusion::paths_view(r.0) == dir_dests(
            src_root@,
            dst_root@,
            crate::tree::entries_view(*entries),
        ),
        crate::sched::tasks_view(r.1) == file_tasks(
            src_root@,
            dst_root@,
            crate::tree::entries_view(*entries),
        ),
{
    let ghost evs = crate::tree::entries_view(*entries);
    let mut dirs: Vec<AbsPath> = Vec::new();
    let mut tasks: Vec<crate::transfer::TransferTask> = Vec::new();
    let mut i: usize = 0;
    while i < entries.len()
        invariant
            i <= entries@.len(),
            evs == crate::tree::entries_view(*entries),
            crate::exclusion::paths_view(dirs) == dir_dests(src_root@, dst_root@, evs.take(i as int)),
            crate::sched::tasks_view(tasks) == file_tasks(src_root@, dst_root@, evs.take(i as int)),
        decreases entries@.len() - i,
    {
        let ghost prev_dirs = crate::exclusion::paths_view(dirs);
        let ghost prev_tasks = crate::sched::tasks_view(tasks);
        let e = &entries[i];
        match e.path.strip_prefix(src_root) {
            Some(rel) => {
                let dest = dst_root.join_rel(&rel);
                match e.kind {
                    crate::tree::EntryKind::Dir => {
                        dirs.push(dest);
                        proof {
                            assert(crate::exclusion::paths_view(dirs) =~= prev_dirs.push(
                                rebase(evs[i as int].path, src_root@, dst_root@),
                            ));
                        }
                    },
                    crate::tree::EntryKind::File => {
                        tasks.push(
                            crate::transfer::TransferTask {
                                source: e.path.duplicate(),
                                dest,
                                mode: e.mode,
                                length: e.size,
                            },
                        );
                        proof {
                            assert(crate::sched::tasks_view(tasks) =~= prev_tasks.push(
                                crate::transfer::TaskModel {
                                    source: evs[i as int].path,
                                    dest: rebase(evs[i as int].path, src_root@, dst_root@),
                                    mode: evs[i as int].mode,
                                    length: evs[i as int].size,
                                },
                            ));
                        }
                    },
                }
            },
            None => {},
        }
        proof {
            assert(evs.take(i + 1).drop_last() =~= evs.take(i as int));
            assert(evs.take(i + 1).last() == evs[i as int]);
        }
        i = i + 1;
    }
    proof {
        assert(evs.take(evs.len() as int) =~= evs);
    }
    (dirs, tasks)
}

} // verus!
