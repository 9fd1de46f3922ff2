//! Git-driven incremental synchronization.  When the source tree is a
//! git working copy, the full traversal is replaced by: ensure the remote
//! ancestor directories exist, fast-forward the remote working tree to
//! the same commit, query local git status (untracked files included,
//! ignored paths and submodules excluded), and apply only the reported
//! changes — added or modified files are transferred, deleted paths are
//! removed remotely.  Running commands and querying git happen outside;
//! this module decides, step by step, what to do next.

use vstd::prelude::*;

use vstd::string::StringSliceAdditionalSpecFns;

use crate::connection::Connection;
use crate::exclusion::token_path;
use crate::path::AbsPath;
use crate::path::push_str_bytes;
use crate::path::render_path;

verus! {

/// What the local status query reports for one path.  The query includes
/// untracked files, excludes ignored files, and excludes submodules.
#[derive(Clone, Copy, PartialEq, Eq, Structural, Debug)]
pub enum GitStatus {
    New,
    Modified,
    Deleted,
}

/// One path the status query reports, relative to the repository root.
#[derive(Debug)]
pub struct GitStatusEntry {
    pub path: Vec<u8>,
    pub status: GitStatus,
}

impl View for GitStatusEntry {
    type V = (Seq<u8>, GitStatus);

    open spec fn view(&self) -> (Seq<u8>, GitStatus) {
        (self.path@, self.status)
    }
}

/// The status entries of a list, as their models.
pub open spec fn status_view(v: Vec<GitStatusEntry>) -> Seq<(Seq<u8>, GitStatus)> {
    v@.map_values(|e: GitStatusEntry| e@)
}

/// One action the diff-sync applies: transfer a file whole, or remove a
/// remote path recursively.
#[derive(Debug)]
pub enum SyncAction {
    Transfer { source: AbsPath, dest: AbsPath },
    RemoteRemove { dest: AbsPath },
}

/// The mathematical value of a sync action.
pub ghost enum ActionModel {
    Transfer { source: Seq<Seq<u8>>, dest: Seq<Seq<u8>> },
    RemoteRemove { dest: Seq<Seq<u8>> },
}

/// The model of one action.
pub open spec fn action_view(a: SyncAction) -> ActionModel {
    match a {
        SyncAction::Transfer { source, dest } => ActionModel::Transfer {
            source: source@,
            dest: dest@,
        },
        SyncAction::RemoteRemove { dest } => ActionModel::RemoteRemove { dest: dest@ },
    }
}

/// The models of a list of actions.
pub open spec fn actions_view(v: Vec<SyncAction>) -> Seq<ActionModel> {
    v@.map_values(|a: SyncAction| action_view(a))
}

/// The action one status entry maps to: a deleted path is removed on the
/// remote side; a new or modified path is transferred from its place
/// under the local root to the same place under the remote root.
pub open spec fn status_action(
    local: Seq<Seq<u8>>,
    remote: Seq<Seq<u8>>,
    e: (Seq<u8>, GitStatus),
) -> ActionModel {
    match e.1 {
        GitStatus::Deleted => ActionModel::RemoteRemove { dest: token_path(remote, e.0) },
        _ => ActionModel::Transfer {
            source: token_path(local, e.0),
            dest: token_path(remote, e.0),
        },
    }
}

/// The actions a status report maps to, one per entry, in report order.
pub open spec fn status_actions(
    local: Seq<Seq<u8>>,
    remote: Seq<Seq<u8>>,
    entries: Seq<(Seq<u8>, GitStatus)>,
) -> Seq<ActionModel> {
    entries.map_values(|e: (Seq<u8>, GitStatus)| status_action(local, remote, e))
}

/// Maps each status entry to its action.
pub fn plan_status_sync(conn: &Connection, entries: &Vec<GitStatusEntry>) -> (r: Vec<SyncAction>)
    requires
        conn.wf(),
    ensures
        actions_view(r) == status_actions(
            conn.local_path@,
            conn.remote_path.spec_path(),
            status_view(*entries),
        ),
{
    let ghost local = conn.local_path@;
    let ghost remote = conn.remote_path.spec_path();
    let ghost evs = status_view(*entries);
    let mut r: Vec<SyncAction> = Vec::new();
    let mut i: usize = 0;
    while i < entries.len()
        invariant
            i <= entries@.len(),
            conn.wf(),
            local == conn.local_path@,
            remote == conn.remote_path.spec_path(),
            evs == status_view(*entries),
            actions_view(r) == status_actions(local, remote, evs.take(i as int)),
        decreases entries@.len() - i,
    {
        let ghost prev = actions_view(r);
        let e = &entries[i];
        match e.status {
            GitStatus::Deleted => {
                let dest = conn.remote_path.as_path().join_bytes(&e.path);
                r.push(SyncAction::RemoteRemove { dest });
            },
            _ => {
                let source = conn.local_path.join_bytes(&e.path);
                let dest = conn.remote_path.as_path().join_bytes(&e.path);
                r.push(SyncAction::Transfer { source, dest });
            },
        }
        proof {
            assert(actions_view(r) =~= prev.push(status_action(local, remote, evs[i as int])));
            assert(evs.take(i + 1) =~= evs.take(i as int).push(evs[i as int]));
            assert(status_actions(local, remote, evs.take(i + 1)) =~= status_actions(
                local,
                remote,
                evs.take(i as int),
            ).push(status_action(local, remote, evs[i as int])));
        }
        i = i + 1;
    }
    proof {
        assert(evs.take(evs.len() as int) =~= evs);
    }
    r
}

/// Law: diff-sync minimality.  When the status query reports exactly one
/// modified file and nothing else, the plan holds exactly one action —
/// the transfer of that file to its place under the remote root — and no
/// transfer of any other path.
pub proof fn lemma_diff_sync_minimality(
    local: Seq<Seq<u8>>,
    remote: Seq<Seq<u8>>,
    entries: Seq<(Seq<u8>, GitStatus)>,
)
    requires
        entries.len() == 1,
        (entries[0].1 is Modified),
    ensures
        status_actions(local, remote, entries).len() == 1,
        (status_actions(local, remote, entries)[0] == ActionModel::Transfer {
            source: token_path(local, entries[0].0),
            dest: token_path(remote, entries[0].0),
        }),
{
    assert(status_actions(local, remote, entries)[0] == status_action(
        local,
        remote,
        entries[0],
    ));
}

/// The remote command that fast-forwards the working tree under `dir` to
/// the current commit, submodules included.
pub open spec fn checkout_cmd(dir: Seq<Seq<u8>>) -> Seq<u8> {
    ("cd ").spec_bytes() + render_path(dir) + (
    " && git checkout . && git submodule update --init --recursive").spec_bytes()
}

/// Builds the remote fast-forward command.
pub fn remote_checkout_command(dir: &AbsPath) -> (r: Vec<u8>)
    ensures
        r@ == checkout_cmd(dir@),
{
    let mut out: Vec<u8> = Vec::new();
    push_str_bytes(&mut out, "cd ");
    let mut rendered = dir.to_bytes();
    out.append(&mut rendered);
    push_str_bytes(&mut out, " && git checkout . && git submodule update --init --recursive");
    proof {
        assert(out@ =~= checkout_cmd(dir@));
    }
    out
}

/// The remote command that removes one path recursively.
pub open spec fn remove_cmd(path: Seq<Seq<u8>>) -> Seq<u8> {
    ("rm -rf ").spec_bytes() + render_path(path)
}

/// Builds the remote recursive-remove command for one path.
pub fn remote_remove_command(path: &AbsPath) -> (r: Vec<u8>)
    ensures
        r@ == remove_cmd(path@),
{
    let mut out: Vec<u8> = Vec::new();
    push_str_bytes(&mut out, "rm -rf ");
    let mut rendered = path.to_bytes();
    out.append(&mut rendered);
    proof {
        assert(out@ =~= remove_cmd(path@));
    }
    out
}

/// Where a diff-sync run stands.
#[derive(Clone, Copy, PartialEq, Eq, Structural, Debug)]
pub enum DiffSyncState {
    /// Nothing has happened yet.
    Init,
    /// The remote ancestor directories have been requested.
    RemoteAliased,
    /// The remote working tree is being fast-forwarded.
    RemoteCheckedOut,
    /// The local status query is running.
    Diffing,
    /// The planned actions are being applied.
    Applying,
    /// The run is over and the outcomes are reported.
    Done,
}

/// What the surrounding run reports back to the state machine.
pub enum DiffSyncEvent {
    /// The run begins.
    Started,
    /// Every requested ancestor directory exists now.
    AncestorsEnsured,
    /// The remote fast-forward command finished, well or not.
    CheckoutFinished { ok: bool },
    /// The local status query returned these entries.
    StatusReady { entries: Vec<GitStatusEntry> },
    /// Every planned action was attempted.
    ActionsApplied,
}

/// What the state machine asks the surrounding run to do next.
#[derive(Debug)]
pub enum DiffSyncCmd {
    /// Create these directories in this order; one that exists already is
    /// not an error.
    EnsureRemoteAncestors { dirs: Vec<AbsPath> },
    /// Run this command on the remote host.
    RunRemoteCheckout { command: Vec<u8> },
    /// Query local git status: untracked files included, ignored paths
    /// and submodules excluded.
    QueryLocalStatus,
    /// Apply these actions; a failed one does not cancel the others.
    ApplyActions { actions: Vec<SyncAction> },
    /// Report the collected outcomes; the run is over.
    ReportDone,
}

/// Why a diff-sync run stops early.  Both are fatal to the run: no
/// fallback to a full traversal is attempted.
#[derive(Clone, Copy, PartialEq, Eq, Structural, Debug)]
pub enum DiffSyncError {
    /// The remote fast-forward failed; the remote tree is in no state to
    /// receive a diff.
    CheckoutFailed,
    /// The event does not belong to the current state.
    UnexpectedEvent,
}

/// Whether an event is the one the current state waits for; a finished
/// checkout that failed fits nowhere, being fatal.
pub open spec fn event_fits(state: DiffSyncState, event: DiffSyncEvent) -> bool {
    match (state, event) {
        (DiffSyncState::Init, DiffSyncEvent::Started) => true,
        (DiffSyncState::RemoteAliased, DiffSyncEvent::AncestorsEnsured) => true,
        (DiffSyncState::RemoteCheckedOut, DiffSyncEvent::CheckoutFinished { ok }) => ok,
        (DiffSyncState::Diffing, DiffSyncEvent::StatusReady { .. }) => true,
        (DiffSyncState::Applying, DiffSyncEvent::ActionsApplied) => true,
        _ => false,
    }
}

/// The diff-sync state machine: one run over one connection.
pub struct GitDiffSync {
    pub state: DiffSyncState,
    pub conn: Connection,
}

impl GitDiffSync {
    /// A run that has not started yet.
    pub fn new(conn: Connection) -> (r: GitDiffSync)
        ensures
            r.state is Init,
            r.conn == conn,
    {
        GitDiffSync { state: DiffSyncState::Init, conn }
    }

    /// Takes the next event and decides the next command.  The run moves
    /// `Init → RemoteAliased → RemoteCheckedOut → Diffing → Applying →
    /// Done`; a failed checkout is fatal, and an event that does not
    /// belong to the current state changes nothing.
    pub fn step(&mut self, event: DiffSyncEvent) -> (r: Result<DiffSyncCmd, DiffSyncError>)
        requires
            old(self).conn.wf(),
        ensures
            final(self).conn == old(self).conn,
            r is Ok <==> event_fits(old(self).state, event),
            match r {
                Ok(cmd) => match old(self).state {
                    DiffSyncState::Init => {
                        &&& event is Started
                        &&& final(self).state is RemoteAliased
                        &&& cmd matches DiffSyncCmd::EnsureRemoteAncestors { dirs } && {
                            let rp = old(self).conn.remote_path.spec_path();
                            &&& dirs@.len() == rp.len()
                            &&& forall|i: int|
                                0 <= i < dirs@.len() ==> (#[trigger] dirs@[i])@ == rp.take(i)
                        }
                    },
                    DiffSyncState::RemoteAliased => {
                        &&& event is AncestorsEnsured
                        &&& final(self).state is RemoteCheckedOut
                        &&& cmd matches DiffSyncCmd::RunRemoteCheckout { command } && command@
                            == checkout_cmd(old(self).conn.remote_path.spec_path())
                    },
                    DiffSyncState::RemoteCheckedOut => {
                        &&& event matches DiffSyncEvent::CheckoutFinished { ok: true }
                        &&& final(self).state is Diffing
                        &&& cmd is QueryLocalStatus
                    },
                    DiffSyncState::Diffing => {
                        &&& event matches DiffSyncEvent::StatusReady { entries } && {
                            &&& cmd matches DiffSyncCmd::ApplyActions { actions } && actions_view(
                                actions,
                            ) == status_actions(
                                old(self).conn.local_path@,
                                old(self).conn.remote_path.spec_path(),
                                status_view(entries),
                            )
                        }
                        &&& final(self).state is Applying
                    },
                    DiffSyncState::Applying => {
                        &&& event is ActionsApplied
                        &&& final(self).state is Done
                        &&& cmd is ReportDone
                    },
                    DiffSyncState::Done => false,
                },
                Err(e) => {
                    &&& final(self).state == old(self).state
                    &&& (e is CheckoutFailed <==> (old(self).state is RemoteCheckedOut
                        && event matches DiffSyncEvent::CheckoutFinished { ok: false }))
                },
            },
    {
        match self.state {
            DiffSyncState::Init => {
                match event {
                    DiffSyncEvent::Started => {
                        self.state = DiffSyncState::RemoteAliased;
                        Ok(
                            DiffSyncCmd::EnsureRemoteAncestors {
                                dirs: self.conn.remote_path.as_path().ancestors(),
                            },
                        )
                    },
                    _ => Err(DiffSyncError::UnexpectedEvent),
                }
            },
            DiffSyncState::RemoteAliased => {
                match event {
                    DiffSyncEvent::AncestorsEnsured => {
                        self.state = DiffSyncState::RemoteCheckedOut;
                        Ok(
                            DiffSyncCmd::RunRemoteCheckout {
                                command: remote_checkout_command(self.conn.remote_path.as_path()),
                            },
                        )
                    },
                    _ => Err(DiffSyncError::UnexpectedEvent),
                }
            },
            DiffSyncState::RemoteCheckedOut => {
                match event {
                    DiffSyncEvent::CheckoutFinished { ok } => {
                        if ok {
                            self.state = DiffSyncState::Diffing;
                            Ok(DiffSyncCmd::QueryLocalStatus)
                        } else {
                            Err(DiffSyncError::CheckoutFailed)
                        }
                    },
                    _ => Err(DiffSyncError::UnexpectedEvent),
                }
            },
            DiffSyncState::Diffing => {
                match event {
                    DiffSyncEvent::StatusReady { entries } => {
                        self.state = DiffSyncState::Applying;
                        let actions = plan_status_sync(&self.conn, &entries);
                        Ok(DiffSyncCmd::ApplyActions { actions })
                    },
                    _ => Err(DiffSyncError::UnexpectedEvent),
                }
            },
            DiffSyncState::Applying => {
                match event {
                    DiffSyncEvent::ActionsApplied => {
                        self.state = DiffSyncState::Done;
                        Ok(DiffSyncCmd::ReportDone)
                    },
                    _ => Err(DiffSyncError::UnexpectedEvent),
                }
            },
            DiffSyncState::Done => Err(DiffSyncError::UnexpectedEvent),
        }
    }
}

} // verus!
