//! The resolved endpoints of one synchronization run: an absolute local
//! path and an absolute remote path, the latter tagged with whether the
//! user supplied it or it was inferred from the home directories.

use vstd::prelude::*;

use crate::path::AbsPath;
use crate::path::SLASH;
use crate::path::TILDE;
use crate::path::first_ix;
use crate::path::bytes_range;
use crate::path::find_byte;
use crate::path::clone_bytes;
use crate::path::normalize;
use crate::path::split_at_sep;
use crate::path::resolve_spec;
use crate::path::tilde_form;
use crate::path::valid_comp;

verus! {

/// The byte `:`, which separates a host name from a path in an argument.
pub const COLON: u8 = 58;

/// The byte `@`, which separates a user name from a host address.
pub const AT: u8 = 64;

/// A configuration that cannot be used.  All of these are fatal: they are
/// reported before any transfer begins.
#[derive(Debug, PartialEq, Eq, Structural)]
pub enum ConfigError {
    /// A destination under the remote home directory was needed and no
    /// remote home directory is known.
    NoRemoteHome,
    /// No explicit remote path was given and the local path does not lie
    /// under the local home directory, so no destination can be inferred.
    OutsideLocalHome,
    /// The explicit remote path is neither absolute nor `~`-prefixed.
    RemoteNotAbsolute,
    /// Both arguments carry a `host:` prefix; a `:` inside a file name is
    /// not supported.
    ColonOnBothSides,
    /// The inferred remote destination already exists as a directory, so
    /// the target is ambiguous; only an explicit destination may be
    /// adjusted.
    AmbiguousInferredDestination,
    /// A directory is being uploaded onto a remote path that exists and
    /// is not a directory.
    RemoteNotADirectory,
    /// A remote directory is being downloaded onto a local path that
    /// exists and is not a directory.
    LocalNotADirectory,
}

/// Whether the run copies the local tree to the remote machine or the
/// remote tree to the local machine.
#[derive(Debug, PartialEq, Eq, Structural)]
pub enum Direction {
    Upload,
    Download,
}

/// How the remote path of a [`Connection`] came to be: inferred by
/// mirroring the local path's position under the local home onto the
/// remote home, or supplied by the user.  Collision policy branches on
/// this tag: an `Inferred` destination that already exists is ambiguous,
/// a `UserProvided` one may be adjusted.
#[derive(Debug)]
pub enum PathProvenance {
    Inferred(AbsPath),
    UserProvided(AbsPath),
}

impl PathProvenance {
    /// The components of the carried path.
    pub open spec fn spec_path(&self) -> Seq<Seq<u8>> {
        match self {
            PathProvenance::Inferred(p) => p@,
            PathProvenance::UserProvided(p) => p@,
        }
    }

    pub open spec fn wf(&self) -> bool {
        match self {
            PathProvenance::Inferred(p) => p.wf(),
            PathProvenance::UserProvided(p) => p.wf(),
        }
    }

    /// Whether the path was inferred rather than supplied by the user.
    pub open spec fn is_inferred(&self) -> bool {
        match self {
            PathProvenance::Inferred(_) => true,
            PathProvenance::UserProvided(_) => false,
        }
    }

    /// The carried path, whatever its provenance.
    pub fn as_path(&self) -> (r: &AbsPath)
        ensures
            r@ == self.spec_path(),
            self.wf() ==> r.wf(),
    {
        match self {
            PathProvenance::Inferred(p) => p,
            PathProvenance::UserProvided(p) => p,
        }
    }

    /// Appends one component to the carried path, keeping the tag.
    pub fn push_comp(&mut self, name: &Vec<u8>)
        ensures
            final(self).spec_path() == old(self).spec_path().push(name@),
            final(self).is_inferred() == old(self).is_inferred(),
            old(self).wf() && valid_comp(name@) ==> final(self).wf(),
    {
        match self {
            PathProvenance::Inferred(p) => p.push_comp(name),
            PathProvenance::UserProvided(p) => p.push_comp(name),
        }
    }
}

/// The endpoints of one run.  Both paths are absolute by construction.
#[derive(Debug)]
pub struct Connection {
    pub remote_path: PathProvenance,
    pub local_path: AbsPath,
}

/// The components of an optional home directory.
pub open spec fn opt_home(rh: Option<&AbsPath>) -> Option<Seq<Seq<u8>>> {
    match rh {
        Some(h) => Some(h@),
        None => None,
    }
}

/// Whether an explicit remote path argument can be made absolute: it must
/// start with `/`, or start with `~` and a remote home must be known.
pub open spec fn user_remote_accepted(rp: Seq<u8>, rh: Option<Seq<Seq<u8>>>) -> bool {
    ||| rp.len() > 0 && rp[0] == SLASH
    ||| tilde_form(rp) && rh is Some
}

/// The components an accepted explicit remote path resolves to.
pub open spec fn user_remote_comps(rp: Seq<u8>, rh: Option<Seq<Seq<u8>>>) -> Seq<Seq<u8>> {
    if rp.len() > 0 && rp[0] == SLASH {
        normalize(split_at_sep(rp, SLASH))
    } else {
        normalize(rh.unwrap() + split_at_sep(rp.skip(1), SLASH))
    }
}

impl Connection {
    pub open spec fn wf(&self) -> bool {
        self.local_path.wf() && self.remote_path.wf()
    }

    /// Resolves the two endpoints of a run.
    ///
    /// The local path is resolved against the local home directory (for
    /// `~`) and the current working directory (for relative paths) and is
    /// always absolute afterwards.  An explicit remote path must start
    /// with `/` or `~`; with none given, the destination is inferred by
    /// re-rooting the local path's position relative to the local home
    /// under the remote home, and fails when the local path is not under
    /// the local home or no remote home is known.
    pub fn new(
        remote_path: Option<&Vec<u8>>,
        local_path: &Vec<u8>,
        local_home: &AbsPath,
        cwd: &AbsPath,
        remote_home: Option<&AbsPath>,
    ) -> (r: Result<Connection, ConfigError>)
        requires
            local_home.wf(),
            cwd.wf(),
            match remote_home {
                Some(h) => h.wf(),
                None => true,
            },
        ensures
            match r {
                Ok(c) => {
                    &&& c.wf()
                    &&& c.local_path@ == resolve_spec(local_path@, local_home@, cwd@)
                    &&& match remote_path {
                        Some(rp) => {
                            &&& user_remote_accepted(rp@, opt_home(remote_home))
                            &&& c.remote_path is UserProvided
                            &&& c.remote_path.spec_path() == user_remote_comps(
                                rp@,
                                opt_home(remote_home),
                            )
                        },
                        None => {
                            &&& remote_home is Some
                            &&& local_home@.is_prefix_of(
                                resolve_spec(local_path@, local_home@, cwd@),
                            )
                            &&& c.remote_path is Inferred
                            &&& c.remote_path.spec_path() == opt_home(remote_home).unwrap()
                                + resolve_spec(local_path@, local_home@, cwd@).skip(
                                local_home@.len() as int,
                            )
                        },
                    }
                },
                Err(e) => match remote_path {
                    Some(rp) => {
                        &&& !user_remote_accepted(rp@, opt_home(remote_home))
                        &&& e == (if tilde_form(rp@) {
                            ConfigError::NoRemoteHome
                        } else {
                            ConfigError::RemoteNotAbsolute
                        })
                    },
                    None => {
                        &&& !(remote_home is Some && local_home@.is_prefix_of(
                            resolve_spec(local_path@, local_home@, cwd@),
                        ))
                        &&& e == (if remote_home is None {
                            ConfigError::NoRemoteHome
                        } else {
                            ConfigError::OutsideLocalHome
                        })
                    },
                },
            },
    {
        let local = AbsPath::resolve(local_path, local_home, cwd);
        match remote_path {
            Some(rp) => {
                if rp.len() > 0 && rp[0] == SLASH {
                    let root = AbsPath::root();
                    let p = AbsPath::resolve(rp, &root, &root);
                    Ok(
                        Connection {
                            remote_path: PathProvenance::UserProvided(p),
                            local_path: local,
                        },
                    )
                } else if rp.len() >= 1 && rp[0] == TILDE && (rp.len() == 1 || rp[1] == SLASH) {
                    match remote_home {
                        Some(rh) => {
                            let p = AbsPath::resolve(rp, rh, rh);
                            Ok(
                                Connection {
                                    remote_path: PathProvenance::UserProvided(p),
                                    local_path: local,
                                },
                            )
                        },
                        None => Err(ConfigError::NoRemoteHome),
                    }
                } else {
                    Err(ConfigError::RemoteNotAbsolute)
                }
            },
            None => {
                match remote_home {
                    None => Err(ConfigError::NoRemoteHome),
                    Some(rh) => {
                        match local.strip_prefix(local_home) {
                            Some(rel) => {
                                proof {
                                    assert forall|i: int|
                                        0 <= i < rel.deep_view().len() implies valid_comp(
                                        #[trigger] rel.deep_view()[i],
                                    ) by {
                                        assert(rel.deep_view()[i] == local@[local_home@.len()
                                            + i]);
                                    }
                                }
                                let p = rh.join_rel(&rel);
                                Ok(
                                    Connection {
                                        remote_path: PathProvenance::Inferred(p),
                                        local_path: local,
                                    },
                                )
                            },
                            None => Err(ConfigError::OutsideLocalHome),
                        }
                    },
                }
            },
        }
    }

    /// Maps a local path under `local_path` to its remote destination by
    /// re-rooting its position relative to `local_path` under
    /// `remote_path`.
    pub fn calculate_remote_path(&self, p: &AbsPath) -> (r: AbsPath)
        requires
            self.local_path@.is_prefix_of(p@),
        ensures
            r@ == self.remote_path.spec_path() + p@.skip(self.local_path@.len() as int),
            self.wf() && p.wf() ==> r.wf(),
    {
        match p.strip_prefix(&self.local_path) {
            Some(rel) => {
                let r = self.remote_path.as_path().join_rel(&rel);
                proof {
                    if self.wf() && p.wf() {
                        assert forall|i: int| 0 <= i < rel.deep_view().len() implies valid_comp(
                            #[trigger] rel.deep_view()[i],
                        ) by {
                            assert(rel.deep_view()[i] == p@[self.local_path@.len() + i]);
                        }
                    }
                }
                r
            },
            None => unreached(),
        }
    }
}

/// What one `host:path`-shaped argument holds.
#[derive(Debug)]
pub struct ArgPlan {
    pub remote_host: Vec<u8>,
    pub remote_path: Option<Vec<u8>>,
    pub local_path: Vec<u8>,
    pub direction: Direction,
}

/// Sorts the two command-line arguments of a run.  The argument carrying a
/// `host:` prefix names the remote side and decides the direction; with no
/// prefix on either side, the second argument is a bare remote host and
/// the transfer is an upload.  A prefix on both sides is rejected.
pub fn classify_args(arg1: &Vec<u8>, arg2: &Vec<u8>) -> (r: Result<ArgPlan, ConfigError>)
    ensures
        match r {
            Ok(plan) => {
                let i1 = first_ix(arg1@, COLON);
                let i2 = first_ix(arg2@, COLON);
                &&& !(i1 < arg1@.len() && i2 < arg2@.len())
                &&& if i1 == arg1@.len() && i2 == arg2@.len() {
                    &&& plan.remote_host@ == arg2@
                    &&& plan.remote_path is None
                    &&& plan.local_path@ == arg1@
                    &&& plan.direction is Upload
                } else if i1 == arg1@.len() {
                    &&& plan.remote_host@ == arg2@.take(i2)
                    &&& plan.remote_path matches Some(rp) && rp@ == arg2@.skip(i2 + 1)
                    &&& plan.local_path@ == arg1@
                    &&& plan.direction is Upload
                } else {
                    &&& plan.remote_host@ == arg1@.take(i1)
                    &&& plan.remote_path matches Some(rp) && rp@ == arg1@.skip(i1 + 1)
                    &&& plan.local_path@ == arg2@
                    &&& plan.direction is Download
                }
            },
            Err(e) => {
                &&& first_ix(arg1@, COLON) < arg1@.len()
                &&& first_ix(arg2@, COLON) < arg2@.len()
                &&& e == ConfigError::ColonOnBothSides
            },
        },
{
    let s1 = find_byte(arg1, COLON);
    let s2 = find_byte(arg2, COLON);
    match (s1, s2) {
        (None, None) => Ok(
            ArgPlan {
                remote_host: clone_bytes(arg2),
                remote_path: None,
                local_path: clone_bytes(arg1),
                direction: Direction::Upload,
            },
        ),
        (None, Some(i2)) => {
            let n2 = arg2.len();
            Ok(
                ArgPlan {
                    remote_host: bytes_range(arg2, 0, i2),
                    remote_path: Some(bytes_range(arg2, i2 + 1, n2)),
                    local_path: clone_bytes(arg1),
                    direction: Direction::Upload,
                },
            )
        },
        (Some(i1), None) => {
            let n1 = arg1.len();
            Ok(
                ArgPlan {
                    remote_host: bytes_range(arg1, 0, i1),
                    remote_path: Some(bytes_range(arg1, i1 + 1, n1)),
                    local_path: clone_bytes(arg2),
                    direction: Direction::Download,
                },
            )
        },
        (Some(_), Some(_)) => Err(ConfigError::ColonOnBothSides),
    }
}

/// A remote host given on the command line: either `user@address`, taken
/// apart here, or an alias to be looked up in the SSH configuration.
pub enum HostSpec {
    UserAt { user: Vec<u8>, host: Vec<u8> },
    Alias { name: Vec<u8> },
}

/// Splits a `user@address` host argument at its first `@`; anything
/// without `@` is a host alias.
pub fn parse_host_spec(arg: &Vec<u8>) -> (r: HostSpec)
    ensures
        ({
            let i = first_ix(arg@, AT);
            match r {
                HostSpec::UserAt { user, host } => i < arg@.len() && user@ == arg@.take(i)
                    && host@ == arg@.skip(i + 1),
                HostSpec::Alias { name } => i == arg@.len() && name@ == arg@,
            }
        }),
{
    match find_byte(arg, AT) {
        Some(i) => {
            let n = arg.len();
            HostSpec::UserAt { user: bytes_range(arg, 0, i), host: bytes_range(arg, i + 1, n) }
        },
        None => HostSpec::Alias { name: clone_bytes(arg) },
    }
}

} // verus!
