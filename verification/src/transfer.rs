//! Moving one file across the boundary: the nine POSIX permission bits,
//! and the fixed order of steps — write all bytes first, set permissions
//! last, so that a read-only mode cannot block the write that precedes it.

use vstd::prelude::*;

use crate::path::AbsPath;

verus! {

/// The nine POSIX permission bits, one flag per bit.
#[derive(Clone, Copy, PartialEq, Eq, Structural, Debug)]
pub struct PermBits {
    pub read_owner: bool,
    pub write_owner: bool,
    pub exec_owner: bool,
    pub read_group: bool,
    pub write_group: bool,
    pub exec_group: bool,
    pub read_other: bool,
    pub write_other: bool,
    pub exec_other: bool,
}

/// The nine low bits of a mode, each taken individually.
pub open spec fn bits_of_mode(mode: u32) -> PermBits {
    PermBits {
        read_owner: mode & 256 != 0,
        write_owner: mode & 128 != 0,
        exec_owner: mode & 64 != 0,
        read_group: mode & 32 != 0,
        write_group: mode & 16 != 0,
        exec_group: mode & 8 != 0,
        read_other: mode & 4 != 0,
        write_other: mode & 2 != 0,
        exec_other: mode & 1 != 0,
    }
}

/// The mode value the nine bits reassemble to.
pub open spec fn mode_of_bits(b: PermBits) -> u32 {
    (if b.read_owner {
        256u32
    } else {
        0u32
    }) | (if b.write_owner {
        128u32
    } else {
        0u32
    }) | (if b.exec_owner {
        64u32
    } else {
        0u32
    }) | (if b.read_group {
        32u32
    } else {
        0u32
    }) | (if b.write_group {
        16u32
    } else {
        0u32
    }) | (if b.exec_group {
        8u32
    } else {
        0u32
    }) | (if b.read_other {
        4u32
    } else {
        0u32
    }) | (if b.write_other {
        2u32
    } else {
        0u32
    }) | (if b.exec_other {
        1u32
    } else {
        0u32
    })
}

/// Takes the nine low bits of a mode apart, one flag per bit.
pub fn perm_bits_of(mode: u32) -> (r: PermBits)
    ensures
        r == bits_of_mode(mode),
{
    PermBits {
        read_owner: mode & 256 != 0,
        write_owner: mode & 128 != 0,
        exec_owner: mode & 64 != 0,
        read_group: mode & 32 != 0,
        write_group: mode & 16 != 0,
        exec_group: mode & 8 != 0,
        read_other: mode & 4 != 0,
        write_other: mode & 2 != 0,
        exec_other: mode & 1 != 0,
    }
}

/// Reassembles nine permission flags into a mode value.
pub fn perm_mode_of(b: &PermBits) -> (m: u32)
    ensures
        m == mode_of_bits(*b),
{
    (if b.read_owner {
        256u32
    } else {
        0u32
    }) | (if b.write_owner {
        128u32
    } else {
        0u32
    }) | (if b.exec_owner {
        64u32
    } else {
        0u32
    }) | (if b.read_group {
        32u32
    } else {
        0u32
    }) | (if b.write_group {
        16u32
    } else {
        0u32
    }) | (if b.exec_group {
        8u32
    } else {
        0u32
    }) | (if b.read_other {
        4u32
    } else {
        0u32
    }) | (if b.write_other {
        2u32
    } else {
        0u32
    }) | (if b.exec_other {
        1u32
    } else {
        0u32
    })
}

/// Law: permission round trip.  Taking a mode's nine permission bits apart
/// and reassembling them yields exactly the mode's nine low bits; the
/// destination file of a transfer therefore carries `mode & 0o777`.
pub proof fn lemma_perm_round_trip(mode: u32)
    ensures
        mode_of_bits(bits_of_mode(mode)) == mode & 511,
{
    assert((if mode & 256 != 0 {
        256u32
    } else {
        0u32
    }) | (if mode & 128 != 0 {
        128u32
    } else {
        0u32
    }) | (if mode & 64 != 0 {
        64u32
    } else {
        0u32
    }) | (if mode & 32 != 0 {
        32u32
    } else {
        0u32
    }) | (if mode & 16 != 0 {
        16u32
    } else {
        0u32
    }) | (if mode & 8 != 0 {
        8u32
    } else {
        0u32
    }) | (if mode & 4 != 0 {
        4u32
    } else {
        0u32
    }) | (if mode & 2 != 0 {
        2u32
    } else {
        0u32
    }) | (if mode & 1 != 0 {
        1u32
    } else {
        0u32
    }) == mode & 511) by (bit_vector);
}

/// One unit of work: a file to copy whole, with its permission bits and
/// its byte length (the length serves progress accounting, not
/// validation).
pub struct TransferTask {
    pub source: AbsPath,
    pub dest: AbsPath,
    pub mode: u32,
    pub length: u64,
}

/// The mathematical value of a transfer task.
pub ghost struct TaskModel {
    pub source: Seq<Seq<u8>>,
    pub dest: Seq<Seq<u8>>,
    pub mode: u32,
    pub length: u64,
}

impl View for TransferTask {
    type V = TaskModel;

    open spec fn view(&self) -> TaskModel {
        TaskModel { source: self.source@, dest: self.dest@, mode: self.mode, length: self.length }
    }
}

impl TransferTask {
    /// The same task again, owning fresh path buffers.
    pub fn duplicate(&self) -> (r: TransferTask)
        ensures
            r@ == self@,
    {
        TransferTask {
            source: self.source.duplicate(),
            dest: self.dest.duplicate(),
            mode: self.mode,
            length: self.length,
        }
    }
}

/// One primitive call against the transport, in the order the plan lists
/// them.
pub enum TransferStep {
    /// Create the directory; if it already exists this is not an error.
    CreateDir { dest: AbsPath },
    /// Create the file with truncate semantics and write all `length`
    /// bytes read from `source`.
    WriteFile { source: AbsPath, dest: AbsPath, length: u64 },
    /// Set the nine permission bits of `dest`.
    SetPermissions { dest: AbsPath, bits: PermBits },
}

/// In `plan`, every permission-setting step is preceded by the write of
/// the same destination's bytes.
pub open spec fn writes_before_chmod(plan: Seq<TransferStep>) -> bool {
    forall|i: int|
        0 <= i < plan.len() && (#[trigger] plan[i]) is SetPermissions ==> exists|j: int|
            0 <= j < i && (#[trigger] plan[j]) is WriteFile
                && plan[j]->WriteFile_dest@ == plan[i]->SetPermissions_dest@
}

/// The steps that transfer one file, in order: first the whole write,
/// then the permissions.  That every permission-setting step follows the
/// write of the same destination is the write-before-chmod law.
pub fn file_transfer_steps(task: &TransferTask) -> (r: Vec<TransferStep>)
    ensures
        r@.len() == 2,
        r@[0] matches TransferStep::WriteFile { source, dest, length } && source@ == task.source@
            && dest@ == task.dest@ && length == task.length,
        r@[1] matches TransferStep::SetPermissions { dest, bits } && dest@ == task.dest@ && bits
            == bits_of_mode(task.mode),
        writes_before_chmod(r@),
{
    let mut r: Vec<TransferStep> = Vec::new();
    r.push(
        TransferStep::WriteFile {
            source: task.source.duplicate(),
            dest: task.dest.duplicate(),
            length: task.length,
        },
    );
    r.push(
        TransferStep::SetPermissions { dest: task.dest.duplicate(), bits: perm_bits_of(task.mode) },
    );
    proof {
        assert forall|i: int|
            0 <= i < r@.len() && (#[trigger] r@[i]) is SetPermissions implies exists|j: int|
            0 <= j < i && (#[trigger] r@[j]) is WriteFile && r@[j]->WriteFile_dest@
                == r@[i]->SetPermissions_dest@ by {
            assert(r@[1] is SetPermissions);
            assert(i == 1);
            assert(0 <= 0 < i && r@[0] is WriteFile && r@[0]->WriteFile_dest@
                == r@[i]->SetPermissions_dest@);
        }
    }
    r
}

/// The single step that carries one directory across: create it, existing
/// directories being acceptable.
pub fn dir_transfer_steps(dest: &AbsPath) -> (r: Vec<TransferStep>)
    ensures
        r@.len() == 1,
        r@[0] matches TransferStep::CreateDir { dest: d } && d@ == dest@,
{
    let mut r: Vec<TransferStep> = Vec::new();
    r.push(TransferStep::CreateDir { dest: dest.duplicate() });
    r
}

} // verus!
