//! Vault operations, as far as the desk's bookkeeping reads them.
use crate::note::{Kind, NoteId, Status};
use vstd::prelude::*;

verus! {

/// The seed of a note to create.
#[derive(Debug)]
pub struct NewNote {
    pub body: String,
    pub status: Status,
    pub kind: Kind,
    pub source: Option<String>,
    pub tags: Vec<String>,
}

/// Where a created note lands.
#[derive(Clone, Copy, PartialEq, Eq, Debug, Structural)]
pub enum Dest {
    Inbox,
}

/// Who asked for a vault op: the user, or an undo/redo replaying one.
#[derive(Clone, Copy, PartialEq, Eq, Debug, Structural)]
pub enum OpSource {
    User,
    UndoRedo,
}

/// One vault mutation (or a batch applied as one).
#[derive(Debug)]
pub enum VaultOp {
    Create { seed: NewNote, dest: Dest },
    SaveBody { id: NoteId, content: String },
    RenameTitle { id: NoteId, new_title: String },
    Promote { id: NoteId },
    Demote { id: NoteId },
    SetKind { id: NoteId, kind: Kind },
    SetSource { id: NoteId, source: Option<String> },
    SetTags { id: NoteId, tags: Vec<String> },
    Toss { id: NoteId },
    Delete { id: NoteId },
    Restore { id: NoteId },
    Split { id: NoteId },
    Batch(Vec<VaultOp>),
}

/// Every existing note `op` acts on as a subject, in order; a batch lists
/// its members' subjects in member order. `Create` makes a brand-new note
/// and contributes nothing.
pub open spec fn subject_ids(op: VaultOp) -> Seq<NoteId>
    decreases op,
{
    match op {
        VaultOp::Create { .. } => Seq::empty(),
        VaultOp::SaveBody { id, .. } => seq![id],
        VaultOp::RenameTitle { id, .. } => seq![id],
        VaultOp::Promote { id } => seq![id],
        VaultOp::Demote { id } => seq![id],
        VaultOp::SetKind { id, .. } => seq![id],
        VaultOp::SetSource { id, .. } => seq![id],
        VaultOp::SetTags { id, .. } => seq![id],
        VaultOp::Toss { id } => seq![id],
        VaultOp::Delete { id } => seq![id],
        VaultOp::Restore { id } => seq![id],
        VaultOp::Split { id } => seq![id],
        VaultOp::Batch(ops) => subject_ids_all(ops@),
    }
}

/// The subjects of `ops`, member by member.
pub open spec fn subject_ids_all(ops: Seq<VaultOp>) -> Seq<NoteId>
    decreases ops,
{
    if ops.len() == 0 {
        Seq::empty()
    } else {
        subject_ids_all(ops.drop_last()) + subject_ids(ops.last())
    }
}

/// Collect every `NoteId` that `op` acts on as a *subject* (i.e. an existing
/// note that may have been mutated), appending them to `out`. `Create`
/// produces a brand-new id, so it contributes nothing here.
pub fn op_subject_ids(op: &VaultOp, out: &mut Vec<NoteId>)
    ensures
        final(out)@ == old(out)@ + subject_ids(*op),
    decreases op,
{
    match op {
        VaultOp::Create { .. } => {
            assert(out@ =~= old(out)@ + subject_ids(*op));
        },
        VaultOp::SaveBody { id, .. }
        | VaultOp::RenameTitle { id, .. }
        | VaultOp::Promote { id }
        | VaultOp::Demote { id }
        | VaultOp::SetKind { id, .. }
        | VaultOp::SetSource { id, .. }
        | VaultOp::SetTags { id, .. }
        | VaultOp::Toss { id }
        | VaultOp::Delete { id }
        | VaultOp::Restore { id }
        | VaultOp::Split { id } => {
            out.push(*id);
            assert(out@ =~= old(out)@ + subject_ids(*op));
        },
        VaultOp::Batch(ops) => {
            let mut i: usize = 0;
            while i < ops.len()
                invariant
                    i <= ops@.len(),
                    *op == VaultOp::Batch(*ops),
                    out@ == old(out)@ + subject_ids_all(ops@.take(i as int)),
                decreases ops@.len() - i,
            {
                proof {
                    assert(ops@.take(i + 1).drop_last() =~= ops@.take(i as int));
                    assert(decreases_to!(*op => (*op)->Batch_0));
                    assert(decreases_to!(*ops => ops@));
                    assert(decreases_to!(ops@ => ops@[i as int]));
                }
                op_subject_ids(&ops[i], out);
                proof {
                    assert(out@ =~= old(out)@ + subject_ids_all(ops@.take(i + 1)));
                }
                i = i + 1;
            }
            proof {
                assert(ops@.take(ops@.len() as int) =~= ops@);
            }
        },
    }
}

} // verus!
