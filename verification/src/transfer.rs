//! Moving a file from one place to another, step by step. A rename fails across file
//! systems; then the file is copied and the original deleted.

use vstd::prelude::*;

verus! {

/// What a file is moved for.
#[derive(Clone, Copy, Debug, PartialEq, Eq, Structural)]
pub enum Transfer {
    /// The file has to arrive: a sound is added, or a removal is undone.
    Bring,
    /// The file has to leave: a sound is removed, and kept aside for a while.
    Discard,
}

/// What is to be done next.
#[derive(Clone, Copy, Debug, PartialEq, Eq, Structural)]
pub enum TransferStep {
    Rename,
    Copy,
    /// Delete the original of the copy.
    DeleteOriginal,
    /// Delete the file where it is: it could not be put aside.
    DeleteDirectly,
    /// Whether the file has been moved.
    Done { moved: bool },
}

/// What is to be done after a step, which went well or not.
pub open spec fn step_after(transfer: Transfer, step: TransferStep, ok: bool) -> TransferStep {
    match step {
        TransferStep::Rename => if ok {
            TransferStep::Done { moved: true }
        } else {
            TransferStep::Copy
        },
        TransferStep::Copy => if ok {
            TransferStep::DeleteOriginal
        } else if transfer == Transfer::Discard {
            TransferStep::DeleteDirectly
        } else {
            TransferStep::Done { moved: false }
        },
        TransferStep::DeleteOriginal => if ok || transfer == Transfer::Bring {
            TransferStep::Done { moved: true }
        } else {
            TransferStep::DeleteDirectly
        },
        TransferStep::DeleteDirectly => TransferStep::Done { moved: false },
        TransferStep::Done { moved } => step,
    }
}

impl Transfer {
    /// What is to be done after a step, which went well or not. The first one is to rename.
    pub fn after(self, step: TransferStep, ok: bool) -> (r: TransferStep)
        ensures
            r == step_after(self, step, ok),
    {
        match step {
            TransferStep::Rename => if ok {
                TransferStep::Done { moved: true }
            } else {
                TransferStep::Copy
            },
            TransferStep::Copy => if ok {
                TransferStep::DeleteOriginal
            } else {
                match self {
                    Transfer::Bring => TransferStep::Done { moved: false },
                    Transfer::Discard => TransferStep::DeleteDirectly,
                }
            },
            TransferStep::DeleteOriginal => match self {
                Transfer::Bring => TransferStep::Done { moved: true },
                Transfer::Discard => if ok {
                    TransferStep::Done { moved: true }
                } else {
                    TransferStep::DeleteDirectly
                },
            },
            TransferStep::DeleteDirectly => TransferStep::Done { moved: false },
            TransferStep::Done { moved } => TransferStep::Done { moved },
        }
    }
}

/// Where the file is: at its old place, and at its new one.
pub struct Whereabouts {
    pub old: bool,
    pub new: bool,
}

/// Where the file is after a step.
pub open spec fn whereabouts_after(at: Whereabouts, step: TransferStep, ok: bool) -> Whereabouts {
    if !ok {
        at
    } else {
        match step {
            TransferStep::Rename => Whereabouts { old: false, new: true },
            TransferStep::Copy => Whereabouts { new: true, ..at },
            TransferStep::DeleteOriginal => Whereabouts { old: false, ..at },
            TransferStep::DeleteDirectly => Whereabouts { old: false, ..at },
            TransferStep::Done { moved } => at,
        }
    }
}

/// Where the file has to be when a step is due.
pub open spec fn is_safe(transfer: Transfer, step: TransferStep, at: Whereabouts) -> bool {
    match step {
        TransferStep::Rename => at.old,
        TransferStep::Copy => at.old,
        TransferStep::DeleteOriginal => at.old && at.new,
        TransferStep::DeleteDirectly => transfer == Transfer::Discard,
        TransferStep::Done { moved } => if moved {
            at.new
        } else {
            transfer == Transfer::Bring ==> at.old
        },
    }
}

/// No step loses a file that has to arrive: it is at its old place until it is at its new
/// one, and where it was moved it is at its new place.
pub proof fn a_transfer_loses_nothing(
    transfer: Transfer,
    step: TransferStep,
    ok: bool,
    at: Whereabouts,
)
    requires
        is_safe(transfer, step, at),
    ensures
        is_safe(transfer, step_after(transfer, step, ok), whereabouts_after(at, step, ok)),
        transfer == Transfer::Bring && (at.old || at.new) ==> {
            let then = whereabouts_after(at, step, ok);
            then.old || then.new
        },
{
}

/// The steps that a transfer may still take.
pub open spec fn steps_left(step: TransferStep) -> nat {
    match step {
        TransferStep::Rename => 4,
        TransferStep::Copy => 3,
        TransferStep::DeleteOriginal => 2,
        TransferStep::DeleteDirectly => 1,
        TransferStep::Done { moved } => 0,
    }
}

/// Every transfer comes to its end.
pub proof fn a_transfer_ends(transfer: Transfer, step: TransferStep, ok: bool)
    requires
        !(step is Done),
    ensures
        steps_left(step_after(transfer, step, ok)) < steps_left(step),
{
}

/// A file that has to leave is put aside, or its deletion has been tried: it is never
/// just left where it was.
pub proof fn a_discarded_file_is_deleted_if_not_put_aside(step: TransferStep, ok: bool)
    requires
        !(step is Done),
        step_after(Transfer::Discard, step, ok) == (TransferStep::Done { moved: false }),
    ensures
        step == TransferStep::DeleteDirectly,
{
}

} // verus!
