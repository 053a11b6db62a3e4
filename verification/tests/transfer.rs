use resonate::transfer::{Transfer, TransferStep};

/// The steps of a transfer whose steps fare as told, and what comes of it.
fn steps(transfer: Transfer, fare: &[bool]) -> (Vec<TransferStep>, bool) {
    let mut taken = Vec::new();
    let mut step = TransferStep::Rename;
    loop {
        if let TransferStep::Done { moved } = step {
            assert_eq!(taken.len(), fare.len());
            return (taken, moved);
        }
        taken.push(step);
        step = transfer.after(step, fare[taken.len() - 1]);
    }
}

#[test]
fn a_rename_is_enough() {
    for transfer in [Transfer::Bring, Transfer::Discard] {
        assert_eq!(steps(transfer, &[true]), (vec![TransferStep::Rename], true));
    }
}

#[test]
fn across_file_systems_a_file_is_copied_and_deleted() {
    let all = vec![TransferStep::Rename, TransferStep::Copy, TransferStep::DeleteOriginal];
    for transfer in [Transfer::Bring, Transfer::Discard] {
        assert_eq!(steps(transfer, &[false, true, true]), (all.clone(), true));
    }
}

#[test]
fn a_file_that_has_to_arrive_stays_if_it_cannot_be_copied() {
    let two = vec![TransferStep::Rename, TransferStep::Copy];
    assert_eq!(steps(Transfer::Bring, &[false, false]), (two, false));
    // It has arrived, though the original is still there.
    assert!(steps(Transfer::Bring, &[false, true, false]).1);
}

#[test]
fn a_file_that_has_to_leave_is_deleted_if_it_cannot_be_put_aside() {
    let (taken, moved) = steps(Transfer::Discard, &[false, false, true]);
    assert_eq!(taken.last(), Some(&TransferStep::DeleteDirectly));
    assert!(!moved);
    let (taken, moved) = steps(Transfer::Discard, &[false, true, false, false]);
    assert_eq!(taken.len(), 4);
    assert_eq!(taken.last(), Some(&TransferStep::DeleteDirectly));
    assert!(!moved);
}
