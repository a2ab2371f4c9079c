//! Tests of the one-writer gate.

use scribobulate::ids::TabId;
use scribobulate::writegate::WriteGate;

fn gate() -> WriteGate {
    WriteGate::new(TabId::from_raw(1))
}

#[test]
fn a_second_claim_is_refused_while_the_first_is_held() {
    let mut gate = gate();
    let held = gate.claim().expect("the first claim succeeds");
    assert!(gate.is_busy());
    assert!(
        gate.claim().is_none(),
        "a second write must be refused, not raced: two writes to one path can \
         land in either order, so the newest text on disk and the newest \
         baseline recorded can disagree (C1)"
    );
    gate.release(held);
    assert!(!gate.is_busy());
    assert!(gate.claim().is_some(), "and a later claim succeeds");
}

/// A write that fails still hands its pass back, and nothing is outstanding afterwards.
#[test]
fn a_failed_write_that_releases_its_pass_reopens_the_gate() {
    let mut gate = gate();
    fn write_that_fails(gate: &mut WriteGate) -> Result<(), &'static str> {
        let pass = gate.claim().ok_or("busy")?;
        gate.release(pass);
        Err("the write failed")
    }
    assert!(write_that_fails(&mut gate).is_err());
    assert!(!gate.is_busy());
}

/// A refused claim leaves the outstanding write in charge: a write is still outstanding.
#[test]
fn a_refused_claim_leaves_the_gate_busy() {
    let mut gate = gate();
    let pass = gate.claim().unwrap();
    assert!(gate.claim().is_none());
    assert!(gate.is_busy());
    gate.release(pass);
    assert!(!gate.is_busy());
}

/// A pass names the document it was claimed for.
#[test]
fn a_pass_names_its_gates_document() {
    let mut a = WriteGate::new(TabId::from_raw(7));
    let b = WriteGate::new(TabId::from_raw(8));
    let pass = a.claim().unwrap();
    assert_eq!(pass.document(), a.document());
    assert_ne!(pass.document(), b.document());
    a.release(pass);
}
