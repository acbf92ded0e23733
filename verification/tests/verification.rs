use guest_runtime::lifecycle::{step, Action, Event, RunState};
use guest_runtime::verification::{boot_request, verdict, VerifyRequest};
use risc0_zkvm::Receipt;

#[test]
fn boot_request_holds_the_placeholder_values() {
    let req = boot_request();
    assert_eq!(req.journal, vec![0u32]);
    assert_eq!(req.seal, vec![1u32]);
    assert_eq!(req.method_id, vec![1u8]);
}

#[test]
fn request_copies_its_inputs() {
    let journal = [7u32, 8, 9];
    let seal = [0xdead_beefu32, 1];
    let method_id = [1u8, 2, 3, 4, 5];
    let req = VerifyRequest::new(&journal, &seal, &method_id);
    assert_eq!(req.journal, journal.to_vec());
    assert_eq!(req.seal, seal.to_vec());
    assert_eq!(req.method_id, method_id.to_vec());
    let empty = VerifyRequest::new(&[], &[], &[]);
    assert!(empty.journal.is_empty() && empty.seal.is_empty() && empty.method_id.is_empty());
}

#[test]
fn every_error_collapses_to_false() {
    let refused: Result<(), String> = Err(String::from("invalid receipt format"));
    assert!(!verdict(&refused));
    let coded: Result<(), u32> = Err(0);
    assert!(!verdict(&coded));
    let silent: Result<(), ()> = Err(());
    assert!(!verdict(&silent));
}

#[test]
fn acceptance_is_true() {
    let accepted: Result<(), String> = Ok(());
    assert!(verdict(&accepted));
}

#[test]
fn placeholder_receipt_is_rejected_when_the_verifier_errs() {
    let (state, action) = step(RunState::Running, Event::Entered { calldata: 0x400 });
    assert_eq!((state, action), (RunState::Running, Action::Verify));
    let req = boot_request();
    assert_eq!((req.journal.as_slice(), req.seal.as_slice()), (&[0u32][..], &[1u32][..]));
    assert_eq!(req.method_id.as_slice(), &[1u8][..]);
    let outcome: Result<(), String> = Err(String::from("Verification failed"));
    let accepted = verdict(&outcome);
    assert!(!accepted);
    assert_eq!(step(state, Event::Verified { accepted }), (RunState::Halted, Action::Trap));
}

#[test]
fn real_verifier_error_collapses_to_false() {
    let req = VerifyRequest::new(&[0], &[], &[]);
    let receipt = Receipt::new(&req.journal, &req.seal);
    let image_id = "0000000000000000000000000000000000000000000000000000000000000000";
    let outcome = receipt.verify(image_id);
    assert!(outcome.is_err());
    assert!(!verdict(&outcome));
}
