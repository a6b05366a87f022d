use web_transport::safety::{PayloadRef, Safety};

#[test]
fn only_the_last_claim_is_current() {
    let (first, mut holders) = Safety::<u32>::new();
    assert!(first.current(&holders));
    let second = first.clone_for(&mut holders, 1);
    assert!(!first.current(&holders));
    assert!(second.current(&holders));
    let third = second.clone_for(&mut holders, 2);
    assert!(!first.current(&holders));
    assert!(!second.current(&holders));
    assert!(third.current(&holders));
}

#[test]
fn giving_up_a_claim_hands_the_payload_back() {
    let (first, mut holders) = Safety::<u32>::new();
    let second = first.clone_for(&mut holders, 1);
    assert_eq!(second.release(&mut holders), Some(1));
    assert!(first.current(&holders));
    assert_eq!(first.release(&mut holders), None);
}

#[test]
fn payload_is_for_the_last_claim() {
    let (first, mut holders) = Safety::<u32>::new();
    let mut payload = PayloadRef::new(5);
    *payload.get_mut(&first, &holders).unwrap() = 6;
    let second = first.clone_for(&mut holders, 1);
    assert!(payload.get_mut(&first, &holders).is_none());
    assert_eq!(payload.get_mut(&second, &holders), Some(&mut 6));
}
