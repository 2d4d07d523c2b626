use command_source::ordered::{InOrder, OrderError};

#[test]
fn in_order_results_are_released_at_once() {
    let mut gate = InOrder::new();
    assert_eq!(gate.accept(0), Ok(vec![0]));
    assert_eq!(gate.accept(1), Ok(vec![1]));
    assert_eq!(gate.next, 2);
}

#[test]
fn early_results_wait_for_the_gap() {
    let mut gate = InOrder::new();
    assert_eq!(gate.accept(2), Ok(vec![]));
    assert_eq!(gate.accept(1), Ok(vec![]));
    assert_eq!(gate.accept(4), Ok(vec![]));
    assert_eq!(gate.accept(0), Ok(vec![0, 1, 2]));
    assert_eq!(gate.waiting, vec![4]);
    assert_eq!(gate.accept(3), Ok(vec![3, 4]));
    assert!(gate.waiting.is_empty());
    assert_eq!(gate.next, 5);
}

#[test]
fn a_result_is_accepted_once() {
    let mut gate = InOrder::new();
    assert_eq!(gate.accept(3), Ok(vec![]));
    assert_eq!(gate.accept(3), Err(OrderError::Duplicate { record: 3 }));
    assert_eq!(gate.accept(0), Ok(vec![0]));
    assert_eq!(gate.accept(0), Err(OrderError::Duplicate { record: 0 }));
    assert_eq!(gate.next, 1);
    assert_eq!(gate.waiting, vec![3]);
}
