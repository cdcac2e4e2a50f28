use tiny_verilog::timeheap::TimeHeap;

#[test]
fn empty_scheduler_hands_out_nothing() {
    let mut heap = TimeHeap::new();
    assert!(heap.is_empty());
    assert_eq!(heap.next_time(), None);
    assert_eq!(heap.activate(), (None, vec![]));
    assert_eq!(heap.activate(), (None, vec![]));
}

#[test]
fn every_entry_of_the_earliest_time_leaves_at_once() {
    let mut heap = TimeHeap::new();
    heap.push(0, 10);
    heap.push(1, 5);
    heap.push(2, 10);
    heap.push(3, 5);
    heap.push(4, 7);
    assert!(!heap.is_empty());
    assert_eq!(heap.next_time(), Some(5));
    assert_eq!(heap.activate(), (Some(5), vec![1, 3]));
    assert_eq!(heap.next_time(), Some(7));
    assert_eq!(heap.activate(), (Some(7), vec![4]));
    assert_eq!(heap.activate(), (Some(10), vec![0, 2]));
    assert_eq!(heap.activate(), (None, vec![]));
    assert!(heap.is_empty());
}

#[test]
fn entries_of_one_time_leave_in_the_order_of_their_entry() {
    let mut heap = TimeHeap::new();
    heap.push(9, 3);
    heap.push(2, 3);
    heap.push(5, 3);
    assert_eq!(heap.activate(), (Some(3), vec![9, 2, 5]));
}

#[test]
fn an_entry_made_after_an_extraction_is_found() {
    let mut heap = TimeHeap::new();
    heap.push(0, 4);
    heap.push(1, 8);
    assert_eq!(heap.activate(), (Some(4), vec![0]));
    heap.push(0, 6);
    assert_eq!(heap.activate(), (Some(6), vec![0]));
    assert_eq!(heap.activate(), (Some(8), vec![1]));
}

#[test]
fn a_procedure_entered_twice_is_in_the_batch_once() {
    let mut heap = TimeHeap::new();
    heap.push(1, 0);
    heap.push(1, 0);
    assert_eq!(heap.activate(), (Some(0), vec![1]));
    assert!(heap.is_empty());
}

#[test]
fn the_batch_is_a_set_in_the_order_of_first_entry() {
    let mut heap = TimeHeap::new();
    heap.push(4, 2);
    heap.push(7, 2);
    heap.push(4, 9);
    heap.push(4, 2);
    heap.push(7, 2);
    heap.push(1, 2);
    assert_eq!(heap.activate(), (Some(2), vec![4, 7, 1]));
    assert_eq!(heap.activate(), (Some(9), vec![4]));
    assert_eq!(heap.activate(), (None, vec![]));
}

#[test]
fn the_largest_time_is_a_time_like_any_other() {
    let mut heap = TimeHeap::new();
    heap.push(1, usize::MAX);
    heap.push(2, 0);
    assert_eq!(heap.activate(), (Some(0), vec![2]));
    assert_eq!(heap.activate(), (Some(usize::MAX), vec![1]));
}
