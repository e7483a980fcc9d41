use hydroflow::handoff::Handoff;

#[test]
fn buf_handoff_accumulates_and_drains_atomically() {
    let mut h = Handoff::new_buf();
    // Draining is always safe: an empty handoff yields an empty batch.
    assert_eq!(h.drain(0), Vec::<i64>::new());
    h.give(1);
    h.give(2);
    h.give_all(&vec![3, 4]);
    assert_eq!(h.drain(0), vec![1, 2, 3, 4]);
    assert_eq!(h.drain(0), Vec::<i64>::new());
}

#[test]
fn slot_handoff_keeps_only_the_latest_item() {
    let mut h = Handoff::new_slot();
    h.give(1);
    h.give(2);
    assert_eq!(h.drain(0), vec![2]);
    // Giving an empty batch leaves the slot as it was.
    h.give(9);
    h.give_all(&Vec::new());
    assert_eq!(h.drain(0), vec![9]);
}

#[test]
fn tee_handoff_gives_each_reader_the_full_sequence() {
    let mut h = Handoff::new_tee(2);
    h.give(5);
    h.give_all(&vec![6, 7]);
    assert_eq!(h.drain(0), vec![5, 6, 7]);
    // Draining one reader leaves the other reader's buffer untouched.
    assert_eq!(h.drain(1), vec![5, 6, 7]);
    assert_eq!(h.drain(0), Vec::<i64>::new());
}
