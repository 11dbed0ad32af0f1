use serial_link::ring::{ring_insert, ring_window_of};

#[test]
fn insert_advances_and_wraps() {
    let mut buffer = vec![0u8; 3];
    let c = ring_insert(&mut buffer, 0, 10);
    assert_eq!((c, buffer.clone()), (1, vec![10, 0, 0]));
    let c = ring_insert(&mut buffer, c, 20);
    assert_eq!((c, buffer.clone()), (2, vec![10, 20, 0]));
    let c = ring_insert(&mut buffer, c, 30);
    assert_eq!((c, buffer.clone()), (0, vec![10, 20, 30]));
    let c = ring_insert(&mut buffer, c, 40);
    assert_eq!((c, buffer), (1, vec![40, 20, 30]));
}

#[test]
fn window_reads_in_ring_order() {
    assert_eq!(ring_window_of(&[3, 2], 1), vec![2, 3]);
    assert_eq!(ring_window_of(&[10, 20, 30], 0), vec![10, 20, 30]);
    assert_eq!(ring_window_of(&[40, 20, 30], 1), vec![20, 30, 40]);
    assert_eq!(ring_window_of(&[], 0), Vec::<u8>::new());
}
