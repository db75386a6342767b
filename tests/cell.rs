use hirola::cell::ReactiveCell;

fn drain(cell: &mut ReactiveCell<u32>, sub: usize) -> Vec<u32> {
    let mut out = Vec::new();
    while let Some(v) = cell.take(sub) {
        out.push(v);
    }
    out
}

#[test]
fn every_set_reaches_each_subscriber_in_order() {
    let mut cell = ReactiveCell::new(0u32);
    let a = cell.subscribe();
    let b = cell.subscribe();
    let c = cell.subscribe();
    for v in [1u32, 2, 2, 3] {
        cell.set(v);
    }
    assert_eq!(drain(&mut cell, a), vec![1, 2, 2, 3]);
    assert_eq!(drain(&mut cell, b), vec![1, 2, 2, 3]);
    assert_eq!(drain(&mut cell, c), vec![1, 2, 2, 3]);
    assert_eq!(cell.get(), 3);
}

#[test]
fn late_subscriber_sees_only_later_values() {
    let mut cell = ReactiveCell::new(String::from("a"));
    let first = cell.subscribe();
    cell.set(String::from("b"));
    let second = cell.subscribe();
    cell.set(String::from("c"));
    assert_eq!(cell.take(first), Some(String::from("b")));
    assert_eq!(cell.take(first), Some(String::from("c")));
    assert_eq!(cell.take(first), None);
    assert_eq!(cell.take(second), Some(String::from("c")));
    assert_eq!(cell.take(second), None);
    assert_eq!(cell.subscriber_count(), 2);
}

#[test]
fn cancelled_subscriber_receives_nothing() {
    let mut cell = ReactiveCell::new(1u32);
    let a = cell.subscribe();
    let b = cell.subscribe();
    cell.set(5);
    cell.cancel(a);
    cell.set(6);
    cell.cancel(a);
    assert_eq!(cell.take(a), None);
    assert_eq!(drain(&mut cell, b), vec![5, 6]);
    assert_eq!(*cell.current_ref(), 6);
}

#[test]
fn filter_drops_rejected_values_and_keeps_order() {
    let mut cell = ReactiveCell::new(0u32);
    let sub = cell.subscribe();
    for v in [1u32, 2, 3, 4, 5, 7] {
        cell.set(v);
    }
    let even = |v: &u32| *v % 2 == 0;
    assert_eq!(cell.take_filtered(sub, &even), Some(2));
    assert_eq!(cell.take_filtered(sub, &even), Some(4));
    assert_eq!(cell.take_filtered(sub, &even), None);
    assert_eq!(cell.take(sub), None);
}

#[test]
fn map_transforms_every_value() {
    let mut cell = ReactiveCell::new(0u32);
    let sub = cell.subscribe();
    cell.set(3);
    cell.set(3);
    let double = |v: u32| v * 2;
    assert_eq!(cell.take_mapped(sub, &double), Some(6));
    assert_eq!(cell.take_mapped(sub, &double), Some(6));
    assert_eq!(cell.take_mapped(sub, &double), None);
}
