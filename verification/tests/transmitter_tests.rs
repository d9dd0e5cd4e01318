use hashattr::transmitter::{GetOutcome, PutOutcome, Transmitter};

fn take(t: &mut Transmitter<i32>) -> Option<i32> {
    match t.get() {
        GetOutcome::Item(x) => Some(x),
        _ => None,
    }
}

#[test]
fn items_come_out_first_in_first_out() {
    let mut t = Transmitter::new(4);
    for x in [1, 2, 3] {
        assert!(matches!(t.put(x), PutOutcome::Stored));
    }
    assert_eq!(take(&mut t), Some(1));
    assert!(matches!(t.put(4), PutOutcome::Stored));
    assert_eq!(take(&mut t), Some(2));
    assert_eq!(take(&mut t), Some(3));
    assert_eq!(take(&mut t), Some(4));
    assert!(matches!(t.get(), GetOutcome::Wait));
}

#[test]
fn full_buffer_hands_the_item_back() {
    let mut t = Transmitter::new(2);
    assert!(matches!(t.put(10), PutOutcome::Stored));
    assert!(matches!(t.put(11), PutOutcome::Stored));
    assert!(matches!(t.put(12), PutOutcome::Full(12)));
    assert_eq!(take(&mut t), Some(10));
    assert!(matches!(t.put(12), PutOutcome::Stored));
    assert_eq!(take(&mut t), Some(11));
    assert_eq!(take(&mut t), Some(12));
}

#[test]
fn zero_capacity_never_stores() {
    let mut t = Transmitter::new(0);
    assert!(matches!(t.put(1), PutOutcome::Full(1)));
    assert!(matches!(t.get(), GetOutcome::Wait));
}

#[test]
fn closing_refuses_puts_but_drains_what_is_held() {
    let mut t = Transmitter::new(3);
    assert!(matches!(t.put(7), PutOutcome::Stored));
    assert!(matches!(t.put(8), PutOutcome::Stored));
    t.close();
    assert!(matches!(t.put(9), PutOutcome::Refused));
    assert_eq!(take(&mut t), Some(7));
    assert_eq!(take(&mut t), Some(8));
    assert!(matches!(t.get(), GetOutcome::Finished));
    assert!(matches!(t.get(), GetOutcome::Finished));
}

#[test]
fn killing_stops_everything() {
    let mut t = Transmitter::new(3);
    assert!(matches!(t.put(1), PutOutcome::Stored));
    t.kill();
    assert!(matches!(t.get(), GetOutcome::Finished));
    assert!(matches!(t.put(2), PutOutcome::Refused));
    t.close();
    assert!(matches!(t.get(), GetOutcome::Finished));
}

#[test]
fn empty_open_transmitter_asks_to_wait() {
    let mut t: Transmitter<i32> = Transmitter::new(1);
    assert!(matches!(t.get(), GetOutcome::Wait));
    t.close();
    assert!(matches!(t.get(), GetOutcome::Finished));
}

#[test]
fn interleaved_operations_lose_and_repeat_nothing() {
    let mut t = Transmitter::new(2);
    let mut handed = Vec::new();
    let mut stored = Vec::new();
    for x in 0..10 {
        if matches!(t.put(x), PutOutcome::Stored) {
            stored.push(x);
        }
        if x % 3 == 0 {
            if let Some(y) = take(&mut t) {
                handed.push(y);
            }
        }
    }
    t.close();
    while let Some(y) = take(&mut t) {
        handed.push(y);
    }
    assert!(matches!(t.get(), GetOutcome::Finished));
    assert_eq!(handed, stored);
}
