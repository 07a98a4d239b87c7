use arcade_desktop::handoff::{channel, latest_or_cached, offer, poll_or_cached};

#[test]
fn full_channel_drops_the_newest_value() {
    let (mut p, mut c) = channel::<u32>(2);
    assert!(offer(&mut p, 1));
    assert!(offer(&mut p, 2));
    assert!(!offer(&mut p, 3));
    assert_eq!(poll_or_cached(&mut c, None), (Some(1), true));
    assert_eq!(poll_or_cached(&mut c, None), (Some(2), true));
    assert_eq!(poll_or_cached(&mut c, None), (None, false));
}

#[test]
fn empty_channel_falls_back_on_cached_value() {
    let (_p, mut c) = channel::<u32>(4);
    assert_eq!(poll_or_cached(&mut c, Some(9)), (Some(9), false));
    assert_eq!(poll_or_cached(&mut c, None), (None, false));
}

#[test]
fn received_value_wins_over_cache() {
    let (mut p, mut c) = channel::<u32>(1);
    assert!(offer(&mut p, 5));
    assert_eq!(poll_or_cached(&mut c, Some(9)), (Some(5), true));
    assert_eq!(latest_or_cached(Some(1), Some(2)), Some(1));
    assert_eq!(latest_or_cached(None, Some(2)), Some(2));
    assert_eq!(latest_or_cached::<u32>(None, None), None);
}

#[test]
fn single_slot_channel_keeps_first_until_polled() {
    let (mut p, mut c) = channel::<u32>(1);
    assert!(offer(&mut p, 1));
    assert!(!offer(&mut p, 2));
    assert_eq!(poll_or_cached(&mut c, None), (Some(1), true));
    assert!(offer(&mut p, 3));
    assert_eq!(poll_or_cached(&mut c, None), (Some(3), true));
}
