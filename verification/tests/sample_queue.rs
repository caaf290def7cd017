use rustretro::sample_queue::queue_capped;
use std::collections::VecDeque;

fn cap_and_target(in_rate: f64) -> (usize, usize) {
    ((in_rate * 0.2) as usize * 2, (in_rate * 0.05) as usize * 2)
}

#[test]
fn queue_cap_drops_whole_frames_to_target() {
    let (cap, target) = cap_and_target(32040.0);
    let mut b: VecDeque<i16> = VecDeque::new();
    let big = vec![1i16; (32040.0 * 0.2) as usize * 2];
    queue_capped(&mut b, &big, cap, target);
    queue_capped(&mut b, &[2i16; 1068], cap, target); // one more core frame triggers the cap
    let len = b.len();
    assert!(len % 2 == 0, "even sample count (whole stereo frames)");
    assert!(len <= (32040.0 * 0.06) as usize * 2, "dropped to ~target, got {len}");
}

#[test]
fn under_the_cap_everything_is_kept_in_order() {
    let mut b: VecDeque<i16> = VecDeque::from(vec![1, 2, 3, 4]);
    queue_capped(&mut b, &[5, 6], 100, 10);
    assert_eq!(b.iter().copied().collect::<Vec<i16>>(), vec![1, 2, 3, 4, 5, 6]);
}

#[test]
fn overflow_drops_the_oldest_frames() {
    // 8 queued + 2 incoming > cap 8: excess over target 6 is 4, so the
    // four oldest samples go.
    let mut b: VecDeque<i16> = VecDeque::from(vec![1, 2, 3, 4, 5, 6, 7, 8]);
    queue_capped(&mut b, &[9, 10], 8, 6);
    assert_eq!(b.iter().copied().collect::<Vec<i16>>(), vec![5, 6, 7, 8, 9, 10]);
}

#[test]
fn an_odd_excess_rounds_down_to_whole_frames() {
    // excess over target 5 is 5; only 4 samples (two frames) go.
    let mut b: VecDeque<i16> = VecDeque::from(vec![1, 2, 3, 4, 5, 6, 7, 8]);
    queue_capped(&mut b, &[9, 10], 8, 5);
    assert_eq!(b.iter().copied().collect::<Vec<i16>>(), vec![5, 6, 7, 8, 9, 10]);
}

#[test]
fn a_huge_batch_replaces_the_whole_queue() {
    let mut b: VecDeque<i16> = VecDeque::from(vec![1, 2]);
    queue_capped(&mut b, &[3, 4, 5, 6, 7, 8], 4, 2);
    assert_eq!(b.iter().copied().collect::<Vec<i16>>(), vec![3, 4, 5, 6, 7, 8]);
}

#[test]
fn an_empty_batch_changes_nothing_even_over_the_cap() {
    let mut b: VecDeque<i16> = VecDeque::from(vec![1, 2, 3, 4, 5, 6]);
    queue_capped(&mut b, &[], 2, 0);
    assert_eq!(b.len(), 6);
}
