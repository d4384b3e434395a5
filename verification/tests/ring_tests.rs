use srbnfs::ring::RingBuffer;
use srbnfs::root::provisioning_plan;

fn ring_of(addrs: &[&str]) -> RingBuffer {
    RingBuffer::new(addrs.iter().map(|a| a.to_string()).collect())
}

#[test]
fn ring_len_and_at() {
    let ring = ring_of(&["coordinator:7848", "relay-a:9001", "relay-b:9002"]);
    assert_eq!(ring.len(), 3);
    assert_eq!(ring.at(0), "coordinator:7848");
    assert_eq!(ring.at(1), "relay-a:9001");
    assert_eq!(ring.at(2), "relay-b:9002");
}

#[test]
fn ring_next_wraps_past_the_end() {
    let mut ring = ring_of(&["a", "b", "c"]);
    assert_eq!(ring.next(), "b");
    assert_eq!(ring.next(), "c");
    assert_eq!(ring.next(), "a");
    assert_eq!(ring.next(), "b");
}

#[test]
fn ring_advance_repeats_after_a_full_lap() {
    // N advances return to the start; the (N+1)-th repeats the first.
    let n = 4;
    let mut ring = ring_of(&["a", "b", "c", "d"]);
    let first_lap: Vec<String> = (0..n).map(|_| ring.next()).collect();
    let second_lap: Vec<String> = (0..n).map(|_| ring.next()).collect();
    assert_eq!(first_lap, vec!["b", "c", "d", "a"]);
    assert_eq!(first_lap, second_lap);
}

#[test]
fn ring_of_one_stays_put() {
    let mut ring = ring_of(&["only"]);
    assert_eq!(ring.next(), "only");
    assert_eq!(ring.next(), "only");
}

#[test]
fn ring_clone_is_independent() {
    let mut ring = ring_of(&["a", "b"]);
    let mut copy = ring.clone();
    assert_eq!(ring.next(), "b");
    // the copy still has its own cursor at the start
    assert_eq!(copy.next(), "b");
    assert_eq!(copy.next(), "a");
}

#[test]
fn provisioning_pairs_each_relay_with_its_successor() {
    let mut ring = ring_of(&["coordinator:7848", "relay-a:9001", "relay-b:9002"]);
    let plan = provisioning_plan(&mut ring);
    assert_eq!(plan.len(), 2);
    assert_eq!(plan[0], ("relay-a:9001".to_string(), "relay-b:9002".to_string()));
    assert_eq!(plan[1], ("relay-b:9002".to_string(), "coordinator:7848".to_string()));
}

#[test]
fn provisioning_two_node_ring_points_back_at_the_coordinator() {
    let mut ring = ring_of(&["coordinator:7848", "relay-a:9001"]);
    let plan = provisioning_plan(&mut ring);
    assert_eq!(plan.len(), 1);
    assert_eq!(plan[0], ("relay-a:9001".to_string(), "coordinator:7848".to_string()));
}

#[test]
fn provisioning_larger_ring_wraps_only_at_the_end() {
    let mut ring = ring_of(&["c0", "r1", "r2", "r3", "r4"]);
    let plan = provisioning_plan(&mut ring);
    assert_eq!(plan.len(), 4);
    assert_eq!(plan[0], ("r1".to_string(), "r2".to_string()));
    assert_eq!(plan[1], ("r2".to_string(), "r3".to_string()));
    assert_eq!(plan[2], ("r3".to_string(), "r4".to_string()));
    assert_eq!(plan[3], ("r4".to_string(), "c0".to_string()));
}

#[test]
fn empty_ring_has_length_zero() {
    let ring = RingBuffer::new(Vec::new());
    assert_eq!(ring.len(), 0);
}
