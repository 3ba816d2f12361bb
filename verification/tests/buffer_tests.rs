use takzero_learn::buffer::{truncate_buffer_if_needed, TargetWithContext};
use takzero_learn::target::{PolicyEntry, Target};

fn record(tag: u8, uses_available: u32, model_steps: u64) -> TargetWithContext {
    TargetWithContext {
        target: Target {
            state: vec![tag],
            policy: vec![PolicyEntry { action: 0, weight: 1 }],
            value: 0,
            ube: 1000,
        },
        uses_available,
        model_steps,
    }
}

#[test]
fn truncation_respects_capacity() {
    let mut buffer = vec![
        record(0, 1, 3),
        record(1, 2, 1),
        record(2, 1, 9),
        record(3, 5, 9),
        record(4, 1, 2),
    ];
    truncate_buffer_if_needed(&mut buffer, 3);
    assert_eq!(buffer.len(), 3);
}

#[test]
fn truncation_keeps_newest_then_most_uses() {
    let mut buffer = vec![record(0, 1, 10), record(1, 9, 5), record(2, 3, 10)];
    truncate_buffer_if_needed(&mut buffer, 2);
    assert_eq!(buffer.len(), 2);
    // The two records ingested at step ten outrank the older one; among
    // them the one with more remaining uses comes first.
    assert_eq!(buffer[0].target.state, vec![2]);
    assert_eq!(buffer[1].target.state, vec![0]);
}

#[test]
fn truncation_leaves_small_buffers_alone() {
    let mut buffer = vec![record(0, 1, 3), record(1, 2, 1)];
    truncate_buffer_if_needed(&mut buffer, 5);
    assert_eq!(buffer.len(), 2);
    assert_eq!(buffer[0].target.state, vec![0]);
    assert_eq!(buffer[1].target.state, vec![1]);
}

#[test]
fn reuse_spends_one_use() {
    let r = record(0, 3, 7).reuse().expect("uses remain");
    assert_eq!(r.uses_available, 2);
    assert_eq!(r.model_steps, 7);
    let r = r.reuse().expect("uses remain");
    assert_eq!(r.uses_available, 1);
    assert!(r.reuse().is_none());
}

#[test]
fn single_use_record_is_not_reinserted() {
    assert!(record(0, 1, 0).reuse().is_none());
    assert!(record(0, 0, 0).reuse().is_none());
}
