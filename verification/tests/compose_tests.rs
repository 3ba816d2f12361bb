use rand::rngs::StdRng;
use rand::SeedableRng;
use takzero_learn::buffer::TargetWithContext;
use takzero_learn::compose::create_batch;
use takzero_learn::target::{PolicyEntry, Target};

fn record(tag: u8, uses_available: u32) -> TargetWithContext {
    TargetWithContext {
        target: Target {
            state: vec![tag],
            policy: vec![PolicyEntry { action: 0, weight: 1 }],
            value: 0,
            ube: 1000,
        },
        uses_available,
        model_steps: 0,
    }
}

fn uses(buffer: &[TargetWithContext]) -> Vec<u32> {
    let mut u: Vec<u32> = buffer.iter().map(|r| r.uses_available).collect();
    u.sort_unstable();
    u
}

#[test]
fn reuse_accounting_over_three_draws() {
    // Three records seeded with one, two and three uses; capacity never
    // interferes. Each draw takes the whole buffer, so the outcome does not
    // depend on the shuffle.
    let mut rng = StdRng::seed_from_u64(7);
    let mut exploitation = vec![record(0, 1), record(1, 2), record(2, 3)];
    let mut reanalyze: Vec<TargetWithContext> = Vec::new();

    let batch = create_batch(false, 3, &mut exploitation, &mut reanalyze, &mut rng);
    assert_eq!(batch.len(), 3);
    assert_eq!(uses(&exploitation), vec![1, 2]);

    let batch = create_batch(false, 2, &mut exploitation, &mut reanalyze, &mut rng);
    assert_eq!(batch.len(), 2);
    assert_eq!(uses(&exploitation), vec![1]);

    let batch = create_batch(false, 1, &mut exploitation, &mut reanalyze, &mut rng);
    assert_eq!(batch.len(), 1);
    assert!(exploitation.is_empty());
    assert!(reanalyze.is_empty());
}

#[test]
fn exploitation_only_leaves_reanalyze_alone() {
    let mut rng = StdRng::seed_from_u64(1);
    let mut exploitation = vec![record(0, 1), record(1, 1)];
    let mut reanalyze = vec![record(9, 5)];
    let batch = create_batch(false, 2, &mut exploitation, &mut reanalyze, &mut rng);
    assert_eq!(batch.len(), 2);
    assert_eq!(reanalyze.len(), 1);
    assert_eq!(reanalyze[0].target.state, vec![9]);
    assert_eq!(reanalyze[0].uses_available, 5);
}

#[test]
fn mixed_batch_takes_half_from_each() {
    let mut rng = StdRng::seed_from_u64(3);
    let mut exploitation = vec![record(0, 1), record(1, 1), record(2, 1)];
    let mut reanalyze = vec![record(10, 1), record(11, 1), record(12, 1)];
    let batch = create_batch(true, 4, &mut exploitation, &mut reanalyze, &mut rng);
    assert_eq!(batch.len(), 4);
    // Two single-use records left each buffer for good.
    assert_eq!(exploitation.len(), 1);
    assert_eq!(reanalyze.len(), 1);
    // The first half of the batch came from the exploitation buffer.
    assert!(batch[0].state[0] < 10 && batch[1].state[0] < 10);
    assert!(batch[2].state[0] >= 10 && batch[3].state[0] >= 10);
}
