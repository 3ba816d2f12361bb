use takzero_learn::bootstrap::{
    episode_targets, pool_complete, pre_training_batch, render_pool, EpisodeState,
};
use takzero_learn::target::{PolicyEntry, Target};

#[test]
fn episode_values_alternate_backwards() {
    let states = vec![
        EpisodeState { state: b"first".to_vec(), actions: vec![0, 1] },
        EpisodeState { state: b"last".to_vec(), actions: vec![2] },
    ];
    let targets = episode_targets(states, 1000);
    assert_eq!(targets.len(), 2);
    // The last state before the terminal carries the negated outcome.
    assert_eq!(targets[0].state, b"last".to_vec());
    assert_eq!(targets[0].value, -1000);
    assert_eq!(targets[0].policy, vec![PolicyEntry { action: 2, weight: 1 }]);
    assert_eq!(targets[0].ube, 1000);
    // One ply further back the sign flips again.
    assert_eq!(targets[1].state, b"first".to_vec());
    assert_eq!(targets[1].value, 1000);
    assert_eq!(
        targets[1].policy,
        vec![
            PolicyEntry { action: 0, weight: 1 },
            PolicyEntry { action: 1, weight: 1 },
        ]
    );
}

#[test]
fn drawn_episode_gives_zero_values() {
    let states = vec![EpisodeState { state: b"s".to_vec(), actions: vec![3] }];
    let targets = episode_targets(states, 0);
    assert_eq!(targets.len(), 1);
    assert_eq!(targets[0].value, 0);
}

#[test]
fn rendered_pool_is_one_line_per_record() {
    let pool = vec![
        Target {
            state: b"ab".to_vec(),
            policy: vec![PolicyEntry { action: 7, weight: 1 }],
            value: 3,
            ube: 1000,
        },
        Target {
            state: b"cd".to_vec(),
            policy: vec![PolicyEntry { action: 1, weight: 2 }],
            value: -1,
            ube: 0,
        },
    ];
    let bytes = render_pool(&pool);
    assert_eq!(bytes, b"3 1000 1 7 1 ab\n-1 0 1 1 2 cd\n".to_vec());
}

#[test]
fn chunks_do_not_overlap() {
    let pool: Vec<Target> = (0..4)
        .map(|v: i32| Target {
            state: Vec::new(),
            policy: vec![PolicyEntry { action: 0, weight: 1 }],
            value: v,
            ube: 0,
        })
        .collect();
    let first = pre_training_batch(&pool, 2, 0);
    let second = pre_training_batch(&pool, 2, 1);
    assert_eq!(first[0].value, 0);
    assert_eq!(first[1].value, 1);
    assert_eq!(second[0].value, 2);
    assert_eq!(second[1].value, 3);
}

#[test]
fn pool_size_gate() {
    assert!(!pool_complete(7, 8));
    assert!(pool_complete(8, 8));
    assert!(pool_complete(9, 8));
}
