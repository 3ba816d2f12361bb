use takzero_learn::codec::{parse_target, target_to_line};
use takzero_learn::target::{PolicyEntry, Target};

fn sample() -> Target {
    Target {
        state: b"x5/x5/x5/x5/x5 1 1".to_vec(),
        policy: vec![
            PolicyEntry { action: 0, weight: 1 },
            PolicyEntry { action: 5, weight: 2 },
        ],
        value: -500,
        ube: 1000,
    }
}

#[test]
fn round_trip_sample() {
    let t = sample();
    let line = target_to_line(&t);
    let back = parse_target(&line).expect("printed line must parse");
    assert_eq!(back, t);
}

#[test]
fn printed_line_exact() {
    let t = Target {
        state: b"ab".to_vec(),
        policy: vec![PolicyEntry { action: 7, weight: 1 }],
        value: 3,
        ube: 1000,
    };
    let line = target_to_line(&t);
    assert_eq!(line, b"3 1000 1 7 1 ab".to_vec());
}

#[test]
fn printed_negative_value() {
    let t = Target {
        state: Vec::new(),
        policy: vec![PolicyEntry { action: 1, weight: 4 }],
        value: -1000,
        ube: 0,
    };
    let line = target_to_line(&t);
    assert_eq!(line, b"-1000 0 1 1 4 ".to_vec());
    let back = parse_target(&line).expect("printed line must parse");
    assert_eq!(back, t);
}

#[test]
fn parse_rejects_malformed() {
    assert!(parse_target(&b"".to_vec()).is_none());
    assert!(parse_target(&b"garbage".to_vec()).is_none());
    // Value out of scale.
    assert!(parse_target(&b"1001 0 1 1 1 s".to_vec()).is_none());
    assert!(parse_target(&b"-1001 0 1 1 1 s".to_vec()).is_none());
    // Uncertainty out of scale.
    assert!(parse_target(&b"0 1001 1 1 1 s".to_vec()).is_none());
    // Empty policy.
    assert!(parse_target(&b"0 0 0 s".to_vec()).is_none());
    // Fewer entries than announced.
    assert!(parse_target(&b"0 0 2 1 1 s".to_vec()).is_none());
    // A weight too large for its word.
    assert!(parse_target(&b"0 0 1 1 4294967296 s".to_vec()).is_none());
    // Duplicate actions.
    assert!(parse_target(&b"0 0 2 1 1 1 2 s".to_vec()).is_none());
    // All weights zero.
    assert!(parse_target(&b"0 0 1 1 0 s".to_vec()).is_none());
    // Missing separator before the state.
    assert!(parse_target(&b"0 0 1 1 1".to_vec()).is_none());
}

#[test]
fn parse_accepts_empty_state() {
    let t = parse_target(&b"0 0 1 9 3 ".to_vec()).expect("line must parse");
    assert_eq!(t.state, Vec::<u8>::new());
    assert_eq!(t.policy, vec![PolicyEntry { action: 9, weight: 3 }]);
    assert_eq!(t.value, 0);
    assert_eq!(t.ube, 0);
}

#[test]
fn state_may_contain_spaces() {
    let t = parse_target(&b"12 500 1 3 2 a b c".to_vec()).expect("line must parse");
    assert_eq!(t.state, b"a b c".to_vec());
    assert_eq!(t.value, 12);
    assert_eq!(t.ube, 500);
}

#[test]
fn parse_rejects_numbers_too_large_for_the_word() {
    // One past the largest machine word.
    assert!(parse_target(&b"0 0 1 18446744073709551616 1 s".to_vec()).is_none());
    // The largest action id itself is fine.
    let t = parse_target(&b"0 0 1 18446744073709551615 1 s".to_vec()).expect("line must parse");
    assert_eq!(t.policy[0].action, u64::MAX);
}
