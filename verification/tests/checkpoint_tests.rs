use takzero_learn::checkpoint::get_model_path_with_most_steps;

fn names(list: &[&str]) -> Vec<Vec<u8>> {
    list.iter().map(|s| s.as_bytes().to_vec()).collect()
}

#[test]
fn picks_maximum_step() {
    let dir = names(&[
        "model_000123.ot",
        "notes.txt",
        "model_xyz.ot",
        "other_99.ot",
    ]);
    let (step, idx) = get_model_path_with_most_steps(&dir).expect("a checkpoint exists");
    assert_eq!(step, 123);
    assert_eq!(idx, 0);
}

#[test]
fn resumes_from_step_five_thousand() {
    let dir = names(&[
        "model_000000.ot",
        "model_001000.ot",
        "model_005000.ot",
        "model_latest.ot",
    ]);
    let (step, idx) = get_model_path_with_most_steps(&dir).expect("a checkpoint exists");
    assert_eq!(step, 5000);
    assert_eq!(idx, 2);
}

#[test]
fn ignores_malformed_suffixes() {
    let dir = names(&[
        "model_latest.ot",
        "model.ot",
        "model_12a.ot",
        "model_.ot",
        ".ot",
        "model_7.txt",
    ]);
    assert!(get_model_path_with_most_steps(&dir).is_none());
}

#[test]
fn empty_directory_has_no_checkpoint() {
    assert!(get_model_path_with_most_steps(&Vec::new()).is_none());
}

#[test]
fn tie_takes_last() {
    let dir = names(&["a_5.ot", "b_5.ot"]);
    let (step, idx) = get_model_path_with_most_steps(&dir).expect("a checkpoint exists");
    assert_eq!(step, 5);
    assert_eq!(idx, 1);
}

#[test]
fn suffix_after_first_underscore() {
    // The stem is split at its first underscore; "1_5" is not a number.
    let dir = names(&["model_1_5.ot", "run_8.ot"]);
    let (step, idx) = get_model_path_with_most_steps(&dir).expect("a checkpoint exists");
    assert_eq!(step, 8);
    assert_eq!(idx, 1);
}
