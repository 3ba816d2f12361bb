use rand::rngs::StdRng;
use rand::SeedableRng;
use takzero_learn::scheduler::{startup_phase, Config, Phase, Session};

fn small_config() -> Config {
    Config {
        batch_size: 2,
        steps_per_save: 10,
        steps_per_checkpoint: 1000,
        min_exploitation_buffer_len: 2,
        max_exploitation_buffer_len: 4,
        max_reanalyze_buffer_len: 4,
        exploitation_target_uses: 1,
        reanalyze_target_uses: 1,
        steps_before_reanalyze: 5000,
        initial_random_targets: 8,
        pre_training_steps: 2,
    }
}

fn lines(records: &[&str]) -> Vec<u8> {
    let mut bytes = Vec::new();
    for r in records {
        bytes.extend_from_slice(r.as_bytes());
        bytes.push(b'\n');
    }
    bytes
}

#[test]
fn stock_configuration_matches_the_training_setup() {
    let c = Config::default();
    assert_eq!(c.batch_size, 128);
    assert_eq!(c.steps_per_save, 10);
    assert_eq!(c.steps_per_checkpoint, 1000);
    assert_eq!(c.min_exploitation_buffer_len, 2000);
    assert_eq!(c.max_exploitation_buffer_len, 10000);
    assert_eq!(c.steps_before_reanalyze, 5000);
    assert_eq!(c.initial_random_targets, 256000);
}

#[test]
fn exploitation_phase_ignores_reanalyze_stream() {
    // Below the threshold the reanalyze stream is not even read, whatever
    // it holds, and composing a batch never consults its buffer.
    let mut session = Session::new(small_config(), 0);
    assert_eq!(session.phase(), Phase::ExploitationOnly);
    let selfplay = lines(&["1 0 1 4 1 a", "2 0 1 4 1 b"]);
    let reanalyze = lines(&["3 0 1 4 1 c", "4 0 1 4 1 d"]);
    session.fill_buffers(Some(selfplay), Some(reanalyze));
    assert_eq!(session.exploitation_buffer.len(), 2);
    assert_eq!(session.reanalyze_buffer.len(), 0);
    assert_eq!(session.reanalyze_targets_read, 0);

    let mut rng = StdRng::seed_from_u64(0);
    let batch = session.try_create_batch(&mut rng).expect("enough records");
    assert_eq!(batch.len(), 2);
    assert_eq!(session.model_steps, 1);
    assert_eq!(session.reanalyze_buffer.len(), 0);
}

#[test]
fn mixed_phase_reads_both_streams() {
    let mut session = Session::new(small_config(), 5000);
    assert_eq!(session.phase(), Phase::Mixed);
    let selfplay = lines(&["1 0 1 4 1 a", "2 0 1 4 1 b"]);
    let reanalyze = lines(&["3 0 1 4 1 c"]);
    session.fill_buffers(Some(selfplay), Some(reanalyze));
    assert_eq!(session.exploitation_buffer.len(), 2);
    assert_eq!(session.reanalyze_buffer.len(), 1);

    let mut rng = StdRng::seed_from_u64(0);
    let batch = session.try_create_batch(&mut rng).expect("enough records");
    assert_eq!(batch.len(), 2);
    assert_eq!(session.exploitation_buffer.len(), 1);
    assert_eq!(session.reanalyze_buffer.len(), 0);
}

#[test]
fn no_batch_without_enough_exploitation_records() {
    let mut session = Session::new(small_config(), 0);
    session.fill_buffers(Some(lines(&["1 0 1 4 1 a"])), None);
    assert_eq!(session.exploitation_buffer.len(), 1);
    let mut rng = StdRng::seed_from_u64(0);
    assert!(session.try_create_batch(&mut rng).is_none());
    assert_eq!(session.model_steps, 0);
    assert_eq!(session.exploitation_buffer.len(), 1);
}

#[test]
fn no_mixed_batch_without_reanalyze_half() {
    let mut session = Session::new(small_config(), 6000);
    session.fill_buffers(Some(lines(&["1 0 1 4 1 a", "2 0 1 4 1 b"])), None);
    assert_eq!(session.exploitation_buffer.len(), 2);
    let mut rng = StdRng::seed_from_u64(0);
    assert!(session.try_create_batch(&mut rng).is_none());
    assert_eq!(session.model_steps, 6000);
}

#[test]
fn ingestion_enforces_capacity() {
    let mut session = Session::new(small_config(), 0);
    let selfplay = lines(&[
        "1 0 1 4 1 a",
        "2 0 1 4 1 b",
        "3 0 1 4 1 c",
        "4 0 1 4 1 d",
        "5 0 1 4 1 e",
        "6 0 1 4 1 f",
    ]);
    session.fill_buffers(Some(selfplay), None);
    assert_eq!(session.exploitation_buffer.len(), 4);
    assert_eq!(session.exploitation_targets_read, 6);
}

#[test]
fn unreadable_stream_changes_nothing() {
    let mut session = Session::new(small_config(), 0);
    session.fill_buffers(None, None);
    assert_eq!(session.exploitation_buffer.len(), 0);
    assert_eq!(session.exploitation_targets_read, 0);
}

#[test]
fn save_cadences() {
    let session = Session::new(small_config(), 20);
    assert_eq!(session.save_due(), (true, false));
    let session = Session::new(small_config(), 2000);
    assert_eq!(session.save_due(), (true, true));
    let session = Session::new(small_config(), 21);
    assert_eq!(session.save_due(), (false, false));
}

#[test]
fn startup_state_depends_on_resume_point() {
    let c = small_config();
    assert_eq!(startup_phase(0, &c), Phase::Bootstrapping);
    assert_eq!(startup_phase(1, &c), Phase::ExploitationOnly);
    assert_eq!(startup_phase(4999, &c), Phase::ExploitationOnly);
    assert_eq!(startup_phase(5000, &c), Phase::Mixed);
    assert_eq!(startup_phase(9000, &c), Phase::Mixed);
}
