use takzero_learn::buffer::TargetWithContext;
use takzero_learn::reader::fill_buffer_with_targets;

#[test]
fn reads_only_new_lines() {
    // Three lines: two well-formed records around one torn line.
    let bytes = b"1 0 1 4 1 s0\ngarbage\n-2 0 1 5 1 s2\n".to_vec();
    let mut buffer: Vec<TargetWithContext> = Vec::new();
    let mut read: usize = 1;
    fill_buffer_with_targets(&mut buffer, &mut read, &bytes, 2, 77);
    assert_eq!(read, 3);
    assert_eq!(buffer.len(), 1);
    assert_eq!(buffer[0].target.state, b"s2".to_vec());
    assert_eq!(buffer[0].target.value, -2);
    assert_eq!(buffer[0].uses_available, 2);
    assert_eq!(buffer[0].model_steps, 77);
}

#[test]
fn second_read_returns_nothing() {
    let bytes = b"1 0 1 4 1 s0\n0 0 1 4 1 s1\n".to_vec();
    let mut buffer: Vec<TargetWithContext> = Vec::new();
    let mut read: usize = 0;
    fill_buffer_with_targets(&mut buffer, &mut read, &bytes, 1, 0);
    assert_eq!(read, 2);
    assert_eq!(buffer.len(), 2);
    fill_buffer_with_targets(&mut buffer, &mut read, &bytes, 1, 0);
    assert_eq!(read, 2);
    assert_eq!(buffer.len(), 2);
}

#[test]
fn unterminated_final_line_is_counted() {
    // The last line is still being written: it does not parse, but it
    // counts as consumed, like every line seen.
    let bytes = b"5 0 1 4 1 s0\n6 0 1 4".to_vec();
    let mut buffer: Vec<TargetWithContext> = Vec::new();
    let mut read: usize = 0;
    fill_buffer_with_targets(&mut buffer, &mut read, &bytes, 1, 0);
    assert_eq!(read, 2);
    assert_eq!(buffer.len(), 1);
    assert_eq!(buffer[0].target.value, 5);
}

#[test]
fn empty_stream_reads_nothing() {
    let bytes = Vec::new();
    let mut buffer: Vec<TargetWithContext> = Vec::new();
    let mut read: usize = 0;
    fill_buffer_with_targets(&mut buffer, &mut read, &bytes, 1, 0);
    assert_eq!(read, 0);
    assert!(buffer.is_empty());
}

#[test]
fn cursor_beyond_stream_stays() {
    let bytes = b"1 0 1 4 1 s0\n".to_vec();
    let mut buffer: Vec<TargetWithContext> = Vec::new();
    let mut read: usize = 5;
    fill_buffer_with_targets(&mut buffer, &mut read, &bytes, 1, 0);
    assert_eq!(read, 5);
    assert!(buffer.is_empty());
}
