use netdd::transfer::{copy_chunks, CopyAction, CopySession};

fn chunks(list: &[&[u8]]) -> Vec<Vec<u8>> {
    list.iter().map(|c| c.to_vec()).collect()
}

#[test]
fn copies_chunks_in_order() {
    let input = chunks(&[&[1, 2, 3], &[4, 5]]);
    assert_eq!(copy_chunks(&input), vec![1, 2, 3, 4, 5]);
}

#[test]
fn empty_source_yields_empty_output() {
    assert_eq!(copy_chunks(&chunks(&[])), Vec::<u8>::new());
    assert_eq!(copy_chunks(&chunks(&[&[]])), Vec::<u8>::new());
}

#[test]
fn stops_at_end_of_stream() {
    let input = chunks(&[&[1, 2], &[], &[3]]);
    assert_eq!(copy_chunks(&input), vec![1, 2]);
}

#[test]
fn session_forwards_chunks_unchanged() {
    let mut sess = CopySession::new();
    assert!(!sess.finished());
    match sess.step(vec![9, 8, 7]) {
        CopyAction::Write(w) => assert_eq!(w, vec![9, 8, 7]),
        CopyAction::Finish => panic!("expected a write"),
    }
    assert!(!sess.finished());
    match sess.step(Vec::new()) {
        CopyAction::Finish => {}
        CopyAction::Write(_) => panic!("expected the transfer to finish"),
    }
    assert!(sess.finished());
}

/// Ten mebibytes of pseudo-random bytes, as a linear congruential generator
/// hands them out.
fn pseudo_random_bytes(n: usize) -> Vec<u8> {
    let mut state: u64 = 0x2545_f491_4f6c_dd1d;
    let mut out = Vec::with_capacity(n);
    while out.len() < n {
        state = state.wrapping_mul(6364136223846793005).wrapping_add(1442695040888963407);
        out.push((state >> 33) as u8);
    }
    out
}

fn into_chunks(data: &[u8], chunk_len: usize) -> Vec<Vec<u8>> {
    data.chunks(chunk_len).map(|c| c.to_vec()).collect()
}

#[test]
fn file_copy_round_trips_ten_mebibytes() {
    let data = pseudo_random_bytes(10 * 1024 * 1024);
    let input = into_chunks(&data, 64 * 1024);
    let copied = copy_chunks(&input);
    assert_eq!(copied.len(), data.len());
    assert_eq!(copied, data);
}

#[test]
fn file_copy_is_idempotent_on_output_content() {
    let data = pseudo_random_bytes(256 * 1024);
    let input = into_chunks(&data, 4 * 1024);
    let first = copy_chunks(&input);
    let second = copy_chunks(&input);
    assert_eq!(first, second);
    assert_eq!(first, data);
}

#[test]
fn broadcast_clients_receive_identical_content() {
    let data = pseudo_random_bytes(128 * 1024);
    let input = into_chunks(&data, 8 * 1024);
    let client_one = copy_chunks(&input);
    let client_two = copy_chunks(&input);
    assert_eq!(client_one, data);
    assert_eq!(client_two, data);
    assert_eq!(client_one, client_two);
}

#[test]
fn an_abandoned_transfer_leaves_others_untouched() {
    let data = pseudo_random_bytes(64 * 1024);
    let input = into_chunks(&data, 8 * 1024);

    let mut abandoned = CopySession::new();
    match abandoned.step(input[0].clone()) {
        CopyAction::Write(_) => {}
        CopyAction::Finish => panic!("expected a write"),
    }
    drop(abandoned);

    let survivor = copy_chunks(&input);
    assert_eq!(survivor, data);
    let next_connection = copy_chunks(&input);
    assert_eq!(next_connection, data);
}
