use evm_interpreter::interpreter::jumpdest::get_jump_destinations;

fn destinations(code: &[u8]) -> Vec<usize> {
    let table = get_jump_destinations(code);
    (0..code.len() + 40).filter(|d| table.contains(*d)).collect()
}

#[test]
fn empty_code_has_no_destination() {
    assert_eq!(destinations(&[]), Vec::<usize>::new());
}

#[test]
fn every_jumpdest_instruction_is_a_destination() {
    assert_eq!(destinations(&[0x5b]), vec![0]);
    assert_eq!(destinations(&[0x5b, 0x5b, 0x00, 0x5b]), vec![0, 1, 3]);
    assert_eq!(destinations(&[0x60, 0x04, 0x56, 0x00, 0x5b, 0x00]), vec![4]);
}

#[test]
fn a_jumpdest_byte_in_push_data_is_no_destination() {
    assert_eq!(destinations(&[0x60, 0x5b]), Vec::<usize>::new());
    assert_eq!(destinations(&[0x60, 0x5b, 0x5b]), vec![2]);
    assert_eq!(destinations(&[0x61, 0x5b, 0x5b, 0x5b]), vec![3]);
    // PUSH1 takes the PUSH2 as its data, so that the second 0x5b is an
    // instruction.
    assert_eq!(destinations(&[0x60, 0x61, 0x5b, 0x5b]), vec![2, 3]);
}

#[test]
fn the_data_of_the_longest_push_is_skipped() {
    let mut code = vec![0x7f];
    code.extend_from_slice(&[0x5b; 32]);
    code.push(0x5b);
    assert_eq!(destinations(&code), vec![33]);
}

#[test]
fn push_data_that_runs_past_the_end_is_tolerated() {
    assert_eq!(destinations(&[0x5b, 0x7f, 0x5b, 0x5b]), vec![0]);
    assert_eq!(destinations(&[0x5b, 0x60]), vec![0]);
    assert_eq!(destinations(&[0x7f]), Vec::<usize>::new());
}

#[test]
fn offsets_past_the_code_are_not_in_the_table() {
    let table = get_jump_destinations(&[0x5b, 0x5b]);
    assert!(table.contains(1));
    assert!(!table.contains(2));
    assert!(!table.contains(usize::MAX));
}
