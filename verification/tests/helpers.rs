use evm_interpreter::interpreter::jumpdest::get_jump_destinations;
use evm_interpreter::interpreter::{
    check_min_revision, check_stack_overflow, consume_dyn_gas, consume_gas, dup, jump,
    nth_ref_from_stack, pop_from_stack, push, swap,
};
use evm_interpreter::types::{Revision, StatusCode, StepStatusCode};
use evm_interpreter::word::Word;

fn w(x: u64) -> Word {
    Word::from_u64(x)
}

fn words(values: &[u64]) -> Vec<Word> {
    values.iter().map(|x| w(*x)).collect()
}

fn failed(status: StatusCode) -> (StepStatusCode, StatusCode) {
    (StepStatusCode::Failed, status)
}

#[test]
fn revisions_are_ordered() {
    assert_eq!(check_min_revision(Revision::Shanghai, Revision::Shanghai), Ok(()));
    assert_eq!(check_min_revision(Revision::Shanghai, Revision::Cancun), Ok(()));
    assert_eq!(check_min_revision(Revision::Frontier, Revision::Frontier), Ok(()));
    assert_eq!(
        check_min_revision(Revision::Shanghai, Revision::London),
        Err(failed(StatusCode::InternalError))
    );
    assert_eq!(
        check_min_revision(Revision::Cancun, Revision::Shanghai),
        Err(failed(StatusCode::InternalError))
    );
    assert!(Revision::Frontier < Revision::London);
    assert!(Revision::London < Revision::Shanghai);
    assert!(Revision::Shanghai < Revision::Cancun);
    assert!(Revision::Frontier.rank() < Revision::Homestead.rank());
    assert!(Revision::London.rank() < Revision::Paris.rank());
    assert!(Revision::Paris.rank() < Revision::Shanghai.rank());
    assert!(Revision::Cancun.rank() < Revision::Prague.rank());
}

#[test]
fn a_static_charge_deducts_or_fails() {
    let mut gas = 10;
    assert_eq!(consume_gas::<3>(&mut gas), Ok(()));
    assert_eq!(gas, 7);
    assert_eq!(consume_gas::<7>(&mut gas), Ok(()));
    assert_eq!(gas, 0);
    assert_eq!(consume_gas::<1>(&mut gas), Err(failed(StatusCode::OutOfGas)));
    assert_eq!(gas, 0);
    assert_eq!(consume_gas::<0>(&mut gas), Ok(()));
    assert_eq!(gas, 0);
}

#[test]
fn a_dynamic_charge_deducts_or_fails() {
    let mut gas = 100;
    assert_eq!(consume_dyn_gas(&mut gas, 50), Ok(()));
    assert_eq!(gas, 50);
    assert_eq!(consume_dyn_gas(&mut gas, 51), Err(failed(StatusCode::OutOfGas)));
    assert_eq!(gas, 50);
    assert_eq!(consume_dyn_gas(&mut gas, u64::MAX), Err(failed(StatusCode::OutOfGas)));
    assert_eq!(gas, 50);
    let mut all = i64::MAX;
    assert_eq!(consume_dyn_gas(&mut all, i64::MAX as u64), Ok(()));
    assert_eq!(all, 0);
}

#[test]
fn a_charge_on_negative_gas_fails() {
    let mut gas = -1;
    assert_eq!(consume_gas::<0>(&mut gas), Err(failed(StatusCode::OutOfGas)));
    assert_eq!(consume_dyn_gas(&mut gas, 0), Err(failed(StatusCode::OutOfGas)));
    assert_eq!(gas, -1);
}

#[test]
fn the_stack_holds_1024_words() {
    let full = vec![w(0); 1024];
    assert_eq!(check_stack_overflow::<0>(&full), Ok(()));
    assert_eq!(check_stack_overflow::<1>(&full), Err(failed(StatusCode::StackOverflow)));
    assert_eq!(check_stack_overflow::<1>(&full[..1023]), Ok(()));
    assert_eq!(check_stack_overflow::<2>(&full[..1023]), Err(failed(StatusCode::StackOverflow)));
    assert_eq!(check_stack_overflow::<1>(&[]), Ok(()));
}

#[test]
fn pop_takes_the_top_first() {
    let mut stack = words(&[1, 2, 3, 4]);
    assert_eq!(pop_from_stack::<2>(&mut stack), Ok([w(4), w(3)]));
    assert_eq!(stack, words(&[1, 2]));
    assert_eq!(pop_from_stack::<0>(&mut stack), Ok([]));
    assert_eq!(stack, words(&[1, 2]));
    assert_eq!(pop_from_stack::<2>(&mut stack), Ok([w(2), w(1)]));
    assert!(stack.is_empty());
}

#[test]
fn pop_of_more_than_there_is_takes_nothing() {
    let mut stack = words(&[1, 2]);
    assert_eq!(pop_from_stack::<3>(&mut stack), Err(failed(StatusCode::StackUnderflow)));
    assert_eq!(stack, words(&[1, 2]));
    let mut empty: Vec<Word> = Vec::new();
    assert_eq!(pop_from_stack::<1>(&mut empty), Err(failed(StatusCode::StackUnderflow)));
}

#[test]
fn peek_counts_from_the_top() {
    let stack = words(&[1, 2, 3]);
    assert_eq!(nth_ref_from_stack::<1>(&stack), Ok(&w(3)));
    assert_eq!(nth_ref_from_stack::<3>(&stack), Ok(&w(1)));
    assert_eq!(nth_ref_from_stack::<4>(&stack), Err(failed(StatusCode::StackUnderflow)));
}

#[test]
fn push_reads_the_immediate_bytes() {
    let code = [0x61, 0x12, 0x34, 0x00];
    let (mut pc, mut stack, mut gas) = (0, words(&[9]), 10);
    assert_eq!(push::<2>(&code, &mut pc, &mut stack, &mut gas), Ok(()));
    assert_eq!((pc, gas), (3, 7));
    assert_eq!(stack, words(&[9, 0x1234]));
}

#[test]
fn push_of_32_bytes_fills_the_word() {
    let mut code = vec![0x7f];
    code.extend((1..=32).map(|i| i as u8));
    let (mut pc, mut stack, mut gas) = (0, Vec::new(), 3);
    assert_eq!(push::<32>(&code, &mut pc, &mut stack, &mut gas), Ok(()));
    assert_eq!((pc, gas), (33, 0));
    let mut expected = [0u8; 32];
    for i in 0..32 {
        expected[i] = i as u8 + 1;
    }
    assert_eq!(stack, vec![Word::from_be_bytes(expected)]);
}

#[test]
fn push_fails_in_the_order_gas_room_code() {
    let code = [0x61, 0x12];
    let full = vec![w(0); 1024];

    let (mut pc, mut stack, mut gas) = (0, full.clone(), 2);
    assert_eq!(
        push::<2>(&code, &mut pc, &mut stack, &mut gas),
        Err(failed(StatusCode::OutOfGas))
    );
    assert_eq!((pc, gas, stack.len()), (0, 2, 1024));

    let (mut pc, mut stack, mut gas) = (0, full, 3);
    assert_eq!(
        push::<2>(&code, &mut pc, &mut stack, &mut gas),
        Err(failed(StatusCode::StackOverflow))
    );
    assert_eq!((pc, gas, stack.len()), (0, 0, 1024));

    let (mut pc, mut stack, mut gas) = (0, Vec::new(), 5);
    assert_eq!(
        push::<2>(&code, &mut pc, &mut stack, &mut gas),
        Err(failed(StatusCode::InternalError))
    );
    assert_eq!((pc, gas), (0, 2));
    assert!(stack.is_empty());
}

#[test]
fn push_needs_its_last_immediate_byte() {
    let (mut pc, mut stack, mut gas) = (0, Vec::new(), 5);
    assert_eq!(
        push::<1>(&[0x60], &mut pc, &mut stack, &mut gas),
        Err(failed(StatusCode::InternalError))
    );
    let (mut pc, mut stack, mut gas) = (0, Vec::new(), 5);
    assert_eq!(push::<1>(&[0x60, 0xaa], &mut pc, &mut stack, &mut gas), Ok(()));
    assert_eq!(pc, 2);
    assert_eq!(stack, words(&[0xaa]));
}

#[test]
fn dup_copies_the_nth_word() {
    let (mut pc, mut stack, mut gas) = (7, words(&[1, 2, 3]), 10);
    assert_eq!(dup::<1>(&mut pc, &mut stack, &mut gas), Ok(()));
    assert_eq!(stack, words(&[1, 2, 3, 3]));
    assert_eq!((pc, gas), (8, 7));
    assert_eq!(dup::<4>(&mut pc, &mut stack, &mut gas), Ok(()));
    assert_eq!(stack, words(&[1, 2, 3, 3, 1]));
    assert_eq!((pc, gas), (9, 4));
}

#[test]
fn dup_fails_without_the_word_or_the_room() {
    let (mut pc, mut stack, mut gas) = (0, words(&[1, 2]), 10);
    assert_eq!(
        dup::<3>(&mut pc, &mut stack, &mut gas),
        Err(failed(StatusCode::StackUnderflow))
    );
    assert_eq!((pc, gas), (0, 7));
    assert_eq!(stack, words(&[1, 2]));

    let (mut pc, mut stack, mut gas) = (0, vec![w(0); 1024], 10);
    assert_eq!(dup::<1>(&mut pc, &mut stack, &mut gas), Err(failed(StatusCode::StackOverflow)));
    assert_eq!((pc, gas, stack.len()), (0, 7, 1024));

    let (mut pc, mut stack, mut gas) = (0, words(&[1]), 2);
    assert_eq!(dup::<1>(&mut pc, &mut stack, &mut gas), Err(failed(StatusCode::OutOfGas)));
    assert_eq!((pc, gas), (0, 2));
}

#[test]
fn swap_exchanges_the_top_with_the_word_n_below() {
    let (mut pc, mut stack, mut gas) = (0, words(&[1, 2, 3, 4]), 10);
    assert_eq!(swap::<1>(&mut pc, &mut stack, &mut gas), Ok(()));
    assert_eq!(stack, words(&[1, 2, 4, 3]));
    assert_eq!(swap::<3>(&mut pc, &mut stack, &mut gas), Ok(()));
    assert_eq!(stack, words(&[3, 2, 4, 1]));
    assert_eq!((pc, gas), (2, 4));
}

#[test]
fn swap_needs_one_word_more_than_its_number() {
    let (mut pc, mut stack, mut gas) = (0, words(&[1, 2]), 10);
    assert_eq!(
        swap::<2>(&mut pc, &mut stack, &mut gas),
        Err(failed(StatusCode::StackUnderflow))
    );
    assert_eq!(stack, words(&[1, 2]));
    assert_eq!((pc, gas), (0, 7));
    let (mut pc, mut stack, mut gas) = (0, words(&[1, 2]), 2);
    assert_eq!(swap::<1>(&mut pc, &mut stack, &mut gas), Err(failed(StatusCode::OutOfGas)));
    assert_eq!(gas, 2);
}

#[test]
fn jump_moves_to_a_valid_destination_only() {
    let code = [0x60, 0x5b, 0x5b, 0x00];
    let table = get_jump_destinations(&code);
    let mut pc = 0;
    assert_eq!(jump(w(2), &mut pc, &table), Ok(()));
    assert_eq!(pc, 2);
    assert_eq!(jump(w(1), &mut pc, &table), Err(failed(StatusCode::BadJumpDestination)));
    assert_eq!(jump(w(3), &mut pc, &table), Err(failed(StatusCode::BadJumpDestination)));
    assert_eq!(jump(w(4), &mut pc, &table), Err(failed(StatusCode::BadJumpDestination)));
    assert_eq!(pc, 2);
}

#[test]
fn jump_rejects_a_destination_beyond_64_bits() {
    let table = get_jump_destinations(&[0x5b, 0x5b, 0x5b]);
    let mut bytes = [0u8; 32];
    bytes[0] = 1;
    bytes[31] = 2;
    let mut pc = 1;
    // The low 64 bits alone would name the destination 2.
    assert_eq!(
        jump(Word::from_be_bytes(bytes), &mut pc, &table),
        Err(failed(StatusCode::BadJumpDestination))
    );
    assert_eq!(pc, 1);
}
