use evm_interpreter::interpreter::jumpdest::get_jump_destinations;
use evm_interpreter::interpreter::{package, run, run_steps, step};
use evm_interpreter::types::{
    Address, Exit, Flow, Message, MessageKind, Request, Revision, RunResult, StatusCode,
    StepStatusCode, TxContext,
};
use evm_interpreter::word::Word;

fn w(x: u64) -> Word {
    Word::from_u64(x)
}

fn max() -> Word {
    Word::from_be_bytes([0xff; 32])
}

fn address(first: u8) -> Address {
    let mut bytes = [0u8; 20];
    for i in 0..20 {
        bytes[i] = first + i as u8;
    }
    Address { bytes }
}

fn address_as_word(first: u8) -> Word {
    let mut bytes = [0u8; 32];
    for i in 0..20 {
        bytes[12 + i] = first + i as u8;
    }
    Word::from_be_bytes(bytes)
}

fn frame(gas: i64, input: Vec<u8>) -> Message {
    Message {
        kind: MessageKind::Call,
        flags: 0,
        depth: 0,
        gas,
        recipient: address(0x10),
        sender: address(0x30),
        input,
        value: w(1234),
    }
}

fn block() -> TxContext {
    TxContext {
        tx_gas_price: w(7),
        tx_origin: address(0x50),
        block_coinbase: address(0x70),
        block_number: 1000,
        block_timestamp: 1_700_000_000,
        block_gas_limit: 30_000_000,
        block_prev_randao: w(99),
        chain_id: w(5),
        block_base_fee: w(15),
        blob_base_fee: w(3),
        blob_hashes: vec![w(0xb10b), w(0xb10c)],
    }
}

fn exec_with(
    revision: Revision,
    code: &[u8],
    message: &Message,
    stack: Vec<Word>,
    reply: Option<Word>,
    steps: Option<i32>,
) -> RunResult {
    run(
        revision,
        code,
        message,
        &block(),
        reply,
        StepStatusCode::Running,
        0,
        0,
        stack,
        vec![0; 64],
        None,
        steps,
    )
}

fn exec(code: &[u8], stack: Vec<Word>) -> RunResult {
    exec_with(Revision::Cancun, code, &frame(100, Vec::new()), stack, None, None)
}

/// Runs one instruction followed by `STOP` on a stack given top first, and
/// hands back the stack, top first, and the gas that was used.
fn apply(op: u8, operands: &[Word]) -> (Vec<Word>, i64) {
    let mut stack = operands.to_vec();
    stack.reverse();
    let out = exec(&[op, 0x00], stack);
    assert_eq!(out.exit, Exit::Stopped, "opcode {op:#x}");
    assert_eq!(out.result.status_code, StatusCode::Success);
    assert_eq!(out.result.pc, 1);
    (out.result.stack, 100 - out.result.gas_left)
}

#[test]
fn arithmetic_takes_the_top_as_its_left_operand() {
    assert_eq!(apply(0x01, &[w(5), w(7)]), (vec![w(12)], 3));
    assert_eq!(apply(0x02, &[w(5), w(7)]), (vec![w(35)], 5));
    assert_eq!(apply(0x03, &[w(7), w(5)]), (vec![w(2)], 3));
    assert_eq!(apply(0x03, &[w(5), w(7)]), (vec![w(2).wrapping_neg()], 3));
    assert_eq!(apply(0x04, &[w(17), w(5)]), (vec![w(3)], 5));
    assert_eq!(apply(0x05, &[w(17).wrapping_neg(), w(5)]), (vec![w(3).wrapping_neg()], 5));
    assert_eq!(apply(0x06, &[w(17), w(5)]), (vec![w(2)], 5));
    assert_eq!(apply(0x07, &[w(17).wrapping_neg(), w(5)]), (vec![w(2).wrapping_neg()], 5));
    assert_eq!(apply(0x08, &[max(), w(2), w(3)]), (vec![w(2)], 8));
    assert_eq!(apply(0x09, &[max(), w(2), w(7)]), (vec![w(2)], 8));
    assert_eq!(apply(0x0b, &[w(0), w(0xff)]), (vec![max()], 5));
}

#[test]
fn operands_below_those_taken_stay() {
    assert_eq!(apply(0x01, &[w(5), w(7), w(100), w(200)]), (vec![w(12), w(100), w(200)], 3));
    assert_eq!(apply(0x08, &[w(5), w(7), w(5), w(200)]), (vec![w(2), w(200)], 8));
    assert_eq!(apply(0x15, &[w(0), w(9)]), (vec![w(1), w(9)], 3));
}

#[test]
fn division_by_zero_gives_zero_without_failure() {
    assert_eq!(apply(0x04, &[w(17), w(0)]), (vec![w(0)], 5));
    assert_eq!(apply(0x05, &[w(17), w(0)]), (vec![w(0)], 5));
    assert_eq!(apply(0x06, &[w(17), w(0)]), (vec![w(0)], 5));
    assert_eq!(apply(0x07, &[w(17), w(0)]), (vec![w(0)], 5));
    assert_eq!(apply(0x08, &[w(17), w(1), w(0)]), (vec![w(0)], 8));
    assert_eq!(apply(0x09, &[w(17), w(2), w(0)]), (vec![w(0)], 8));
}

#[test]
fn exp_charges_50_for_each_byte_of_the_exponent() {
    assert_eq!(apply(0x0a, &[w(3), w(0)]), (vec![w(1)], 10));
    assert_eq!(apply(0x0a, &[w(2), w(10)]), (vec![w(1024)], 60));
    assert_eq!(apply(0x0a, &[w(2), w(255)]).1, 60);
    let out = exec_with(
        Revision::Cancun,
        &[0x0a, 0x00],
        &frame(1000, Vec::new()),
        vec![w(256), w(1)],
        None,
        None,
    );
    assert_eq!(out.result.stack, vec![w(1)]);
    assert_eq!(out.result.gas_left, 1000 - 10 - 100);
}

#[test]
fn exp_that_cannot_pay_for_its_exponent_leaves_the_stack() {
    let out = exec_with(
        Revision::Cancun,
        &[0x0a, 0x00],
        &frame(59, Vec::new()),
        vec![w(10), w(2)],
        None,
        None,
    );
    assert_eq!(out.exit, Exit::Failed(StatusCode::OutOfGas));
    assert_eq!(out.result.gas_left, 49);
    assert_eq!(out.result.stack, vec![w(2), w(10)]);
    assert_eq!(out.result.pc, 0);
}

#[test]
fn comparisons_push_one_or_zero() {
    assert_eq!(apply(0x10, &[w(1), w(2)]), (vec![w(1)], 3));
    assert_eq!(apply(0x10, &[w(2), w(1)]), (vec![w(0)], 3));
    assert_eq!(apply(0x11, &[w(2), w(1)]), (vec![w(1)], 3));
    assert_eq!(apply(0x11, &[w(1), w(2)]), (vec![w(0)], 3));
    assert_eq!(apply(0x12, &[max(), w(1)]), (vec![w(1)], 3));
    assert_eq!(apply(0x12, &[w(1), max()]), (vec![w(0)], 3));
    assert_eq!(apply(0x13, &[w(1), max()]), (vec![w(1)], 3));
    assert_eq!(apply(0x13, &[max(), w(1)]), (vec![w(0)], 3));
    assert_eq!(apply(0x14, &[w(4), w(4)]), (vec![w(1)], 3));
    assert_eq!(apply(0x14, &[w(4), w(5)]), (vec![w(0)], 3));
    assert_eq!(apply(0x15, &[w(0)]), (vec![w(1)], 3));
    assert_eq!(apply(0x15, &[w(4)]), (vec![w(0)], 3));
}

#[test]
fn bitwise_instructions() {
    assert_eq!(apply(0x16, &[w(0b1100), w(0b1010)]), (vec![w(0b1000)], 3));
    assert_eq!(apply(0x17, &[w(0b1100), w(0b1010)]), (vec![w(0b1110)], 3));
    assert_eq!(apply(0x18, &[w(0b1100), w(0b1010)]), (vec![w(0b0110)], 3));
    assert_eq!(apply(0x19, &[w(0)]), (vec![max()], 3));
    assert_eq!(apply(0x1a, &[w(31), w(0x1234)]), (vec![w(0x34)], 3));
    assert_eq!(apply(0x1a, &[w(30), w(0x1234)]), (vec![w(0x12)], 3));
    assert_eq!(apply(0x1a, &[w(32), w(0x1234)]), (vec![w(0)], 3));
    assert_eq!(apply(0x1b, &[w(4), w(0x12)]), (vec![w(0x120)], 3));
    assert_eq!(apply(0x1b, &[w(256), w(0x12)]), (vec![w(0)], 3));
    assert_eq!(apply(0x1c, &[w(4), w(0x120)]), (vec![w(0x12)], 3));
    assert_eq!(apply(0x1c, &[w(256), max()]), (vec![w(0)], 3));
    assert_eq!(apply(0x1d, &[w(4), w(0x120)]), (vec![w(0x12)], 3));
    assert_eq!(apply(0x1d, &[w(1), w(4).wrapping_neg()]), (vec![w(2).wrapping_neg()], 3));
    assert_eq!(apply(0x1d, &[w(256), max()]), (vec![max()], 3));
    assert_eq!(apply(0x1d, &[w(256), w(9)]), (vec![w(0)], 3));
}

#[test]
fn the_message_is_read() {
    assert_eq!(apply(0x30, &[]), (vec![address_as_word(0x10)], 2));
    assert_eq!(apply(0x33, &[]), (vec![address_as_word(0x30)], 2));
    assert_eq!(apply(0x34, &[]), (vec![w(1234)], 2));
    assert_eq!(apply(0x36, &[]), (vec![w(0)], 2));
    assert_eq!(apply(0x38, &[]), (vec![w(2)], 2));
    let out = exec_with(
        Revision::Cancun,
        &[0x36, 0x00],
        &frame(100, vec![1, 2, 3]),
        Vec::new(),
        None,
        None,
    );
    assert_eq!(out.result.stack, vec![w(3)]);
}

#[test]
fn the_transaction_and_the_block_are_read() {
    assert_eq!(apply(0x32, &[]), (vec![address_as_word(0x50)], 2));
    assert_eq!(apply(0x3a, &[]), (vec![w(7)], 2));
    assert_eq!(apply(0x41, &[]), (vec![address_as_word(0x70)], 2));
    assert_eq!(apply(0x42, &[]), (vec![w(1_700_000_000)], 2));
    assert_eq!(apply(0x43, &[]), (vec![w(1000)], 2));
    assert_eq!(apply(0x44, &[]), (vec![w(99)], 2));
    assert_eq!(apply(0x45, &[]), (vec![w(30_000_000)], 2));
    assert_eq!(apply(0x46, &[]), (vec![w(5)], 2));
    assert_eq!(apply(0x48, &[]), (vec![w(15)], 2));
    assert_eq!(apply(0x4a, &[]), (vec![w(3)], 2));
}

#[test]
fn a_negative_number_of_the_host_is_read_as_64_unsigned_bits() {
    let mut context = block();
    context.block_timestamp = -1;
    context.block_gas_limit = i64::MIN;
    let out = run(
        Revision::Cancun,
        &[0x42, 0x45, 0x00],
        &frame(100, Vec::new()),
        &context,
        None,
        StepStatusCode::Running,
        0,
        0,
        Vec::new(),
        Vec::new(),
        None,
        None,
    );
    assert_eq!(out.result.stack, vec![w(1 << 63), w(u64::MAX)]);
}

#[test]
fn blob_hashes_are_read_by_index() {
    assert_eq!(apply(0x49, &[w(0)]), (vec![w(0xb10b)], 3));
    assert_eq!(apply(0x49, &[w(1)]), (vec![w(0xb10c)], 3));
    assert_eq!(apply(0x49, &[w(2)]), (vec![w(0)], 3));
    assert_eq!(apply(0x49, &[max()]), (vec![w(0)], 3));
}

#[test]
fn the_state_of_the_run_is_read() {
    let out = exec(&[0x5b, 0x58, 0x59, 0x5a, 0x00], Vec::new());
    assert_eq!(out.exit, Exit::Stopped);
    // GAS on top: what is left after its own charge. Then MSIZE, then PC.
    assert_eq!(out.result.stack, vec![w(100 - 1 - 2 - 2 - 2), w(64), w(1)]);
    assert_eq!(out.result.gas_left, 93);
    assert_eq!(out.result.pc, 4);
}

#[test]
fn pop_and_jumpdest() {
    assert_eq!(apply(0x50, &[w(1), w(2)]), (vec![w(2)], 2));
    assert_eq!(apply(0x5b, &[w(1), w(2)]), (vec![w(1), w(2)], 1));
}

#[test]
fn call_data_is_loaded_with_zeros_after_its_end() {
    let input: Vec<u8> = (1..=40).collect();
    let load = |offset: Word| {
        let out = exec_with(
            Revision::Cancun,
            &[0x35, 0x00],
            &frame(100, input.clone()),
            vec![offset],
            None,
            None,
        );
        assert_eq!(out.exit, Exit::Stopped);
        assert_eq!(out.result.gas_left, 97);
        assert_eq!(out.result.stack.len(), 1);
        out.result.stack[0].to_be_bytes()
    };
    let mut expected = [0u8; 32];
    for i in 0..32 {
        expected[i] = i as u8 + 1;
    }
    assert_eq!(load(w(0)), expected);
    for i in 0..32 {
        expected[i] = if i < 8 { i as u8 + 33 } else { 0 };
    }
    assert_eq!(load(w(32)), expected);
    let mut last = [0u8; 32];
    last[0] = 40;
    assert_eq!(load(w(39)), last);
    assert_eq!(load(w(40)), [0; 32]);
    assert_eq!(load(w(41)), [0; 32]);
    assert_eq!(load(max()), [0; 32]);
    let mut huge = [0u8; 32];
    huge[0] = 1;
    assert_eq!(load(Word::from_be_bytes(huge)), [0; 32]);
}

#[test]
fn call_data_load_on_empty_input_gives_zero() {
    assert_eq!(apply(0x35, &[w(0)]), (vec![w(0)], 3));
}

#[test]
fn every_push_width_reads_its_immediate() {
    for n in 1..=32usize {
        let mut code = vec![0x5f + n as u8];
        code.extend((1..=n).map(|i| i as u8));
        code.push(0x00);
        let out = exec(&code, Vec::new());
        assert_eq!(out.exit, Exit::Stopped, "PUSH{n}");
        let mut expected = [0u8; 32];
        for i in 0..n {
            expected[32 - n + i] = i as u8 + 1;
        }
        assert_eq!(out.result.stack, vec![Word::from_be_bytes(expected)]);
        assert_eq!(out.result.pc as usize, n + 1);
        assert_eq!(out.result.gas_left, 97);
    }
}

#[test]
fn every_dup_and_swap_width_reaches_its_word() {
    let stack: Vec<Word> = (1..=17).map(w).collect();
    for n in 1..=16usize {
        let out = exec(&[0x7f + n as u8, 0x00], stack.clone());
        assert_eq!(out.exit, Exit::Stopped, "DUP{n}");
        assert_eq!(out.result.stack.len(), 18);
        assert_eq!(out.result.stack[0], w(18 - n as u64));
        assert_eq!(out.result.stack[1], w(17));
        assert_eq!(out.result.gas_left, 97);

        let out = exec(&[0x8f + n as u8, 0x00], stack.clone());
        assert_eq!(out.exit, Exit::Stopped, "SWAP{n}");
        assert_eq!(out.result.stack.len(), 17);
        assert_eq!(out.result.stack[0], w(17 - n as u64));
        assert_eq!(out.result.stack[n], w(17));
        assert_eq!(out.result.gas_left, 97);
    }
}

#[test]
fn a_truncated_push_is_an_internal_error() {
    let out = exec(&[0x61, 0x01], Vec::new());
    assert_eq!(out.exit, Exit::Failed(StatusCode::InternalError));
    assert_eq!(out.result.step_status_code, StepStatusCode::Failed);
    assert_eq!(out.result.gas_left, 97);
    assert_eq!(out.result.pc, 0);
    assert!(out.result.stack.is_empty());
}

#[test]
fn conditional_jump() {
    // PUSH1 1, PUSH1 6, JUMPI, STOP, JUMPDEST, PUSH1 9, STOP
    let taken = exec(&[0x60, 0x01, 0x60, 0x06, 0x57, 0x00, 0x5b, 0x60, 0x09, 0x00], Vec::new());
    assert_eq!(taken.exit, Exit::Stopped);
    assert_eq!(taken.result.stack, vec![w(9)]);
    assert_eq!(taken.result.gas_left, 100 - 3 - 3 - 10 - 1 - 3);
    assert_eq!(taken.result.pc, 9);

    let skipped = exec(&[0x60, 0x00, 0x60, 0x06, 0x57, 0x00, 0x5b, 0x60, 0x09, 0x00], Vec::new());
    assert_eq!(skipped.exit, Exit::Stopped);
    assert!(skipped.result.stack.is_empty());
    assert_eq!(skipped.result.gas_left, 100 - 3 - 3 - 10);
    assert_eq!(skipped.result.pc, 5);
}

#[test]
fn a_conditional_jump_that_is_not_taken_ignores_its_destination() {
    let out = exec(&[0x57, 0x00], vec![w(0), w(77)]);
    assert_eq!(out.exit, Exit::Stopped);
    assert_eq!(out.result.pc, 1);
}

#[test]
fn a_conditional_jump_to_a_bad_destination_fails() {
    let out = exec(&[0x57, 0x00], vec![w(5), w(1), w(1)]);
    assert_eq!(out.exit, Exit::Failed(StatusCode::BadJumpDestination));
    assert_eq!(out.result.gas_left, 90);
    assert_eq!(out.result.pc, 0);
    assert_eq!(out.result.stack, vec![w(5)]);
}

#[test]
fn instructions_are_gated_by_revision() {
    let run_at = |revision: Revision, code: &[u8], stack: Vec<Word>| {
        exec_with(revision, code, &frame(100, Vec::new()), stack, None, None)
    };
    for (code, first, stack) in [
        ([0x5f, 0x00], Revision::Shanghai, vec![]),
        ([0x48, 0x00], Revision::London, vec![]),
        ([0x49, 0x00], Revision::Cancun, vec![w(0)]),
        ([0x4a, 0x00], Revision::Cancun, vec![]),
    ] {
        let before = match first {
            Revision::London => Revision::Berlin,
            Revision::Shanghai => Revision::Paris,
            _ => Revision::Shanghai,
        };
        let out = run_at(before, &code, stack.clone());
        assert_eq!(out.exit, Exit::Failed(StatusCode::InternalError));
        assert_eq!(out.result.gas_left, 100);
        assert_eq!(out.result.stack, stack);
        assert_eq!(run_at(first, &code, stack.clone()).exit, Exit::Stopped);
        assert_eq!(run_at(Revision::Prague, &code, stack).exit, Exit::Stopped);
    }
}

#[test]
fn every_failure_has_its_status() {
    let gas = |gas: i64, code: &[u8], stack: Vec<Word>| {
        exec_with(Revision::Cancun, code, &frame(gas, Vec::new()), stack, None, None)
    };
    let out = gas(2, &[0x01], vec![w(1), w(2)]);
    assert_eq!(out.exit, Exit::Failed(StatusCode::OutOfGas));
    assert_eq!(out.result.status_code, StatusCode::OutOfGas);
    assert_eq!(out.result.step_status_code, StepStatusCode::Failed);
    assert_eq!(out.result.gas_left, 2);
    assert_eq!(out.result.stack, vec![w(2), w(1)]);

    let out = gas(100, &[0x01], vec![w(1)]);
    assert_eq!(out.exit, Exit::Failed(StatusCode::StackUnderflow));
    assert_eq!(out.result.stack, vec![w(1)]);

    let out = gas(100, &[0x30], vec![w(0); 1024]);
    assert_eq!(out.exit, Exit::Failed(StatusCode::StackOverflow));
    assert_eq!(out.result.gas_left, 98);
    assert_eq!(out.result.stack.len(), 1024);

    let out = gas(100, &[0x56], vec![w(0)]);
    assert_eq!(out.exit, Exit::Failed(StatusCode::BadJumpDestination));

    let out = gas(100, &[0x60], Vec::new());
    assert_eq!(out.exit, Exit::Failed(StatusCode::InternalError));

    let out = gas(100, &[], Vec::new());
    assert_eq!(out.exit, Exit::Failed(StatusCode::Failure));
    assert_eq!(out.result.status_code, StatusCode::Failure);
    assert_eq!(out.result.step_status_code, StepStatusCode::Failed);
}

#[test]
fn a_full_stack_still_takes_what_does_not_grow_it() {
    let out = exec(&[0x01, 0x00], vec![w(1); 1024]);
    assert_eq!(out.exit, Exit::Stopped);
    assert_eq!(out.result.stack.len(), 1023);
    assert_eq!(out.result.stack[0], w(2));
    let out = exec(&[0x90, 0x00], vec![w(1); 1024]);
    assert_eq!(out.exit, Exit::Stopped);
}

#[test]
fn running_off_the_end_of_the_code_fails() {
    let out = exec(&[0x5b], Vec::new());
    assert_eq!(out.exit, Exit::Failed(StatusCode::Failure));
    assert_eq!(out.result.pc, 1);
    assert_eq!(out.result.gas_left, 99);
}

#[test]
fn an_unknown_opcode_fails() {
    for op in [0x0c, 0x0f, 0x1e, 0x21, 0x4b, 0xa5, 0xef, 0xf6, 0xfb, 0xfc] {
        let out = exec(&[0x5b, op], vec![w(1)]);
        assert_eq!(out.exit, Exit::Failed(StatusCode::BadJumpDestination), "opcode {op:#x}");
        assert_eq!(out.result.step_status_code, StepStatusCode::Failed);
        assert_eq!(out.result.pc, 1);
        assert_eq!(out.result.gas_left, 99);
        assert_eq!(out.result.stack, vec![w(1)]);
    }
}

#[test]
fn an_instruction_of_the_driver_suspends_the_run() {
    for op in [
        0x20, 0x31, 0x37, 0x39, 0x3b, 0x3c, 0x3d, 0x3e, 0x3f, 0x51, 0x52, 0x53, 0x54, 0x55, 0x5c,
        0x5d, 0x5e, 0xa0, 0xa4, 0xf0, 0xf1, 0xf2, 0xf3, 0xf4, 0xf5, 0xfa, 0xfd, 0xfe, 0xff,
    ] {
        let out = exec_with(
            Revision::Cancun,
            &[0x5b, op],
            &frame(100, Vec::new()),
            vec![w(1)],
            Some(w(5)),
            Some(10),
        );
        assert_eq!(
            out.exit,
            Exit::Suspended { request: Request::Unsupported(op), steps_left: 9 },
            "opcode {op:#x}"
        );
        assert_eq!(out.result.step_status_code, StepStatusCode::Running);
        assert_eq!(out.result.status_code, StatusCode::Success);
        assert_eq!(out.result.pc, 1);
        assert_eq!(out.result.gas_left, 99);
        assert_eq!(out.result.stack, vec![w(1)]);
    }
}

#[test]
fn block_hash_outside_the_window_is_zero_without_the_host() {
    assert_eq!(apply(0x40, &[w(1000)]), (vec![w(0)], 20));
    assert_eq!(apply(0x40, &[w(1001)]), (vec![w(0)], 20));
    assert_eq!(apply(0x40, &[w(5000)]), (vec![w(0)], 20));
    assert_eq!(apply(0x40, &[max()]), (vec![w(0)], 20));
}

#[test]
fn block_hash_below_the_current_block_asks_the_host() {
    let code = [0x40, 0x00];
    let message = frame(100, Vec::new());
    let asked = exec_with(Revision::Cancun, &code, &message, vec![w(7), w(999)], None, Some(5));
    assert_eq!(
        asked.exit,
        Exit::Suspended { request: Request::BlockHash(999), steps_left: 5 }
    );
    assert_eq!(asked.result.gas_left, 100);
    assert_eq!(asked.result.pc, 0);
    assert_eq!(asked.result.stack, vec![w(999), w(7)]);

    let answered =
        exec_with(Revision::Cancun, &code, &message, vec![w(7), w(999)], Some(w(0xabcd)), Some(5));
    assert_eq!(answered.exit, Exit::Stopped);
    assert_eq!(answered.result.gas_left, 80);
    assert_eq!(answered.result.stack, vec![w(0xabcd), w(7)]);

    let oldest = exec_with(Revision::Cancun, &code, &message, vec![w(0)], None, None);
    assert_eq!(
        oldest.exit,
        Exit::Suspended { request: Request::BlockHash(0), steps_left: i32::MAX }
    );
}

#[test]
fn block_hash_that_would_fail_does_not_ask_the_host() {
    let code = [0x40, 0x00];
    let poor = exec_with(Revision::Cancun, &code, &frame(19, Vec::new()), vec![w(999)], None, None);
    assert_eq!(poor.exit, Exit::Failed(StatusCode::OutOfGas));
    let empty = exec_with(Revision::Cancun, &code, &frame(100, Vec::new()), Vec::new(), None, None);
    assert_eq!(empty.exit, Exit::Failed(StatusCode::StackUnderflow));
    assert_eq!(empty.result.gas_left, 80);
}

#[test]
fn self_balance_takes_the_answer_of_the_host() {
    let code = [0x47, 0x00];
    let message = frame(100, Vec::new());
    let asked = exec_with(Revision::Cancun, &code, &message, Vec::new(), None, None);
    assert_eq!(
        asked.exit,
        Exit::Suspended { request: Request::Balance(address(0x10)), steps_left: i32::MAX }
    );
    let answered = exec_with(Revision::Cancun, &code, &message, Vec::new(), Some(w(555)), None);
    assert_eq!(answered.exit, Exit::Stopped);
    assert_eq!(answered.result.stack, vec![w(555)]);
    assert_eq!(answered.result.gas_left, 95);

    let full = exec_with(Revision::Cancun, &code, &message, vec![w(0); 1024], None, None);
    assert_eq!(full.exit, Exit::Failed(StatusCode::StackOverflow));
    let poor = exec_with(Revision::Cancun, &code, &frame(4, Vec::new()), Vec::new(), None, None);
    assert_eq!(poor.exit, Exit::Failed(StatusCode::OutOfGas));
}

#[test]
fn an_answer_serves_the_first_instruction_only() {
    // Two SELFBALANCE in a row: the second asks again.
    let message = frame(100, Vec::new());
    let out = exec_with(Revision::Cancun, &[0x47, 0x47], &message, Vec::new(), Some(w(5)), Some(4));
    assert_eq!(
        out.exit,
        Exit::Suspended { request: Request::Balance(address(0x10)), steps_left: 3 }
    );
    assert_eq!(out.result.stack, vec![w(5)]);
    assert_eq!(out.result.pc, 1);
    // An answer that nothing asked for is dropped.
    assert_eq!(
        exec_with(Revision::Cancun, &[0x30, 0x00], &message, Vec::new(), Some(w(5)), None)
            .result
            .stack,
        vec![address_as_word(0x10)]
    );
}

#[test]
fn the_step_budget_bounds_the_run() {
    let code = [0x60, 0x05, 0x60, 0x07, 0x01, 0x00];
    let message = frame(100, Vec::new());
    let none = exec_with(Revision::Cancun, &code, &message, Vec::new(), None, Some(0));
    assert_eq!(none.exit, Exit::OutOfSteps);
    assert_eq!(none.result.step_status_code, StepStatusCode::Running);
    assert_eq!(none.result.status_code, StatusCode::Success);
    assert_eq!((none.result.pc, none.result.gas_left), (0, 100));
    let negative = exec_with(Revision::Cancun, &code, &message, Vec::new(), None, Some(-3));
    assert_eq!(negative.exit, Exit::OutOfSteps);
    assert_eq!((negative.result.pc, negative.result.gas_left), (0, 100));

    let two = exec_with(Revision::Cancun, &code, &message, Vec::new(), None, Some(2));
    assert_eq!(two.exit, Exit::OutOfSteps);
    assert_eq!(two.result.step_status_code, StepStatusCode::Running);
    assert_eq!((two.result.pc, two.result.gas_left), (4, 94));
    assert_eq!(two.result.stack, vec![w(7), w(5)]);

    let three = exec_with(Revision::Cancun, &code, &message, Vec::new(), None, Some(3));
    assert_eq!(three.exit, Exit::OutOfSteps);
    assert_eq!((three.result.pc, three.result.gas_left), (5, 91));
    let four = exec_with(Revision::Cancun, &code, &message, Vec::new(), None, Some(4));
    assert_eq!(four.exit, Exit::Stopped);
    assert_eq!(four.result.step_status_code, StepStatusCode::Stopped);
    assert_eq!((four.result.pc, four.result.gas_left), (5, 91));
}

#[test]
fn a_run_resumes_from_the_state_it_handed_back() {
    let code = [0x60, 0x05, 0x60, 0x07, 0x03, 0x00];
    let message = frame(100, Vec::new());
    let first = exec_with(Revision::Cancun, &code, &message, Vec::new(), None, Some(2));
    let mut stack = first.result.stack;
    stack.reverse();
    let second = run(
        Revision::Cancun,
        &code,
        &frame(first.result.gas_left, Vec::new()),
        &block(),
        None,
        first.result.step_status_code,
        first.result.pc as usize,
        first.result.gas_refund,
        stack,
        first.result.memory,
        first.result.last_call_return_data,
        None,
    );
    assert_eq!(second.exit, Exit::Stopped);
    assert_eq!(second.result.stack, vec![w(2)]);
    assert_eq!(second.result.gas_left, 91);
}

#[test]
fn what_the_run_does_not_use_is_handed_back_unchanged() {
    let out = run(
        Revision::Cancun,
        &[0x5b, 0x00],
        &frame(100, Vec::new()),
        &block(),
        None,
        StepStatusCode::Running,
        0,
        -17,
        Vec::new(),
        vec![1, 2, 3],
        Some(vec![9, 8]),
        None,
    );
    assert_eq!(out.result.revision, Revision::Cancun);
    assert_eq!(out.result.gas_refund, -17);
    assert_eq!(out.result.memory, vec![1, 2, 3]);
    assert_eq!(out.result.last_call_return_data, Some(vec![9, 8]));
    assert_eq!(out.result.output, None);
}

#[test]
fn a_run_can_start_anywhere() {
    let out = run(
        Revision::Cancun,
        &[0xfe, 0x60, 0x2a, 0x00],
        &frame(100, Vec::new()),
        &block(),
        None,
        StepStatusCode::Running,
        1,
        0,
        Vec::new(),
        Vec::new(),
        None,
        None,
    );
    assert_eq!(out.exit, Exit::Stopped);
    assert_eq!(out.result.stack, vec![w(0x2a)]);
    let past = run(
        Revision::Cancun,
        &[0x00],
        &frame(100, Vec::new()),
        &block(),
        None,
        StepStatusCode::Running,
        1,
        0,
        Vec::new(),
        Vec::new(),
        None,
        None,
    );
    assert_eq!(past.exit, Exit::Failed(StatusCode::Failure));
    assert_eq!(past.result.pc, 1);
}

#[test]
fn one_step_at_a_time() {
    let code = [0x60, 0x02, 0x80, 0x02, 0x00];
    let table = get_jump_destinations(&code);
    let message = frame(50, Vec::new());
    let context = block();
    let (mut pc, mut stack, mut gas) = (0usize, Vec::new(), 50i64);
    let mut next = |pc: &mut usize, stack: &mut Vec<Word>, gas: &mut i64| {
        step(Revision::Cancun, &code, &message, &context, &table, 0, None, pc, stack, gas)
    };
    assert_eq!(next(&mut pc, &mut stack, &mut gas), Ok(Flow::Continue));
    assert_eq!((pc, gas), (2, 47));
    assert_eq!(next(&mut pc, &mut stack, &mut gas), Ok(Flow::Continue));
    assert_eq!(stack, vec![w(2), w(2)]);
    assert_eq!(next(&mut pc, &mut stack, &mut gas), Ok(Flow::Continue));
    assert_eq!(stack, vec![w(4)]);
    assert_eq!((pc, gas), (4, 39));
    assert_eq!(next(&mut pc, &mut stack, &mut gas), Ok(Flow::Stop));
    assert_eq!((pc, gas), (4, 39));
    assert_eq!(next(&mut pc, &mut stack, &mut gas), Ok(Flow::Stop));
}

#[test]
fn a_failing_step_reports_the_failure() {
    let code = [0x01];
    let table = get_jump_destinations(&code);
    let (mut pc, mut stack, mut gas) = (0usize, vec![w(1)], 50i64);
    let result = step(
        Revision::Cancun,
        &code,
        &frame(50, Vec::new()),
        &block(),
        &table,
        0,
        None,
        &mut pc,
        &mut stack,
        &mut gas,
    );
    assert_eq!(result, Err((StepStatusCode::Failed, StatusCode::StackUnderflow)));
    assert_eq!((pc, gas), (0, 47));
    assert_eq!(stack, vec![w(1)]);
}

#[test]
fn steps_run_on_the_state_in_place() {
    let code = [0x60, 0x05, 0x47, 0x01, 0x00];
    let table = get_jump_destinations(&code);
    let message = frame(50, Vec::new());
    let context = block();
    let (mut pc, mut stack, mut gas) = (0usize, Vec::new(), 50i64);
    let exit = run_steps(
        Revision::Cancun, &code, &message, &context, &table, 0, None, &mut pc, &mut stack,
        &mut gas, 10,
    );
    assert_eq!(
        exit,
        Exit::Suspended { request: Request::Balance(address(0x10)), steps_left: 9 }
    );
    assert_eq!((pc, gas), (2, 47));
    assert_eq!(stack, vec![w(5)]);
    let exit = run_steps(
        Revision::Cancun, &code, &message, &context, &table, 0, Some(w(100)), &mut pc,
        &mut stack, &mut gas, 9,
    );
    assert_eq!(exit, Exit::Stopped);
    assert_eq!((pc, gas), (4, 39));
    assert_eq!(stack, vec![w(105)]);

    let out = package(
        Revision::Cancun,
        exit,
        StepStatusCode::Running,
        pc,
        gas,
        3,
        vec![w(1), w(2), w(3)],
        vec![7],
        None,
    );
    assert_eq!(out.exit, Exit::Stopped);
    assert_eq!(out.result.step_status_code, StepStatusCode::Stopped);
    assert_eq!(out.result.status_code, StatusCode::Success);
    assert_eq!(out.result.stack, vec![w(3), w(2), w(1)]);
    assert_eq!((out.result.pc, out.result.gas_left, out.result.gas_refund), (4, 39, 3));
    assert_eq!(out.result.memory, vec![7]);
}

#[test]
fn a_budget_that_runs_out_keeps_the_step_status_it_was_given() {
    let out = run(
        Revision::Cancun,
        &[0x5b, 0x5b],
        &frame(100, Vec::new()),
        &block(),
        None,
        StepStatusCode::Returned,
        0,
        0,
        Vec::new(),
        Vec::new(),
        None,
        Some(1),
    );
    assert_eq!(out.exit, Exit::OutOfSteps);
    assert_eq!(out.result.step_status_code, StepStatusCode::Returned);
    assert_eq!(out.result.status_code, StatusCode::Success);
}

#[test]
fn the_bounds_hold_after_every_run() {
    let programs: [&[u8]; 6] = [
        &[0x60, 0x05, 0x60, 0x07, 0x01, 0x00],
        &[0x5b, 0x60, 0x00, 0x56],
        &[0x5f, 0x5f, 0x5f, 0x5f, 0x5f, 0x5f],
        &[0x7f, 0x01],
        &[0x01, 0x02, 0x03],
        &[0x5b, 0x5b, 0x5b],
    ];
    for code in programs {
        for steps in 0..40 {
            let message = frame(100, Vec::new());
            let stack = vec![w(3); 1020];
            let out = exec_with(Revision::Cancun, code, &message, stack, None, Some(steps));
            assert!(out.result.stack.len() <= 1024);
            assert!(out.result.gas_left >= 0 && out.result.gas_left <= 100);
            assert!(out.result.pc as usize <= code.len());
        }
    }
}
