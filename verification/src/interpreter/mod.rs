//! The dispatch loop and the helpers that each instruction is made of.

pub mod jumpdest;
pub mod semantics;

use crate::encoding::be_value;
use crate::interpreter::jumpdest::{get_jump_destinations, is_jump_dest, JumpTable};
use crate::interpreter::semantics::{
    as_unsigned_64, calldata_bytes, calldata_word, effect_refines, env_of, exit_status,
    exit_step_status, is_deferred, is_executed, lemma_run_keeps_limits, lemma_run_spends_gas,
    machine_of, reply_value, run_spec, same_machine, stack_values, step_budget, step_refines,
    step_spec, Env, Outcome, STACK_LIMIT,
};
use crate::opcode;
use crate::types::{
    Address, Exit, Flow, Message, Request, Revision, RunResult, StatusCode, StepResult,
    StepStatusCode, TxContext,
};
use crate::word::Word;
use vstd::prelude::*;

verus! {

/// Fails with `InternalError` where the active revision is older than the
/// one that introduced an instruction.
pub fn check_min_revision(min_revision: Revision, revision: Revision) -> (r: Result<
    (),
    (StepStatusCode, StatusCode),
>)
    ensures
        r == if revision.precedes(min_revision) {
            Err::<(), _>((StepStatusCode::Failed, StatusCode::InternalError))
        } else {
            Ok(())
        },
{
    if revision.rank() < min_revision.rank() {
        return Err((StepStatusCode::Failed, StatusCode::InternalError));
    }
    Ok(())
}

/// Charges a cost that is known where the call is written: fails with
/// `OutOfGas` and charges nothing where less than `GAS` is left.
pub fn consume_gas<const GAS: u64>(gas_left: &mut i64) -> (r: Result<
    (),
    (StepStatusCode, StatusCode),
>)
    ensures
        r == if *old(gas_left) < GAS {
            Err::<(), _>((StepStatusCode::Failed, StatusCode::OutOfGas))
        } else {
            Ok(())
        },
        *final(gas_left) == if *old(gas_left) < GAS {
            *old(gas_left) as int
        } else {
            *old(gas_left) - GAS
        },
{
    consume_dyn_gas(gas_left, GAS)
}

/// Charges a cost that is computed during the run: fails with `OutOfGas`
/// and charges nothing where less than `needed` is left.
pub fn consume_dyn_gas(gas_left: &mut i64, needed: u64) -> (r: Result<
    (),
    (StepStatusCode, StatusCode),
>)
    ensures
        r == if *old(gas_left) < needed {
            Err::<(), _>((StepStatusCode::Failed, StatusCode::OutOfGas))
        } else {
            Ok(())
        },
        *final(gas_left) == if *old(gas_left) < needed {
            *old(gas_left) as int
        } else {
            *old(gas_left) - needed
        },
{
    if needed > i64::MAX as u64 || *gas_left < needed as i64 {
        return Err((StepStatusCode::Failed, StatusCode::OutOfGas));
    }
    *gas_left -= needed as i64;
    Ok(())
}

/// Fails with `StackOverflow` where `N` more words would take the stack
/// past its limit.
pub fn check_stack_overflow<const N: usize>(stack: &[Word]) -> (r: Result<
    (),
    (StepStatusCode, StatusCode),
>)
    ensures
        r == if stack@.len() + N > STACK_LIMIT {
            Err::<(), _>((StepStatusCode::Failed, StatusCode::StackOverflow))
        } else {
            Ok(())
        },
{
    if stack.len() > STACK_LIMIT || N > STACK_LIMIT - stack.len() {
        return Err((StepStatusCode::Failed, StatusCode::StackOverflow));
    }
    Ok(())
}

/// Takes the top `N` words off the stack, the top one first. Fails with
/// `StackUnderflow`, and takes nothing, where the stack holds fewer.
pub fn pop_from_stack<const N: usize>(stack: &mut Vec<Word>) -> (r: Result<
    [Word; N],
    (StepStatusCode, StatusCode),
>)
    ensures
        old(stack)@.len() < N ==> r == Err::<[Word; N], _>(
            (StepStatusCode::Failed, StatusCode::StackUnderflow),
        ) && final(stack)@ == old(stack)@,
        old(stack)@.len() >= N ==> r is Ok && final(stack)@ == old(stack)@.subrange(
            0,
            old(stack)@.len() - N,
        ) && forall|i: int|
            0 <= i < N ==> (#[trigger] r->Ok_0@[i]) == old(stack)@[old(stack)@.len() - 1 - i],
{
    if stack.len() < N {
        return Err((StepStatusCode::Failed, StatusCode::StackUnderflow));
    }
    let mut array = [Word::zero();N];
    let mut i: usize = 0;
    while i < N
        invariant
            i <= N,
            old(stack)@.len() >= N,
            stack@ == old(stack)@.subrange(0, old(stack)@.len() - i),
            forall|j: int|
                0 <= j < i ==> (#[trigger] array@[j]) == old(stack)@[old(stack)@.len() - 1 - j],
        decreases N - i,
    {
        let top = stack.pop().unwrap();
        array[i] = top;
        i += 1;
        assert(stack@ =~= old(stack)@.subrange(0, old(stack)@.len() - i));
    }
    Ok(array)
}

/// The word `N` places from the top, the top being place 1. Fails with
/// `StackUnderflow` where the stack holds fewer than `N`.
pub fn nth_ref_from_stack<const N: usize>(stack: &[Word]) -> (r: Result<
    &Word,
    (StepStatusCode, StatusCode),
>)
    requires
        N >= 1,
    ensures
        r == if stack@.len() < N {
            Err::<&Word, _>((StepStatusCode::Failed, StatusCode::StackUnderflow))
        } else {
            Ok(&stack@[stack@.len() - N])
        },
{
    if stack.len() < N {
        return Err((StepStatusCode::Failed, StatusCode::StackUnderflow));
    }
    Ok(&stack[stack.len() - N])
}

/// `PUSHn`: charges 3, checks for room on the stack, and pushes the `N`
/// bytes that follow the opcode, read as one big-endian number. Fails with
/// `InternalError` where the code ends before the last of them.
pub fn push<const N: usize>(
    code: &[u8],
    pc: &mut usize,
    stack: &mut Vec<Word>,
    gas_left: &mut i64,
) -> (r: Result<(), (StepStatusCode, StatusCode)>)
    requires
        N <= 32,
    ensures
        r == if *old(gas_left) < 3 {
            Err::<(), _>((StepStatusCode::Failed, StatusCode::OutOfGas))
        } else if old(stack)@.len() + 1 > STACK_LIMIT {
            Err((StepStatusCode::Failed, StatusCode::StackOverflow))
        } else if *old(pc) + N >= code@.len() {
            Err((StepStatusCode::Failed, StatusCode::InternalError))
        } else {
            Ok(())
        },
        *final(gas_left) == if *old(gas_left) < 3 {
            *old(gas_left) as int
        } else {
            *old(gas_left) - 3
        },
        r is Err ==> *final(pc) == *old(pc) && final(stack)@ == old(stack)@,
        r is Ok ==> *final(pc) == *old(pc) + 1 + N && final(stack)@.len() == old(stack)@.len() + 1
            && final(stack)@.drop_last() == old(stack)@ && final(stack)@.last()@ == be_value(
            code@.subrange(*old(pc) + 1, *old(pc) + 1 + N),
        ),
{
    consume_gas::<3>(gas_left)?;
    check_stack_overflow::<1>(stack)?;
    if *pc >= code.len() || code.len() - *pc <= N {
        return Err((StepStatusCode::Failed, StatusCode::InternalError));
    }
    *pc += 1;
    let len = code.len();
    let mut immediate: Vec<u8> = Vec::new();
    let mut i: usize = 0;
    while i < N
        invariant
            i <= N,
            len == code@.len(),
            *pc + N <= len,
            immediate@ == code@.subrange(*pc as int, *pc + i),
        decreases N - i,
    {
        immediate.push(code[*pc + i]);
        i += 1;
        assert(immediate@ =~= code@.subrange(*pc as int, *pc + i));
    }
    let word = Word::from_be_slice(immediate.as_slice());
    stack.push(word);
    *pc += N;
    assert(stack@.drop_last() =~= old(stack)@);
    Ok(())
}

/// `DUPn`: charges 3, checks for room on the stack, and pushes a copy of
/// the word `N` places from the top, the top being place 1.
pub fn dup<const N: usize>(pc: &mut usize, stack: &mut Vec<Word>, gas_left: &mut i64) -> (r:
    Result<(), (StepStatusCode, StatusCode)>)
    requires
        N >= 1,
        *old(pc) < usize::MAX,
    ensures
        r == if *old(gas_left) < 3 {
            Err::<(), _>((StepStatusCode::Failed, StatusCode::OutOfGas))
        } else if old(stack)@.len() + 1 > STACK_LIMIT {
            Err((StepStatusCode::Failed, StatusCode::StackOverflow))
        } else if old(stack)@.len() < N {
            Err((StepStatusCode::Failed, StatusCode::StackUnderflow))
        } else {
            Ok(())
        },
        *final(gas_left) == if *old(gas_left) < 3 {
            *old(gas_left) as int
        } else {
            *old(gas_left) - 3
        },
        r is Err ==> *final(pc) == *old(pc) && final(stack)@ == old(stack)@,
        r is Ok ==> *final(pc) == *old(pc) + 1 && final(stack)@ == old(stack)@.push(
            old(stack)@[old(stack)@.len() - N],
        ),
{
    consume_gas::<3>(gas_left)?;
    check_stack_overflow::<1>(stack)?;
    let nth = nth_ref_from_stack::<N>(stack)?;
    let nth = *nth;

    stack.push(nth);
    *pc += 1;

    Ok(())
}

/// `SWAPn`: charges 3 and exchanges the top of the stack with the word `N`
/// places below it.
pub fn swap<const N: usize>(pc: &mut usize, stack: &mut Vec<Word>, gas_left: &mut i64) -> (r:
    Result<(), (StepStatusCode, StatusCode)>)
    requires
        *old(pc) < usize::MAX,
    ensures
        r == if *old(gas_left) < 3 {
            Err::<(), _>((StepStatusCode::Failed, StatusCode::OutOfGas))
        } else if old(stack)@.len() < N + 1 {
            Err((StepStatusCode::Failed, StatusCode::StackUnderflow))
        } else {
            Ok(())
        },
        *final(gas_left) == if *old(gas_left) < 3 {
            *old(gas_left) as int
        } else {
            *old(gas_left) - 3
        },
        r is Err ==> *final(pc) == *old(pc) && final(stack)@ == old(stack)@,
        r is Ok ==> *final(pc) == *old(pc) + 1 && final(stack)@ == old(stack)@.update(
            old(stack)@.len() - 1,
            old(stack)@[old(stack)@.len() - 1 - N],
        ).update(old(stack)@.len() - 1 - N, old(stack)@[old(stack)@.len() - 1]),
{
    consume_gas::<3>(gas_left)?;
    let len = stack.len();
    if len <= N {
        return Err((StepStatusCode::Failed, StatusCode::StackUnderflow));
    }
    let top = stack[len - 1];
    let other = stack[len - 1 - N];
    stack[len - 1] = other;
    stack[len - 1 - N] = top;
    *pc += 1;

    Ok(())
}

/// Moves the program counter to `dest`. Fails with `BadJumpDestination`,
/// and moves nothing, where `dest` does not fit in 64 bits or is no valid
/// destination.
pub fn jump(dest: Word, pc: &mut usize, jump_destinations: &JumpTable) -> (r: Result<
    (),
    (StepStatusCode, StatusCode),
>)
    ensures
        r == if jump_destinations@.contains(dest@ as int) {
            Ok::<(), (StepStatusCode, StatusCode)>(())
        } else {
            Err((StepStatusCode::Failed, StatusCode::BadJumpDestination))
        },
        *final(pc) == if jump_destinations@.contains(dest@ as int) {
            dest@ as int
        } else {
            *old(pc) as int
        },
{
    proof {
        jump_destinations.lemma_in_range();
    }
    match dest.as_u64() {
        Some(d) => {
            if d <= usize::MAX as u64 && jump_destinations.contains(d as usize) {
                *pc = d as usize;
                Ok(())
            } else {
                Err((StepStatusCode::Failed, StatusCode::BadJumpDestination))
            }
        },
        None => Err((StepStatusCode::Failed, StatusCode::BadJumpDestination)),
    }
}

/// The instructions from `ADD` to `SIGNEXTEND`.
fn arithmetic(
    op: u8,
    pc: &mut usize,
    stack: &mut Vec<Word>,
    gas_left: &mut i64,
    Ghost(env): Ghost<Env>,
    Ghost(reply): Ghost<Option<nat>>,
) -> (r: Result<(), (StepStatusCode, StatusCode)>)
    requires
        opcode::ADD <= op <= opcode::SIGNEXTEND,
        *old(pc) < env.code.len() <= usize::MAX,
        env.code[*old(pc) as int] == op,
    ensures
        effect_refines(
            step_spec(env, machine_of(*old(pc), *old(gas_left), old(stack)@), reply),
            r,
            machine_of(*final(pc), *final(gas_left), final(stack)@),
        ),
{
    if op == opcode::ADD {
        consume_gas::<3>(gas_left)?;
        let args = pop_from_stack::<2>(stack)?;
        stack.push(args[0].wrapping_add(&args[1]));
    } else if op == opcode::MUL {
        consume_gas::<5>(gas_left)?;
        let args = pop_from_stack::<2>(stack)?;
        stack.push(args[0].wrapping_mul(&args[1]));
    } else if op == opcode::SUB {
        consume_gas::<3>(gas_left)?;
        let args = pop_from_stack::<2>(stack)?;
        stack.push(args[0].wrapping_sub(&args[1]));
    } else if op == opcode::DIV {
        consume_gas::<5>(gas_left)?;
        let args = pop_from_stack::<2>(stack)?;
        stack.push(args[0].div(&args[1]));
    } else if op == opcode::SDIV {
        consume_gas::<5>(gas_left)?;
        let args = pop_from_stack::<2>(stack)?;
        stack.push(args[0].sdiv(&args[1]));
    } else if op == opcode::MOD {
        consume_gas::<5>(gas_left)?;
        let args = pop_from_stack::<2>(stack)?;
        stack.push(args[0].rem(&args[1]));
    } else if op == opcode::SMOD {
        consume_gas::<5>(gas_left)?;
        let args = pop_from_stack::<2>(stack)?;
        stack.push(args[0].srem(&args[1]));
    } else if op == opcode::ADDMOD {
        consume_gas::<8>(gas_left)?;
        let args = pop_from_stack::<3>(stack)?;
        stack.push(Word::addmod(&args[0], &args[1], &args[2]));
    } else if op == opcode::MULMOD {
        consume_gas::<8>(gas_left)?;
        let args = pop_from_stack::<3>(stack)?;
        stack.push(Word::mulmod(&args[0], &args[1], &args[2]));
    } else if op == opcode::EXP {
        consume_gas::<10>(gas_left)?;
        let exponent = *nth_ref_from_stack::<2>(stack)?;
        let dyn_gas: u64 = 50 * (exponent.byte_len() as u64);
        consume_dyn_gas(gas_left, dyn_gas)?;
        let args = pop_from_stack::<2>(stack)?;
        stack.push(args[0].exp(&args[1]));
    } else {
        consume_gas::<5>(gas_left)?;
        let args = pop_from_stack::<2>(stack)?;
        stack.push(args[0].signextend(&args[1]));
    }
    *pc += 1;
    Ok(())
}

/// The instructions from `LT` to `SAR`.
fn comparison(
    op: u8,
    pc: &mut usize,
    stack: &mut Vec<Word>,
    gas_left: &mut i64,
    Ghost(env): Ghost<Env>,
    Ghost(reply): Ghost<Option<nat>>,
) -> (r: Result<(), (StepStatusCode, StatusCode)>)
    requires
        opcode::LT <= op <= opcode::SAR,
        *old(pc) < env.code.len() <= usize::MAX,
        env.code[*old(pc) as int] == op,
    ensures
        effect_refines(
            step_spec(env, machine_of(*old(pc), *old(gas_left), old(stack)@), reply),
            r,
            machine_of(*final(pc), *final(gas_left), final(stack)@),
        ),
{
    consume_gas::<3>(gas_left)?;
    if op == opcode::ISZERO {
        let args = pop_from_stack::<1>(stack)?;
        stack.push(Word::from_bool(args[0].is_zero()));
    } else if op == opcode::NOT {
        let args = pop_from_stack::<1>(stack)?;
        stack.push(args[0].not());
    } else {
        let args = pop_from_stack::<2>(stack)?;
        let top = args[0];
        let top2 = args[1];
        if op == opcode::LT {
            stack.push(Word::from_bool(top.lt(&top2)));
        } else if op == opcode::GT {
            stack.push(Word::from_bool(top.gt(&top2)));
        } else if op == opcode::SLT {
            stack.push(Word::from_bool(top.slt(&top2)));
        } else if op == opcode::SGT {
            stack.push(Word::from_bool(top.sgt(&top2)));
        } else if op == opcode::EQ {
            stack.push(Word::from_bool(top.eq(&top2)));
        } else if op == opcode::AND {
            stack.push(top.bitand(&top2));
        } else if op == opcode::OR {
            stack.push(top.bitor(&top2));
        } else if op == opcode::XOR {
            stack.push(top.bitxor(&top2));
        } else if op == opcode::BYTE {
            stack.push(top2.byte(&top));
        } else if op == opcode::SHL {
            stack.push(top2.shl(&top));
        } else if op == opcode::SHR {
            stack.push(top2.shr(&top));
        } else {
            stack.push(top2.sar(&top));
        }
    }
    *pc += 1;
    Ok(())
}

/// An address as a word: its 20 bytes with zeros in front.
fn address_word(address: &Address) -> (w: Word)
    ensures
        w@ == be_value(address.bytes@),
{
    Word::from_be_slice(address.bytes.as_slice())
}

/// A signed number of the host as a word: its 64 bits read as unsigned.
fn signed_word(x: i64) -> (w: Word)
    ensures
        w@ == as_unsigned_64(x),
{
    if x >= 0 {
        Word::from_u64(x as u64)
    } else {
        Word::from_u64(u64::MAX - ((-(x + 1)) as u64))
    }
}

/// The 32 bytes of call data from `offset` on, with zeros where the data
/// has ended.
fn load_call_data(input: &Vec<u8>, offset: &Word) -> (w: Word)
    ensures
        w@ == calldata_word(input@, offset@),
{
    let len = input.len();
    let start: usize = match offset.as_u64() {
        Some(o) => {
            if o >= len as u64 {
                return Word::zero();
            }
            o as usize
        },
        None => {
            return Word::zero();
        },
    };
    let mut bytes = [0u8; 32];
    let mut i: usize = 0;
    while i < 32 && i < len - start
        invariant
            i <= 32,
            start < len,
            i <= len - start,
            len == input@.len(),
            forall|j: int| 0 <= j < i ==> bytes@[j] == input@[start + j],
            forall|j: int| i <= j < 32 ==> bytes@[j] == 0,
        decreases 32 - i,
    {
        bytes[i] = input[start + i];
        i += 1;
    }
    assert(bytes@ =~= calldata_bytes(input@, start as nat));
    Word::from_be_bytes(bytes)
}

/// The instructions from `ADDRESS` to `BLOBBASEFEE` that read the message,
/// the code, the transaction or the block.
fn environment(
    op: u8,
    revision: Revision,
    code: &[u8],
    message: &Message,
    tx_context: &TxContext,
    host_reply: Option<Word>,
    pc: &mut usize,
    stack: &mut Vec<Word>,
    gas_left: &mut i64,
    Ghost(env): Ghost<Env>,
) -> (r: Result<(), (StepStatusCode, StatusCode)>)
    requires
        opcode::ADDRESS <= op <= opcode::BLOBBASEFEE,
        is_executed(op),
        *old(pc) < env.code.len() <= usize::MAX,
        env.code[*old(pc) as int] == op,
        env.revision == revision,
        env.code == code@,
        env.message == *message,
        env.tx_context == *tx_context,
        host_reply is None ==> !(step_spec(
            env,
            machine_of(*old(pc), *old(gas_left), old(stack)@),
            None,
        ) is Suspend),
    ensures
        effect_refines(
            step_spec(
                env,
                machine_of(*old(pc), *old(gas_left), old(stack)@),
                reply_value(host_reply),
            ),
            r,
            machine_of(*final(pc), *final(gas_left), final(stack)@),
        ),
{
    if op == opcode::ADDRESS {
        consume_gas::<2>(gas_left)?;
        check_stack_overflow::<1>(stack)?;
        stack.push(address_word(&message.recipient));
    } else if op == opcode::ORIGIN {
        consume_gas::<2>(gas_left)?;
        check_stack_overflow::<1>(stack)?;
        stack.push(address_word(&tx_context.tx_origin));
    } else if op == opcode::CALLER {
        consume_gas::<2>(gas_left)?;
        check_stack_overflow::<1>(stack)?;
        stack.push(address_word(&message.sender));
    } else if op == opcode::CALLVALUE {
        consume_gas::<2>(gas_left)?;
        check_stack_overflow::<1>(stack)?;
        stack.push(message.value);
    } else if op == opcode::CALLDATALOAD {
        consume_gas::<3>(gas_left)?;
        let args = pop_from_stack::<1>(stack)?;
        stack.push(load_call_data(&message.input, &args[0]));
    } else if op == opcode::CALLDATASIZE {
        consume_gas::<2>(gas_left)?;
        check_stack_overflow::<1>(stack)?;
        stack.push(Word::from_u64(message.input.len() as u64));
    } else if op == opcode::CODESIZE {
        consume_gas::<2>(gas_left)?;
        check_stack_overflow::<1>(stack)?;
        stack.push(Word::from_u64(code.len() as u64));
    } else if op == opcode::GASPRICE {
        consume_gas::<2>(gas_left)?;
        check_stack_overflow::<1>(stack)?;
        stack.push(tx_context.tx_gas_price);
    } else if op == opcode::BLOCKHASH {
        consume_gas::<20>(gas_left)?;
        let args = pop_from_stack::<1>(stack)?;
        let current = tx_context.block_number;
        let in_range = match args[0].as_u64() {
            Some(number) => current > 0 && number < current as u64,
            None => false,
        };
        if in_range {
            stack.push(host_reply.unwrap());
        } else {
            stack.push(Word::zero());
        }
    } else if op == opcode::COINBASE {
        consume_gas::<2>(gas_left)?;
        check_stack_overflow::<1>(stack)?;
        stack.push(address_word(&tx_context.block_coinbase));
    } else if op == opcode::TIMESTAMP {
        consume_gas::<2>(gas_left)?;
        check_stack_overflow::<1>(stack)?;
        stack.push(signed_word(tx_context.block_timestamp));
    } else if op == opcode::NUMBER {
        consume_gas::<2>(gas_left)?;
        check_stack_overflow::<1>(stack)?;
        stack.push(signed_word(tx_context.block_number));
    } else if op == opcode::PREVRANDAO {
        consume_gas::<2>(gas_left)?;
        check_stack_overflow::<1>(stack)?;
        stack.push(tx_context.block_prev_randao);
    } else if op == opcode::GASLIMIT {
        consume_gas::<2>(gas_left)?;
        check_stack_overflow::<1>(stack)?;
        stack.push(signed_word(tx_context.block_gas_limit));
    } else if op == opcode::CHAINID {
        consume_gas::<2>(gas_left)?;
        check_stack_overflow::<1>(stack)?;
        stack.push(tx_context.chain_id);
    } else if op == opcode::SELFBALANCE {
        consume_gas::<5>(gas_left)?;
        check_stack_overflow::<1>(stack)?;
        stack.push(host_reply.unwrap());
    } else if op == opcode::BASEFEE {
        check_min_revision(Revision::London, revision)?;
        consume_gas::<2>(gas_left)?;
        check_stack_overflow::<1>(stack)?;
        stack.push(tx_context.block_base_fee);
    } else if op == opcode::BLOBHASH {
        check_min_revision(Revision::Cancun, revision)?;
        consume_gas::<3>(gas_left)?;
        let args = pop_from_stack::<1>(stack)?;
        let count = tx_context.blob_hashes.len();
        let hash = match args[0].as_u64() {
            Some(index) => {
                if index < count as u64 {
                    tx_context.blob_hashes[index as usize]
                } else {
                    Word::zero()
                }
            },
            None => Word::zero(),
        };
        stack.push(hash);
    } else {
        check_min_revision(Revision::Cancun, revision)?;
        consume_gas::<2>(gas_left)?;
        check_stack_overflow::<1>(stack)?;
        stack.push(tx_context.blob_base_fee);
    }
    *pc += 1;
    Ok(())
}

/// The instructions from `POP` to `PUSH0` that the interpreter executes.
fn control(
    op: u8,
    revision: Revision,
    memory_size: usize,
    jump_destinations: &JumpTable,
    pc: &mut usize,
    stack: &mut Vec<Word>,
    gas_left: &mut i64,
    Ghost(env): Ghost<Env>,
    Ghost(reply): Ghost<Option<nat>>,
) -> (r: Result<(), (StepStatusCode, StatusCode)>)
    requires
        opcode::POP <= op <= opcode::PUSH0,
        is_executed(op),
        *old(pc) < env.code.len() <= usize::MAX,
        env.code[*old(pc) as int] == op,
        env.revision == revision,
        env.memory_size == memory_size,
        forall|d: int| jump_destinations@.contains(d) <==> is_jump_dest(env.code, d),
    ensures
        effect_refines(
            step_spec(env, machine_of(*old(pc), *old(gas_left), old(stack)@), reply),
            r,
            machine_of(*final(pc), *final(gas_left), final(stack)@),
        ),
{
    if op == opcode::POP {
        consume_gas::<2>(gas_left)?;
        let _ = pop_from_stack::<1>(stack)?;
        *pc += 1;
    } else if op == opcode::JUMP {
        consume_gas::<8>(gas_left)?;
        let args = pop_from_stack::<1>(stack)?;
        jump(args[0], pc, jump_destinations)?;
    } else if op == opcode::JUMPI {
        consume_gas::<10>(gas_left)?;
        let args = pop_from_stack::<2>(stack)?;
        if args[1].is_zero() {
            *pc += 1;
        } else {
            jump(args[0], pc, jump_destinations)?;
        }
    } else if op == opcode::PC {
        consume_gas::<2>(gas_left)?;
        check_stack_overflow::<1>(stack)?;
        stack.push(Word::from_u64(*pc as u64));
        *pc += 1;
    } else if op == opcode::MSIZE {
        consume_gas::<2>(gas_left)?;
        check_stack_overflow::<1>(stack)?;
        stack.push(Word::from_u64(memory_size as u64));
        *pc += 1;
    } else if op == opcode::GAS {
        consume_gas::<2>(gas_left)?;
        check_stack_overflow::<1>(stack)?;
        stack.push(Word::from_u64(*gas_left as u64));
        *pc += 1;
    } else if op == opcode::JUMPDEST {
        consume_gas::<1>(gas_left)?;
        *pc += 1;
    } else {
        check_min_revision(Revision::Shanghai, revision)?;
        consume_gas::<2>(gas_left)?;
        check_stack_overflow::<1>(stack)?;
        stack.push(Word::zero());
        *pc += 1;
    }
    Ok(())
}

/// The instructions `PUSH1` to `PUSH32`.
fn push_family(
    op: u8,
    code: &[u8],
    pc: &mut usize,
    stack: &mut Vec<Word>,
    gas_left: &mut i64,
    Ghost(env): Ghost<Env>,
    Ghost(reply): Ghost<Option<nat>>,
) -> (r: Result<(), (StepStatusCode, StatusCode)>)
    requires
        opcode::PUSH1 <= op <= opcode::PUSH32,
        *old(pc) < env.code.len() <= usize::MAX,
        env.code[*old(pc) as int] == op,
        env.code == code@,
    ensures
        effect_refines(
            step_spec(env, machine_of(*old(pc), *old(gas_left), old(stack)@), reply),
            r,
            machine_of(*final(pc), *final(gas_left), final(stack)@),
        ),
{
    let r = if op == opcode::PUSH1 {
        push::<1>(code, pc, stack, gas_left)
    } else if op == opcode::PUSH2 {
        push::<2>(code, pc, stack, gas_left)
    } else if op == opcode::PUSH3 {
        push::<3>(code, pc, stack, gas_left)
    } else if op == opcode::PUSH4 {
        push::<4>(code, pc, stack, gas_left)
    } else if op == opcode::PUSH5 {
        push::<5>(code, pc, stack, gas_left)
    } else if op == opcode::PUSH6 {
        push::<6>(code, pc, stack, gas_left)
    } else if op == opcode::PUSH7 {
        push::<7>(code, pc, stack, gas_left)
    } else if op == opcode::PUSH8 {
        push::<8>(code, pc, stack, gas_left)
    } else if op == opcode::PUSH9 {
        push::<9>(code, pc, stack, gas_left)
    } else if op == opcode::PUSH10 {
        push::<10>(code, pc, stack, gas_left)
    } else if op == opcode::PUSH11 {
        push::<11>(code, pc, stack, gas_left)
    } else if op == opcode::PUSH12 {
        push::<12>(code, pc, stack, gas_left)
    } else if op == opcode::PUSH13 {
        push::<13>(code, pc, stack, gas_left)
    } else if op == opcode::PUSH14 {
        push::<14>(code, pc, stack, gas_left)
    } else if op == opcode::PUSH15 {
        push::<15>(code, pc, stack, gas_left)
    } else if op == opcode::PUSH16 {
        push::<16>(code, pc, stack, gas_left)
    } else if op == opcode::PUSH17 {
        push::<17>(code, pc, stack, gas_left)
    } else if op == opcode::PUSH18 {
        push::<18>(code, pc, stack, gas_left)
    } else if op == opcode::PUSH19 {
        push::<19>(code, pc, stack, gas_left)
    } else if op == opcode::PUSH20 {
        push::<20>(code, pc, stack, gas_left)
    } else if op == opcode::PUSH21 {
        push::<21>(code, pc, stack, gas_left)
    } else if op == opcode::PUSH22 {
        push::<22>(code, pc, stack, gas_left)
    } else if op == opcode::PUSH23 {
        push::<23>(code, pc, stack, gas_left)
    } else if op == opcode::PUSH24 {
        push::<24>(code, pc, stack, gas_left)
    } else if op == opcode::PUSH25 {
        push::<25>(code, pc, stack, gas_left)
    } else if op == opcode::PUSH26 {
        push::<26>(code, pc, stack, gas_left)
    } else if op == opcode::PUSH27 {
        push::<27>(code, pc, stack, gas_left)
    } else if op == opcode::PUSH28 {
        push::<28>(code, pc, stack, gas_left)
    } else if op == opcode::PUSH29 {
        push::<29>(code, pc, stack, gas_left)
    } else if op == opcode::PUSH30 {
        push::<30>(code, pc, stack, gas_left)
    } else if op == opcode::PUSH31 {
        push::<31>(code, pc, stack, gas_left)
    } else {
        push::<32>(code, pc, stack, gas_left)
    };
    proof {
        if r is Ok {
            assert(stack@ =~= old(stack)@.push(stack@.last()));
        }
    }
    r
}

/// The instructions `DUP1` to `DUP16`.
fn dup_family(
    op: u8,
    pc: &mut usize,
    stack: &mut Vec<Word>,
    gas_left: &mut i64,
    Ghost(env): Ghost<Env>,
    Ghost(reply): Ghost<Option<nat>>,
) -> (r: Result<(), (StepStatusCode, StatusCode)>)
    requires
        opcode::DUP1 <= op <= opcode::DUP16,
        *old(pc) < env.code.len() <= usize::MAX,
        env.code[*old(pc) as int] == op,
    ensures
        effect_refines(
            step_spec(env, machine_of(*old(pc), *old(gas_left), old(stack)@), reply),
            r,
            machine_of(*final(pc), *final(gas_left), final(stack)@),
        ),
{
    if op == opcode::DUP1 {
        dup::<1>(pc, stack, gas_left)
    } else if op == opcode::DUP2 {
        dup::<2>(pc, stack, gas_left)
    } else if op == opcode::DUP3 {
        dup::<3>(pc, stack, gas_left)
    } else if op == opcode::DUP4 {
        dup::<4>(pc, stack, gas_left)
    } else if op == opcode::DUP5 {
        dup::<5>(pc, stack, gas_left)
    } else if op == opcode::DUP6 {
        dup::<6>(pc, stack, gas_left)
    } else if op == opcode::DUP7 {
        dup::<7>(pc, stack, gas_left)
    } else if op == opcode::DUP8 {
        dup::<8>(pc, stack, gas_left)
    } else if op == opcode::DUP9 {
        dup::<9>(pc, stack, gas_left)
    } else if op == opcode::DUP10 {
        dup::<10>(pc, stack, gas_left)
    } else if op == opcode::DUP11 {
        dup::<11>(pc, stack, gas_left)
    } else if op == opcode::DUP12 {
        dup::<12>(pc, stack, gas_left)
    } else if op == opcode::DUP13 {
        dup::<13>(pc, stack, gas_left)
    } else if op == opcode::DUP14 {
        dup::<14>(pc, stack, gas_left)
    } else if op == opcode::DUP15 {
        dup::<15>(pc, stack, gas_left)
    } else {
        dup::<16>(pc, stack, gas_left)
    }
}

/// The instructions `SWAP1` to `SWAP16`.
fn swap_family(
    op: u8,
    pc: &mut usize,
    stack: &mut Vec<Word>,
    gas_left: &mut i64,
    Ghost(env): Ghost<Env>,
    Ghost(reply): Ghost<Option<nat>>,
) -> (r: Result<(), (StepStatusCode, StatusCode)>)
    requires
        opcode::SWAP1 <= op <= opcode::SWAP16,
        *old(pc) < env.code.len() <= usize::MAX,
        env.code[*old(pc) as int] == op,
    ensures
        effect_refines(
            step_spec(env, machine_of(*old(pc), *old(gas_left), old(stack)@), reply),
            r,
            machine_of(*final(pc), *final(gas_left), final(stack)@),
        ),
{
    if op == opcode::SWAP1 {
        swap::<1>(pc, stack, gas_left)
    } else if op == opcode::SWAP2 {
        swap::<2>(pc, stack, gas_left)
    } else if op == opcode::SWAP3 {
        swap::<3>(pc, stack, gas_left)
    } else if op == opcode::SWAP4 {
        swap::<4>(pc, stack, gas_left)
    } else if op == opcode::SWAP5 {
        swap::<5>(pc, stack, gas_left)
    } else if op == opcode::SWAP6 {
        swap::<6>(pc, stack, gas_left)
    } else if op == opcode::SWAP7 {
        swap::<7>(pc, stack, gas_left)
    } else if op == opcode::SWAP8 {
        swap::<8>(pc, stack, gas_left)
    } else if op == opcode::SWAP9 {
        swap::<9>(pc, stack, gas_left)
    } else if op == opcode::SWAP10 {
        swap::<10>(pc, stack, gas_left)
    } else if op == opcode::SWAP11 {
        swap::<11>(pc, stack, gas_left)
    } else if op == opcode::SWAP12 {
        swap::<12>(pc, stack, gas_left)
    } else if op == opcode::SWAP13 {
        swap::<13>(pc, stack, gas_left)
    } else if op == opcode::SWAP14 {
        swap::<14>(pc, stack, gas_left)
    } else if op == opcode::SWAP15 {
        swap::<15>(pc, stack, gas_left)
    } else {
        swap::<16>(pc, stack, gas_left)
    }
}

/// Whether the instruction belongs to the driver.
fn deferred(op: u8) -> (r: bool)
    ensures
        r == is_deferred(op),
{
    op == opcode::SHA3 || op == opcode::BALANCE || op == opcode::CALLDATACOPY || op
        == opcode::CODECOPY || (opcode::EXTCODESIZE <= op && op <= opcode::EXTCODEHASH) || (
    opcode::MLOAD <= op && op <= opcode::SSTORE) || (opcode::TLOAD <= op && op <= opcode::MCOPY)
        || (opcode::LOG0 <= op && op <= opcode::LOG4) || (opcode::CREATE <= op && op
        <= opcode::CREATE2) || op == opcode::STATICCALL || op == opcode::REVERT || op
        == opcode::INVALID || op == opcode::SELFDESTRUCT
}

/// What the instruction `op` has to ask the host before it can take effect,
/// if it would pass its checks.
fn needs_host(
    op: u8,
    message: &Message,
    tx_context: &TxContext,
    stack: &Vec<Word>,
    gas_left: i64,
) -> (r: Option<Request>)
    requires
        op != opcode::STOP,
        !is_deferred(op),
    ensures
        forall|env: Env, pc: usize|
            pc < env.code.len() && env.code[pc as int] == op && env.message == *message
                && env.tx_context == *tx_context ==> r == match #[trigger] step_spec(
                env,
                machine_of(pc, gas_left, stack@),
                None,
            ) {
                Outcome::Suspend(request) => Some(request),
                _ => None,
            },
{
    if op == opcode::BLOCKHASH {
        if gas_left < 20 || stack.len() < 1 {
            return None;
        }
        let current = tx_context.block_number;
        match stack[stack.len() - 1].as_u64() {
            Some(number) => {
                if current > 0 && number < current as u64 {
                    Some(Request::BlockHash(number as i64))
                } else {
                    None
                }
            },
            None => None,
        }
    } else if op == opcode::SELFBALANCE {
        if gas_left < 5 || stack.len() >= STACK_LIMIT {
            None
        } else {
            Some(Request::Balance(message.recipient))
        }
    } else {
        None
    }
}

/// Executes the instruction at the program counter.
///
/// An instruction that needs something from the driver changes nothing and
/// says what it needs. Given back the host's answer as `host_reply`, the
/// same instruction takes effect. An answer that the instruction does not
/// need is ignored.
pub fn step(
    revision: Revision,
    code: &[u8],
    message: &Message,
    tx_context: &TxContext,
    jump_destinations: &JumpTable,
    memory_size: usize,
    host_reply: Option<Word>,
    pc: &mut usize,
    stack: &mut Vec<Word>,
    gas_left: &mut i64,
) -> (r: Result<Flow, (StepStatusCode, StatusCode)>)
    requires
        forall|d: int| jump_destinations@.contains(d) <==> is_jump_dest(code@, d),
    ensures
        step_refines(
            step_spec(
                env_of(revision, code@, *message, *tx_context, memory_size),
                machine_of(*old(pc), *old(gas_left), old(stack)@),
                reply_value(host_reply),
            ),
            r,
            machine_of(*old(pc), *old(gas_left), old(stack)@),
            machine_of(*final(pc), *final(gas_left), final(stack)@),
        ),
{
    let ghost env = env_of(revision, code@, *message, *tx_context, memory_size);
    let ghost reply = reply_value(host_reply);
    if *pc >= code.len() {
        return Err((StepStatusCode::Failed, StatusCode::Failure));
    }
    let op = code[*pc];
    if op == opcode::STOP {
        return Ok(Flow::Stop);
    }
    if deferred(op) {
        return Ok(Flow::Suspend(Request::Unsupported(op)));
    }
    if host_reply.is_none() {
        if let Some(request) = needs_host(op, message, tx_context, stack, *gas_left) {
            return Ok(Flow::Suspend(request));
        }
    }
    if opcode::ADD <= op && op <= opcode::SIGNEXTEND {
        arithmetic(op, pc, stack, gas_left, Ghost(env), Ghost(reply))?;
    } else if opcode::LT <= op && op <= opcode::SAR {
        comparison(op, pc, stack, gas_left, Ghost(env), Ghost(reply))?;
    } else if op == opcode::ADDRESS || (opcode::ORIGIN <= op && op <= opcode::CALLDATASIZE) || op
        == opcode::CODESIZE || op == opcode::GASPRICE || (opcode::BLOCKHASH <= op && op
        <= opcode::BLOBBASEFEE) {
        environment(
            op,
            revision,
            code,
            message,
            tx_context,
            host_reply,
            pc,
            stack,
            gas_left,
            Ghost(env),
        )?;
    } else if op == opcode::POP || (opcode::JUMP <= op && op <= opcode::JUMPDEST) || op
        == opcode::PUSH0 {
        control(
            op,
            revision,
            memory_size,
            jump_destinations,
            pc,
            stack,
            gas_left,
            Ghost(env),
            Ghost(reply),
        )?;
    } else if opcode::PUSH1 <= op && op <= opcode::PUSH32 {
        push_family(op, code, pc, stack, gas_left, Ghost(env), Ghost(reply))?;
    } else if opcode::DUP1 <= op && op <= opcode::DUP16 {
        dup_family(op, pc, stack, gas_left, Ghost(env), Ghost(reply))?;
    } else if opcode::SWAP1 <= op && op <= opcode::SWAP16 {
        swap_family(op, pc, stack, gas_left, Ghost(env), Ghost(reply))?;
    } else {
        return Err((StepStatusCode::Failed, StatusCode::BadJumpDestination));
    }
    Ok(Flow::Continue)
}

/// Executes instructions until one stops, fails or needs the driver, or
/// until `steps` of them are done. None is fetched where `steps` is zero or
/// less. Only the first instruction can use `host_reply`.
pub fn run_steps(
    revision: Revision,
    code: &[u8],
    message: &Message,
    tx_context: &TxContext,
    jump_destinations: &JumpTable,
    memory_size: usize,
    host_reply: Option<Word>,
    pc: &mut usize,
    stack: &mut Vec<Word>,
    gas_left: &mut i64,
    steps: i32,
) -> (exit: Exit)
    requires
        forall|d: int| jump_destinations@.contains(d) <==> is_jump_dest(code@, d),
    ensures
        exit == run_spec(
            env_of(revision, code@, *message, *tx_context, memory_size),
            machine_of(*old(pc), *old(gas_left), old(stack)@),
            reply_value(host_reply),
            steps as int,
        ).1,
        same_machine(
            machine_of(*final(pc), *final(gas_left), final(stack)@),
            run_spec(
                env_of(revision, code@, *message, *tx_context, memory_size),
                machine_of(*old(pc), *old(gas_left), old(stack)@),
                reply_value(host_reply),
                steps as int,
            ).0,
        ),
{
    let ghost env = env_of(revision, code@, *message, *tx_context, memory_size);
    let ghost goal = run_spec(
        env,
        machine_of(*pc, *gas_left, stack@),
        reply_value(host_reply),
        steps as int,
    );
    let mut reply = host_reply;
    let mut left = steps;
    while left > 0
        invariant
            forall|d: int| jump_destinations@.contains(d) <==> is_jump_dest(code@, d),
            env == env_of(revision, code@, *message, *tx_context, memory_size),
            goal == run_spec(
                env,
                machine_of(*old(pc), *old(gas_left), old(stack)@),
                reply_value(host_reply),
                steps as int,
            ),
            run_spec(env, machine_of(*pc, *gas_left, stack@), reply_value(reply), left as int)
                == goal,
        decreases left,
    {
        let ghost before = machine_of(*pc, *gas_left, stack@);
        match step(
            revision,
            code,
            message,
            tx_context,
            jump_destinations,
            memory_size,
            reply,
            pc,
            stack,
            gas_left,
        ) {
            Ok(Flow::Continue) => {
                reply = None;
                left -= 1;
            },
            Ok(Flow::Stop) => {
                return Exit::Stopped;
            },
            Ok(Flow::Suspend(request)) => {
                return Exit::Suspended { request, steps_left: left };
            },
            Err(failure) => {
                return Exit::Failed(failure.1);
            },
        }
    }
    Exit::OutOfSteps
}

/// The words of `stack` in the opposite order.
fn reversed(stack: Vec<Word>) -> (r: Vec<Word>)
    ensures
        r@ == stack@.reverse(),
{
    let mut rest = stack;
    let mut r: Vec<Word> = Vec::new();
    while rest.len() > 0
        invariant
            r@.len() + rest@.len() == stack@.len(),
            rest@ == stack@.subrange(0, rest@.len() as int),
            forall|j: int| 0 <= j < r@.len() ==> r@[j] == stack@[stack@.len() - 1 - j],
        decreases rest@.len(),
    {
        let top = rest.pop().unwrap();
        r.push(top);
        assert(rest@ =~= stack@.subrange(0, rest@.len() as int));
    }
    assert(r@ =~= stack@.reverse());
    r
}

/// Packages the state in which a run ended. The stack is handed back top
/// first.
pub fn package(
    revision: Revision,
    exit: Exit,
    step_status_code: StepStatusCode,
    pc: usize,
    gas_left: i64,
    gas_refund: i64,
    stack: Vec<Word>,
    memory: Vec<u8>,
    last_call_return_data: Option<Vec<u8>>,
) -> (out: RunResult)
    ensures
        out.exit == exit,
        out.result.step_status_code == exit_step_status(exit, step_status_code),
        out.result.status_code == exit_status(exit),
        out.result.revision == revision,
        out.result.pc == pc,
        out.result.gas_left == gas_left,
        out.result.gas_refund == gas_refund,
        out.result.output is None,
        out.result.stack@ == stack@.reverse(),
        out.result.memory == memory,
        out.result.last_call_return_data == last_call_return_data,
{
    let step_status_code = match exit {
        Exit::Stopped => StepStatusCode::Stopped,
        Exit::Failed(_) => StepStatusCode::Failed,
        _ => step_status_code,
    };
    let status_code = match exit {
        Exit::Failed(status) => status,
        _ => StatusCode::Success,
    };
    RunResult {
        result: StepResult {
            step_status_code,
            status_code,
            revision,
            pc: pc as u64,
            gas_left,
            gas_refund,
            output: None,
            stack: reversed(stack),
            memory,
            last_call_return_data,
        },
        exit,
    }
}

/// Runs `code` from the resume state for at most `steps` instructions, or
/// without a bound of its own where `steps` is `None`, with the gas of
/// `message`.
///
/// `stack` is taken bottom first and handed back top first. The run ends
/// at a `STOP`, at a failure, when the budget is used up, or before an
/// instruction that needs the driver; the result's `exit` says which, and
/// the result holds the state at that point. `host_reply` is the answer to
/// the request on which the previous run ended.
pub fn run(
    revision: Revision,
    code: &[u8],
    message: &Message,
    tx_context: &TxContext,
    host_reply: Option<Word>,
    step_status_code: StepStatusCode,
    pc: usize,
    gas_refund: i64,
    stack: Vec<Word>,
    memory: Vec<u8>,
    last_call_return_data: Option<Vec<u8>>,
    steps: Option<i32>,
) -> (out: RunResult)
    ensures
        ({
            let (end, exit) = run_spec(
                env_of(revision, code@, *message, *tx_context, memory.len()),
                machine_of(pc, message.gas, stack@),
                reply_value(host_reply),
                step_budget(steps),
            );
            &&& out.exit == exit
            &&& out.result.step_status_code == exit_step_status(exit, step_status_code)
            &&& out.result.status_code == exit_status(exit)
            &&& out.result.revision == revision
            &&& out.result.pc == end.pc
            &&& out.result.gas_left == end.gas
            &&& out.result.gas_refund == gas_refund
            &&& out.result.output is None
            &&& stack_values(out.result.stack@) == end.stack.reverse()
            &&& out.result.memory == memory
            &&& out.result.last_call_return_data == last_call_return_data
        }),
        pc <= code@.len() && message.gas >= 0 && stack@.len() <= STACK_LIMIT ==> out.result.pc
            <= code@.len() && 0 <= out.result.gas_left <= message.gas && out.result.stack@.len()
            <= STACK_LIMIT,
{
    proof {
        let env = env_of(revision, code@, *message, *tx_context, memory.len());
        let start = machine_of(pc, message.gas, stack@);
        if pc <= code@.len() && message.gas >= 0 && stack@.len() <= STACK_LIMIT {
            lemma_run_keeps_limits(env, start, reply_value(host_reply), step_budget(steps));
        }
        lemma_run_spends_gas(env, start, reply_value(host_reply), step_budget(steps));
    }
    let mut pc = pc;
    let mut stack = stack;
    let mut gas_left = message.gas;
    let jump_destinations = get_jump_destinations(code);
    let budget = match steps {
        Some(n) => n,
        None => i32::MAX,
    };
    let exit = run_steps(
        revision,
        code,
        message,
        tx_context,
        &jump_destinations,
        memory.len(),
        host_reply,
        &mut pc,
        &mut stack,
        &mut gas_left,
        budget,
    );
    let out = package(
        revision,
        exit,
        step_status_code,
        pc,
        gas_left,
        gas_refund,
        stack,
        memory,
        last_call_return_data,
    );
    assert(stack_values(stack@.reverse()) =~= stack_values(stack@).reverse());
    out
}

} // verus!
