//! What one instruction does, stated over mathematical values: the operand
//! stack is a sequence of natural numbers, the program counter and the gas
//! are integers.
//!
//! Every instruction follows one protocol. The revision is checked, the
//! static cost is charged, the stack is checked, and only then does the
//! instruction take effect. The per-opcode facts that the protocol needs
//! (the least revision, the static cost, the number of operands, whether the
//! stack grows) stand in one table of functions.

use crate::arith::{
    add_spec, addmod_spec, div_spec, exp_spec, mul_spec, mulmod_spec, rem_spec, sdiv_spec,
    signed, srem_spec, sub_spec,
};
use crate::bits::{
    and_bytes, and_spec, byte_spec, not_spec, or_bytes, or_spec, sar_spec, shl_spec, shr_spec,
    signextend_spec, xor_bytes, xor_spec,
};
use crate::encoding::{
    be_bytes, be_value, lemma_be_bytes_of_value, lemma_be_value_bound, lemma_radix_pow_increases,
    radix_pow, significant_bytes,
};
use crate::interpreter::jumpdest::is_jump_dest;
use crate::opcode;
use crate::types::{
    Exit, Flow, Message, Request, Revision, StatusCode, StepStatusCode, TxContext,
};
use crate::word::{lemma_radix_pow_values, word_modulus, Word};
use vstd::prelude::*;

verus! {

/// The most words that the operand stack may hold.
pub const STACK_LIMIT: usize = 1024;

/// What a run works on and never changes.
pub struct Env {
    pub revision: Revision,
    pub code: Seq<u8>,
    pub message: Message,
    pub tx_context: TxContext,
    /// The size of the memory in bytes.
    pub memory_size: nat,
}

/// What an instruction changes.
pub struct Machine {
    pub pc: int,
    pub gas: int,
    /// The operand stack, bottom first.
    pub stack: Seq<nat>,
}

/// How an instruction ends.
pub enum Outcome {
    /// It took effect; the run goes on from this state.
    Continue(Machine),
    /// It was `STOP`. The state is as before.
    Stop,
    /// It failed with this status, in this state.
    Fail(Machine, StatusCode),
    /// It needs the driver. The state is as before.
    Suspend(Request),
}

/// The values of a stack of words.
pub open spec fn stack_values(stack: Seq<Word>) -> Seq<nat> {
    stack.map_values(|w: Word| w@)
}

/// The operand `i` places below the top.
pub open spec fn operand(stack: Seq<nat>, i: int) -> nat {
    stack[stack.len() - 1 - i]
}

/// The stack without its top `n` words.
pub open spec fn without_top(stack: Seq<nat>, n: int) -> Seq<nat> {
    stack.subrange(0, stack.len() - n)
}

/// A signed 64-bit number as the host hands it over, read as unsigned.
pub open spec fn as_unsigned_64(x: i64) -> nat {
    if x >= 0 {
        x as nat
    } else {
        (x + 0x1_0000_0000_0000_0000) as nat
    }
}

/// The 32 bytes of call data from `offset` on, with zeros where the data
/// has ended.
pub open spec fn calldata_bytes(input: Seq<u8>, offset: nat) -> Seq<u8> {
    Seq::new(
        32,
        |i: int|
            if offset + i < input.len() {
                input[offset + i]
            } else {
                0u8
            },
    )
}

/// The 32 bytes of call data from `offset` on, as a word. Past the end of
/// the data that is zero, whatever the size of `offset`.
pub open spec fn calldata_word(input: Seq<u8>, offset: nat) -> nat {
    if offset >= input.len() {
        0
    } else {
        be_value(calldata_bytes(input, offset))
    }
}

/// Whether the opcode is one of `PUSH1` to `PUSH32`.
pub open spec fn is_push(op: u8) -> bool {
    opcode::PUSH1 <= op <= opcode::PUSH32
}

/// Whether the opcode is one of `DUP1` to `DUP16`.
pub open spec fn is_dup(op: u8) -> bool {
    opcode::DUP1 <= op <= opcode::DUP16
}

/// Whether the opcode is one of `SWAP1` to `SWAP16`.
pub open spec fn is_swap(op: u8) -> bool {
    opcode::SWAP1 <= op <= opcode::SWAP16
}

/// The instructions that belong to the driver: hashing, memory, storage,
/// the code and data of other accounts, logs, calls, and the ways out of a
/// frame other than `STOP`.
pub open spec fn is_deferred(op: u8) -> bool {
    op == opcode::SHA3 || op == opcode::BALANCE || op == opcode::CALLDATACOPY || op
        == opcode::CODECOPY || op == opcode::EXTCODESIZE || op == opcode::EXTCODECOPY || op
        == opcode::RETURNDATASIZE || op == opcode::RETURNDATACOPY || op == opcode::EXTCODEHASH
        || op == opcode::MLOAD || op == opcode::MSTORE || op == opcode::MSTORE8 || op
        == opcode::SLOAD || op == opcode::SSTORE || op == opcode::TLOAD || op == opcode::TSTORE
        || op == opcode::MCOPY || op == opcode::LOG0 || op == opcode::LOG1 || op == opcode::LOG2
        || op == opcode::LOG3 || op == opcode::LOG4 || op == opcode::CREATE || op == opcode::CALL
        || op == opcode::CALLCODE || op == opcode::RETURN || op == opcode::DELEGATECALL || op
        == opcode::CREATE2 || op == opcode::STATICCALL || op == opcode::REVERT || op
        == opcode::INVALID || op == opcode::SELFDESTRUCT
}

/// The instructions that take two operands and put one word in their
/// place.
pub open spec fn is_binary(op: u8) -> bool {
    op == opcode::ADD || op == opcode::MUL || op == opcode::SUB || op == opcode::DIV || op
        == opcode::SDIV || op == opcode::MOD || op == opcode::SMOD || op == opcode::EXP || op
        == opcode::SIGNEXTEND || op == opcode::LT || op == opcode::GT || op == opcode::SLT || op
        == opcode::SGT || op == opcode::EQ || op == opcode::AND || op == opcode::OR || op
        == opcode::XOR || op == opcode::BYTE || op == opcode::SHL || op == opcode::SHR || op
        == opcode::SAR
}

/// The instructions that take one operand and put one word in its place.
pub open spec fn is_unary(op: u8) -> bool {
    op == opcode::ISZERO || op == opcode::NOT || op == opcode::CALLDATALOAD || op
        == opcode::BLOCKHASH || op == opcode::BLOBHASH
}

/// The instructions that take no operand and put one word on the stack.
pub open spec fn is_nullary(op: u8) -> bool {
    op == opcode::ADDRESS || op == opcode::ORIGIN || op == opcode::CALLER || op
        == opcode::CALLVALUE || op == opcode::CALLDATASIZE || op == opcode::CODESIZE || op
        == opcode::GASPRICE || op == opcode::COINBASE || op == opcode::TIMESTAMP || op
        == opcode::NUMBER || op == opcode::PREVRANDAO || op == opcode::GASLIMIT || op
        == opcode::CHAINID || op == opcode::SELFBALANCE || op == opcode::BASEFEE || op
        == opcode::BLOBBASEFEE || op == opcode::PC || op == opcode::MSIZE || op == opcode::GAS
        || op == opcode::PUSH0 || is_push(op)
}

/// The instructions that the interpreter executes itself, `STOP` aside.
pub open spec fn is_executed(op: u8) -> bool {
    is_binary(op) || is_unary(op) || is_nullary(op) || op == opcode::ADDMOD || op
        == opcode::MULMOD || op == opcode::POP || op == opcode::JUMP || op == opcode::JUMPI || op
        == opcode::JUMPDEST || is_dup(op) || is_swap(op)
}

/// The revision that introduced the instruction.
pub open spec fn min_revision(op: u8) -> Revision {
    if op == opcode::PUSH0 {
        Revision::Shanghai
    } else if op == opcode::BASEFEE {
        Revision::London
    } else if op == opcode::BLOBHASH || op == opcode::BLOBBASEFEE {
        Revision::Cancun
    } else {
        Revision::Frontier
    }
}

/// The static cost of the instruction.
pub open spec fn static_gas(op: u8) -> int {
    if op == opcode::JUMPDEST {
        1
    } else if op == opcode::ADDRESS || op == opcode::ORIGIN || op == opcode::CALLER || op
        == opcode::CALLVALUE || op == opcode::CALLDATASIZE || op == opcode::CODESIZE || op
        == opcode::GASPRICE || op == opcode::COINBASE || op == opcode::TIMESTAMP || op
        == opcode::NUMBER || op == opcode::PREVRANDAO || op == opcode::GASLIMIT || op
        == opcode::CHAINID || op == opcode::BASEFEE || op == opcode::BLOBBASEFEE || op
        == opcode::POP || op == opcode::PC || op == opcode::MSIZE || op == opcode::GAS || op
        == opcode::PUSH0 {
        2
    } else if op == opcode::MUL || op == opcode::DIV || op == opcode::SDIV || op == opcode::MOD
        || op == opcode::SMOD || op == opcode::SIGNEXTEND || op == opcode::SELFBALANCE {
        5
    } else if op == opcode::ADDMOD || op == opcode::MULMOD || op == opcode::JUMP {
        8
    } else if op == opcode::JUMPI || op == opcode::EXP {
        10
    } else if op == opcode::BLOCKHASH {
        20
    } else {
        // ADD, SUB, the comparisons, the bitwise instructions, the shifts,
        // CALLDATALOAD, BLOBHASH, PUSH1 to PUSH32, DUP1 to DUP16, SWAP1 to
        // SWAP16
        3
    }
}

/// The number of words that the instruction needs on the stack.
pub open spec fn operands(op: u8) -> int {
    if op == opcode::ADDMOD || op == opcode::MULMOD {
        3
    } else if is_binary(op) || op == opcode::JUMPI {
        2
    } else if is_unary(op) || op == opcode::POP || op == opcode::JUMP {
        1
    } else if is_dup(op) {
        op - opcode::DUP1 + 1
    } else if is_swap(op) {
        op - opcode::SWAP1 + 2
    } else {
        0
    }
}

/// Whether the instruction leaves the stack one word longer than it found
/// it.
pub open spec fn grows(op: u8) -> bool {
    is_nullary(op) || is_dup(op)
}

/// Whether the instruction puts a word on the stack.
pub open spec fn pushes(op: u8) -> bool {
    is_binary(op) || is_unary(op) || is_nullary(op) || is_dup(op) || op == opcode::ADDMOD || op
        == opcode::MULMOD
}

/// The cost of `EXP` beyond its static cost: 50 for each byte that the
/// exponent needs.
pub open spec fn exp_gas(exponent: nat) -> int {
    50 * (significant_bytes(exponent) as int)
}

/// Whether `BLOCKHASH` answers a block number with zero, without the host.
pub open spec fn block_out_of_range(number: nat, current: i64) -> bool {
    number > current + 255 || number >= current
}

/// What the instruction asks of the host, if anything, given that the
/// protocol's checks have passed.
pub open spec fn host_request(env: Env, op: u8, stack: Seq<nat>) -> Option<Request> {
    if op == opcode::BLOCKHASH && !block_out_of_range(
        operand(stack, 0),
        env.tx_context.block_number,
    ) {
        Some(Request::BlockHash(operand(stack, 0) as i64))
    } else if op == opcode::SELFBALANCE {
        Some(Request::Balance(env.message.recipient))
    } else {
        None
    }
}

/// The word that the instruction puts on the stack. `m` is the state after
/// the static cost was charged and before the operands leave; `reply` is
/// the host's answer where [`host_request`] asked for one.
pub open spec fn pushed_value(env: Env, op: u8, m: Machine, reply: nat) -> nat {
    let a = operand(m.stack, 0);
    let b = operand(m.stack, 1);
    let c = operand(m.stack, 2);
    if op == opcode::ADD {
        add_spec(a, b)
    } else if op == opcode::MUL {
        mul_spec(a, b)
    } else if op == opcode::SUB {
        sub_spec(a, b)
    } else if op == opcode::DIV {
        div_spec(a, b)
    } else if op == opcode::SDIV {
        sdiv_spec(a, b)
    } else if op == opcode::MOD {
        rem_spec(a, b)
    } else if op == opcode::SMOD {
        srem_spec(a, b)
    } else if op == opcode::ADDMOD {
        addmod_spec(a, b, c)
    } else if op == opcode::MULMOD {
        mulmod_spec(a, b, c)
    } else if op == opcode::EXP {
        exp_spec(a, b)
    } else if op == opcode::SIGNEXTEND {
        signextend_spec(a, b)
    } else if op == opcode::LT {
        if a < b {
            1
        } else {
            0
        }
    } else if op == opcode::GT {
        if a > b {
            1
        } else {
            0
        }
    } else if op == opcode::SLT {
        if signed(a) < signed(b) {
            1
        } else {
            0
        }
    } else if op == opcode::SGT {
        if signed(a) > signed(b) {
            1
        } else {
            0
        }
    } else if op == opcode::EQ {
        if a == b {
            1
        } else {
            0
        }
    } else if op == opcode::ISZERO {
        if a == 0 {
            1
        } else {
            0
        }
    } else if op == opcode::AND {
        and_spec(a, b)
    } else if op == opcode::OR {
        or_spec(a, b)
    } else if op == opcode::XOR {
        xor_spec(a, b)
    } else if op == opcode::NOT {
        not_spec(a)
    } else if op == opcode::BYTE {
        byte_spec(a, b)
    } else if op == opcode::SHL {
        shl_spec(a, b)
    } else if op == opcode::SHR {
        shr_spec(a, b)
    } else if op == opcode::SAR {
        sar_spec(a, b)
    } else if op == opcode::ADDRESS {
        be_value(env.message.recipient.bytes@)
    } else if op == opcode::ORIGIN {
        be_value(env.tx_context.tx_origin.bytes@)
    } else if op == opcode::CALLER {
        be_value(env.message.sender.bytes@)
    } else if op == opcode::CALLVALUE {
        env.message.value@
    } else if op == opcode::CALLDATALOAD {
        calldata_word(env.message.input@, a)
    } else if op == opcode::CALLDATASIZE {
        env.message.input@.len()
    } else if op == opcode::CODESIZE {
        env.code.len()
    } else if op == opcode::GASPRICE {
        env.tx_context.tx_gas_price@
    } else if op == opcode::BLOCKHASH {
        if block_out_of_range(a, env.tx_context.block_number) {
            0
        } else {
            reply
        }
    } else if op == opcode::COINBASE {
        be_value(env.tx_context.block_coinbase.bytes@)
    } else if op == opcode::TIMESTAMP {
        as_unsigned_64(env.tx_context.block_timestamp)
    } else if op == opcode::NUMBER {
        as_unsigned_64(env.tx_context.block_number)
    } else if op == opcode::PREVRANDAO {
        env.tx_context.block_prev_randao@
    } else if op == opcode::GASLIMIT {
        as_unsigned_64(env.tx_context.block_gas_limit)
    } else if op == opcode::CHAINID {
        env.tx_context.chain_id@
    } else if op == opcode::SELFBALANCE {
        reply
    } else if op == opcode::BASEFEE {
        env.tx_context.block_base_fee@
    } else if op == opcode::BLOBHASH {
        if a < env.tx_context.blob_hashes@.len() {
            env.tx_context.blob_hashes@[a as int]@
        } else {
            0
        }
    } else if op == opcode::BLOBBASEFEE {
        env.tx_context.blob_base_fee@
    } else if op == opcode::PC {
        m.pc as nat
    } else if op == opcode::MSIZE {
        env.memory_size
    } else if op == opcode::GAS {
        m.gas as nat
    } else if is_push(op) {
        be_value(env.code.subrange(m.pc + 1, m.pc + 1 + (op - opcode::PUSH0)))
    } else if is_dup(op) {
        operand(m.stack, op - opcode::DUP1)
    } else {
        0
    }
}

/// The stack after the instruction took effect.
pub open spec fn stack_after(env: Env, op: u8, m: Machine, reply: nat) -> Seq<nat> {
    if is_swap(op) {
        let top = m.stack.len() - 1;
        let other = top - (op - opcode::SWAP1 + 1);
        m.stack.update(top, m.stack[other]).update(other, m.stack[top])
    } else if is_dup(op) {
        m.stack.push(pushed_value(env, op, m, reply))
    } else if pushes(op) {
        without_top(m.stack, operands(op)).push(pushed_value(env, op, m, reply))
    } else {
        without_top(m.stack, operands(op))
    }
}

/// Where the instruction leaves the program counter, or `None` for a jump
/// to a place that is no valid destination.
pub open spec fn pc_after(env: Env, op: u8, m: Machine) -> Option<int> {
    if op == opcode::JUMP || (op == opcode::JUMPI && operand(m.stack, 1) != 0) {
        if is_jump_dest(env.code, operand(m.stack, 0) as int) {
            Some(operand(m.stack, 0) as int)
        } else {
            None
        }
    } else if is_push(op) {
        Some(m.pc + 1 + (op - opcode::PUSH0))
    } else {
        Some(m.pc + 1)
    }
}

/// What the instruction at the program counter does to the state `m`.
/// `reply` is the host's answer to the request that the same instruction
/// made when it was tried without one.
pub open spec fn step_spec(env: Env, m: Machine, reply: Option<nat>) -> Outcome {
    if m.pc < 0 || m.pc >= env.code.len() {
        Outcome::Fail(m, StatusCode::Failure)
    } else {
        let op = env.code[m.pc];
        if op == opcode::STOP {
            Outcome::Stop
        } else if is_deferred(op) {
            Outcome::Suspend(Request::Unsupported(op))
        } else if !is_executed(op) {
            Outcome::Fail(m, StatusCode::BadJumpDestination)
        } else if env.revision.precedes(min_revision(op)) {
            Outcome::Fail(m, StatusCode::InternalError)
        } else if m.gas < static_gas(op) {
            Outcome::Fail(m, StatusCode::OutOfGas)
        } else {
            let charged = Machine { gas: m.gas - static_gas(op), ..m };
            if m.stack.len() < operands(op) {
                Outcome::Fail(charged, StatusCode::StackUnderflow)
            } else if grows(op) && m.stack.len() + 1 > STACK_LIMIT {
                Outcome::Fail(charged, StatusCode::StackOverflow)
            } else if op == opcode::EXP && charged.gas < exp_gas(operand(m.stack, 1)) {
                Outcome::Fail(charged, StatusCode::OutOfGas)
            } else if is_push(op) && m.pc + (op - opcode::PUSH0) >= env.code.len() {
                Outcome::Fail(charged, StatusCode::InternalError)
            } else if host_request(env, op, m.stack) is Some && reply is None {
                Outcome::Suspend(host_request(env, op, m.stack)->0)
            } else {
                let answer = if reply is Some {
                    reply->0
                } else {
                    0
                };
                let gas = if op == opcode::EXP {
                    charged.gas - exp_gas(operand(m.stack, 1))
                } else {
                    charged.gas
                };
                let stack = stack_after(env, op, charged, answer);
                match pc_after(env, op, m) {
                    Some(pc) => Outcome::Continue(Machine { pc, gas, stack }),
                    None => Outcome::Fail(
                        Machine { pc: m.pc, gas, stack },
                        StatusCode::BadJumpDestination,
                    ),
                }
            }
        }
    }
}

/// What a run of at most `steps` instructions does to the state `m`: the
/// state it ends in and why it ends. Only the first instruction can use the
/// host's answer.
pub open spec fn run_spec(env: Env, m: Machine, reply: Option<nat>, steps: int) -> (Machine, Exit)
    decreases steps,
{
    if steps <= 0 {
        (m, Exit::OutOfSteps)
    } else {
        match step_spec(env, m, reply) {
            Outcome::Continue(next) => run_spec(env, next, None, steps - 1),
            Outcome::Stop => (m, Exit::Stopped),
            Outcome::Fail(at, status) => (at, Exit::Failed(status)),
            Outcome::Suspend(request) => (
                m,
                Exit::Suspended { request, steps_left: steps as i32 },
            ),
        }
    }
}

/// Whether every value on the stack is a word.
pub open spec fn holds_words(stack: Seq<nat>) -> bool {
    forall|i: int| 0 <= i < stack.len() ==> #[trigger] stack[i] < word_modulus()
}

/// Whether the sizes and counters of a state fit the machine: the lengths
/// of the code, the call data and the memory in 64 bits, the gas in a signed
/// 64-bit number.
pub open spec fn fits_machine(env: Env, m: Machine) -> bool {
    env.code.len() <= u64::MAX && env.message.input@.len() <= u64::MAX && env.memory_size
        <= u64::MAX && m.gas <= i64::MAX
}

/// The stack stays a stack of words: an instruction that finds only words
/// on it, and is answered with a word where it asked the host, leaves only
/// words on it.
pub proof fn lemma_step_keeps_words(env: Env, m: Machine, reply: Option<nat>)
    requires
        holds_words(m.stack),
        fits_machine(env, m),
        reply is Some ==> reply->0 < word_modulus(),
    ensures
        match step_spec(env, m, reply) {
            Outcome::Continue(next) => holds_words(next.stack),
            Outcome::Fail(at, _) => holds_words(at.stack),
            _ => true,
        },
{
    if 0 <= m.pc < env.code.len() {
        let op = env.code[m.pc];
        let charged = Machine { gas: m.gas - static_gas(op), ..m };
        let answer = if reply is Some {
            reply->0
        } else {
            0
        };
        if is_executed(op) && m.stack.len() >= operands(op) && m.gas >= static_gas(op) && !(
        is_push(op) && m.pc + (op - opcode::PUSH0) >= env.code.len()) {
            lemma_pushed_value_is_word(env, op, charged, answer);
        }
    }
}

/// A run that starts on a stack of words ends on one.
pub proof fn lemma_run_keeps_words(env: Env, m: Machine, reply: Option<nat>, steps: int)
    requires
        holds_words(m.stack),
        fits_machine(env, m),
        reply is Some ==> reply->0 < word_modulus(),
    ensures
        holds_words(run_spec(env, m, reply, steps).0.stack),
    decreases steps,
{
    if steps > 0 {
        lemma_step_keeps_words(env, m, reply);
        match step_spec(env, m, reply) {
            Outcome::Continue(next) => {
                lemma_run_keeps_words(env, next, None, steps - 1);
            },
            _ => {},
        }
    }
}

/// What an instruction puts on a stack of words is a word.
proof fn lemma_pushed_value_is_word(env: Env, op: u8, m: Machine, reply: nat)
    requires
        holds_words(m.stack),
        m.stack.len() >= operands(op),
        0 <= m.pc < env.code.len() <= u64::MAX,
        env.message.input@.len() <= u64::MAX,
        env.memory_size <= u64::MAX,
        0 <= m.gas <= i64::MAX,
        reply < word_modulus(),
        is_push(op) ==> m.pc + (op - opcode::PUSH0) < env.code.len(),
    ensures
        pushed_value(env, op, m, reply) < word_modulus(),
{
    lemma_radix_pow_values();
    let a = operand(m.stack, 0);
    let b = operand(m.stack, 1);
    let c = operand(m.stack, 2);
    let modulus = word_modulus();
    env.message.value.lemma_bound();
    env.tx_context.tx_gas_price.lemma_bound();
    env.tx_context.block_prev_randao.lemma_bound();
    env.tx_context.chain_id.lemma_bound();
    env.tx_context.block_base_fee.lemma_bound();
    env.tx_context.blob_base_fee.lemma_bound();
    lemma_be_value_bound(env.message.recipient.bytes@);
    lemma_be_value_bound(env.message.sender.bytes@);
    lemma_be_value_bound(env.tx_context.tx_origin.bytes@);
    lemma_be_value_bound(env.tx_context.block_coinbase.bytes@);
    lemma_radix_pow_increases(20, 32);
    if op == opcode::DIV || op == opcode::MOD {
        if b != 0 {
            assert(a / b <= a && a % b < b) by (nonlinear_arith)
                requires
                    b > 0,
            ;
        }
    } else if op == opcode::ADDMOD || op == opcode::MULMOD {
        if c != 0 {
            assert((a + b) % c < c && (a * b) % c < c) by (nonlinear_arith)
                requires
                    c > 0,
            ;
        }
    } else if op == opcode::SIGNEXTEND {
        if a < 31 {
            lemma_radix_pow_increases(a + 1, 32);
            let span = radix_pow(a + 1);
            crate::encoding::lemma_radix_pow_positive(a + 1);
            assert(b % span < span) by (nonlinear_arith)
                requires
                    span > 0,
            ;
        }
    } else if op == opcode::AND {
        lemma_be_value_bound(and_bytes(be_bytes(a, 32), be_bytes(b, 32)));
    } else if op == opcode::OR {
        lemma_be_value_bound(or_bytes(be_bytes(a, 32), be_bytes(b, 32)));
    } else if op == opcode::XOR {
        lemma_be_value_bound(xor_bytes(be_bytes(a, 32), be_bytes(b, 32)));
    } else if op == opcode::SHR {
        if a < 256 {
            let d = vstd::arithmetic::power2::pow2(a);
            vstd::arithmetic::power2::lemma_pow2_pos(a);
            assert(b / d <= b) by (nonlinear_arith)
                requires
                    d > 0,
            ;
        }
    } else if op == opcode::CALLDATALOAD {
        lemma_be_value_bound(calldata_bytes(env.message.input@, a));
    } else if op == opcode::BLOBHASH {
        if a < env.tx_context.blob_hashes@.len() {
            env.tx_context.blob_hashes@[a as int].lemma_bound();
        }
    } else if is_push(op) {
        let n = (op - opcode::PUSH0) as nat;
        lemma_be_value_bound(env.code.subrange(m.pc + 1, m.pc + 1 + n));
        lemma_radix_pow_increases(n, 32);
    }
}

/// A run may be cut in two: `a + b` steps are `a` steps followed, where
/// nothing but the budget ended them, by `b` steps from the state that they
/// left. A run that ended for another reason ends there with the larger
/// budget too, and a suspended one has the `b` steps left over as well.
pub proof fn lemma_run_resumes(env: Env, m: Machine, reply: Option<nat>, a: int, b: int)
    requires
        0 <= a,
        0 <= b,
        a + b <= i32::MAX,
    ensures
        run_spec(env, m, reply, a + b) == match run_spec(env, m, reply, a) {
            (at, Exit::OutOfSteps) => run_spec(
                env,
                at,
                if a > 0 {
                    None
                } else {
                    reply
                },
                b,
            ),
            (at, Exit::Suspended { request, steps_left }) => (
                at,
                Exit::Suspended { request, steps_left: (steps_left + b) as i32 },
            ),
            ended => ended,
        },
    decreases a,
{
    if a > 0 {
        match step_spec(env, m, reply) {
            Outcome::Continue(next) => {
                lemma_run_resumes(env, next, None, a - 1, b);
            },
            _ => {},
        }
    }
}

/// The state of a run as the semantics see it.
pub open spec fn machine_of(pc: usize, gas_left: i64, stack: Seq<Word>) -> Machine {
    Machine { pc: pc as int, gas: gas_left as int, stack: stack_values(stack) }
}

/// Whether two states are the same.
pub open spec fn same_machine(a: Machine, b: Machine) -> bool {
    a.pc == b.pc && a.gas == b.gas && a.stack =~= b.stack
}

/// Whether an instruction that neither stops nor suspends did what
/// `expected` says: `r` is its result and `after` the state it left.
pub open spec fn effect_refines(
    expected: Outcome,
    r: Result<(), (StepStatusCode, StatusCode)>,
    after: Machine,
) -> bool {
    match expected {
        Outcome::Continue(m) => r is Ok && same_machine(after, m),
        Outcome::Fail(m, status) => r == Err::<(), _>((StepStatusCode::Failed, status))
            && same_machine(after, m),
        _ => false,
    }
}

/// The value of the host's answer, where there is one.
pub open spec fn reply_value(host_reply: Option<Word>) -> Option<nat> {
    match host_reply {
        Some(w) => Some(w@),
        None => None,
    }
}

/// What a run works on, as the semantics see it.
pub open spec fn env_of(
    revision: Revision,
    code: Seq<u8>,
    message: Message,
    tx_context: TxContext,
    memory_size: usize,
) -> Env {
    Env { revision, code, message, tx_context, memory_size: memory_size as nat }
}

/// Whether one instruction did what `expected` says: `r` is its result,
/// `before` the state it found and `after` the state it left.
pub open spec fn step_refines(
    expected: Outcome,
    r: Result<Flow, (StepStatusCode, StatusCode)>,
    before: Machine,
    after: Machine,
) -> bool {
    match expected {
        Outcome::Continue(m) => r == Ok::<Flow, (StepStatusCode, StatusCode)>(Flow::Continue)
            && same_machine(after, m),
        Outcome::Stop => r == Ok::<Flow, (StepStatusCode, StatusCode)>(Flow::Stop) && same_machine(
            after,
            before,
        ),
        Outcome::Fail(m, status) => r == Err::<Flow, _>((StepStatusCode::Failed, status))
            && same_machine(after, m),
        Outcome::Suspend(request) => r == Ok::<Flow, (StepStatusCode, StatusCode)>(
            Flow::Suspend(request),
        ) && same_machine(after, before),
    }
}

/// The step status that a run reports: it changes only where the run
/// stopped or failed.
pub open spec fn exit_step_status(exit: Exit, before: StepStatusCode) -> StepStatusCode {
    match exit {
        Exit::Stopped => StepStatusCode::Stopped,
        Exit::Failed(_) => StepStatusCode::Failed,
        _ => before,
    }
}

/// The status that a run reports: that of the failure, else success.
pub open spec fn exit_status(exit: Exit) -> StatusCode {
    match exit {
        Exit::Failed(status) => status,
        _ => StatusCode::Success,
    }
}

/// The number of steps that a budget allows.
pub open spec fn step_budget(steps: Option<i32>) -> int {
    match steps {
        Some(n) => n as int,
        None => i32::MAX as int,
    }
}

/// The bounds that hold between any two instructions: the program counter
/// is not past the end of the code, the gas is not negative, and the stack
/// is within its limit.
pub open spec fn within_limits(env: Env, m: Machine) -> bool {
    0 <= m.pc <= env.code.len() && m.gas >= 0 && m.stack.len() <= STACK_LIMIT
}

/// An instruction that finds the state within its bounds leaves it within
/// them, whether it takes effect or fails.
pub proof fn lemma_step_keeps_limits(env: Env, m: Machine, reply: Option<nat>)
    requires
        within_limits(env, m),
    ensures
        match step_spec(env, m, reply) {
            Outcome::Continue(next) => within_limits(env, next),
            Outcome::Fail(at, _) => within_limits(env, at),
            _ => true,
        },
{
}

/// A run that starts within the bounds ends within them, after any number
/// of instructions.
pub proof fn lemma_run_keeps_limits(env: Env, m: Machine, reply: Option<nat>, steps: int)
    requires
        within_limits(env, m),
    ensures
        within_limits(env, run_spec(env, m, reply, steps).0),
    decreases steps,
{
    if steps > 0 {
        lemma_step_keeps_limits(env, m, reply);
        match step_spec(env, m, reply) {
            Outcome::Continue(next) => {
                lemma_run_keeps_limits(env, next, None, steps - 1);
            },
            _ => {},
        }
    }
}

/// A run never gains gas.
pub proof fn lemma_run_spends_gas(env: Env, m: Machine, reply: Option<nat>, steps: int)
    ensures
        run_spec(env, m, reply, steps).0.gas <= m.gas,
    decreases steps,
{
    if steps > 0 {
        match step_spec(env, m, reply) {
            Outcome::Continue(next) => {
                lemma_run_spends_gas(env, next, None, steps - 1);
            },
            _ => {},
        }
    }
}

/// An instruction that fails leaves the program counter where it was and
/// takes no gas back. It leaves the stack as it was too, with one
/// exception: a jump to a place that is no valid destination fails after
/// its operands have left the stack.
pub proof fn lemma_failure_keeps_state(env: Env, m: Machine, reply: Option<nat>)
    ensures
        match step_spec(env, m, reply) {
            Outcome::Fail(at, status) => {
                &&& at.pc == m.pc
                &&& at.gas <= m.gas
                &&& at.stack == m.stack || {
                    &&& status == StatusCode::BadJumpDestination
                    &&& 0 <= m.pc < env.code.len()
                    &&& env.code[m.pc] == opcode::JUMP || env.code[m.pc] == opcode::JUMPI
                    &&& at.stack == without_top(m.stack, operands(env.code[m.pc]))
                }
            },
            _ => true,
        },
{
    match step_spec(env, m, reply) {
        Outcome::Fail(at, status) => {
            if 0 <= m.pc < env.code.len() {
                let op = env.code[m.pc];
                if op != opcode::JUMP && op != opcode::JUMPI {
                    assert(at.stack =~= m.stack);
                }
            }
        },
        _ => {},
    }
}

/// A byte `0x5b` in the immediate bytes of a `PUSHn` is no jump
/// destination: a `JUMP` to it fails.
pub proof fn lemma_jump_into_push_data_fails(env: Env, m: Machine, reply: Option<nat>, start: int)
    requires
        0 <= m.pc < env.code.len(),
        env.code[m.pc] == opcode::JUMP,
        m.gas >= 8,
        m.stack.len() >= 1,
        crate::interpreter::jumpdest::instruction_starts_at(env.code, 0, start),
        crate::interpreter::jumpdest::in_immediate_of(env.code, start, operand(m.stack, 0) as int),
    ensures
        step_spec(env, m, reply) is Fail,
        step_spec(env, m, reply)->Fail_1 == StatusCode::BadJumpDestination,
{
    let d = operand(m.stack, 0) as int;
    if d < env.code.len() {
        crate::interpreter::jumpdest::lemma_push_data(env.code, d);
    }
}

/// `EXP` with an exponent of zero costs its static 10 gas and no more.
pub proof fn lemma_exp_by_zero_costs_the_static_gas(env: Env, m: Machine, reply: Option<nat>)
    requires
        0 <= m.pc < env.code.len(),
        env.code[m.pc] == opcode::EXP,
        m.gas >= 10,
        m.stack.len() >= 2,
        operand(m.stack, 1) == 0,
    ensures
        step_spec(env, m, reply) is Continue,
        step_spec(env, m, reply)->Continue_0.gas == m.gas - 10,
{
}

/// A division or a remainder by zero, unsigned or signed, does not fail: it
/// puts zero in the place of its operands.
pub proof fn lemma_division_by_zero_continues(env: Env, m: Machine, reply: Option<nat>)
    requires
        0 <= m.pc < env.code.len(),
        opcode::DIV <= env.code[m.pc] <= opcode::SMOD,
        m.gas >= 5,
        m.stack.len() >= 2,
        operand(m.stack, 1) == 0,
    ensures
        step_spec(env, m, reply) == Outcome::Continue(
            Machine { pc: m.pc + 1, gas: m.gas - 5, stack: without_top(m.stack, 2).push(0) },
        ),
{
}

/// Call data loaded from its end is zero. Loaded from one byte before its
/// end, it is that byte followed by 31 zero bytes.
pub proof fn lemma_calldata_at_the_end(input: Seq<u8>)
    ensures
        calldata_word(input, input.len()) == 0,
        input.len() > 0 ==> be_bytes(calldata_word(input, (input.len() - 1) as nat), 32)
            == Seq::new(
            32,
            |i: int|
                if i == 0 {
                    input.last()
                } else {
                    0u8
                },
        ),
{
    if input.len() > 0 {
        let offset = (input.len() - 1) as nat;
        let loaded = calldata_bytes(input, offset);
        lemma_be_bytes_of_value(loaded);
        assert(loaded =~= Seq::new(
            32,
            |i: int|
                if i == 0 {
                    input.last()
                } else {
                    0u8
                },
        ));
    }
}

} // verus!
