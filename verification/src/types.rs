//! The plain values that cross the boundary between the interpreter and its
//! driver: the protocol revision, the status codes, the call frame's
//! message, the transaction context and the packaged result.

use crate::word::Word;
use vstd::prelude::*;

verus! {

/// The protocol upgrades, oldest first. Only the order matters.
#[derive(Clone, Copy, Debug, PartialEq, Eq, PartialOrd, Ord, Structural)]
pub enum Revision {
    Frontier,
    Homestead,
    TangerineWhistle,
    SpuriousDragon,
    Byzantium,
    Constantinople,
    Petersburg,
    Istanbul,
    Berlin,
    London,
    Paris,
    Shanghai,
    Cancun,
    Prague,
}

impl Revision {
    /// The position of the revision in the order of upgrades.
    pub open spec fn rank_spec(self) -> u8 {
        match self {
            Revision::Frontier => 0,
            Revision::Homestead => 1,
            Revision::TangerineWhistle => 2,
            Revision::SpuriousDragon => 3,
            Revision::Byzantium => 4,
            Revision::Constantinople => 5,
            Revision::Petersburg => 6,
            Revision::Istanbul => 7,
            Revision::Berlin => 8,
            Revision::London => 9,
            Revision::Paris => 10,
            Revision::Shanghai => 11,
            Revision::Cancun => 12,
            Revision::Prague => 13,
        }
    }

    /// The position of the revision in the order of upgrades.
    #[verifier::when_used_as_spec(rank_spec)]
    pub fn rank(self) -> (r: u8)
        ensures
            r == self.rank_spec(),
    {
        match self {
            Revision::Frontier => 0,
            Revision::Homestead => 1,
            Revision::TangerineWhistle => 2,
            Revision::SpuriousDragon => 3,
            Revision::Byzantium => 4,
            Revision::Constantinople => 5,
            Revision::Petersburg => 6,
            Revision::Istanbul => 7,
            Revision::Berlin => 8,
            Revision::London => 9,
            Revision::Paris => 10,
            Revision::Shanghai => 11,
            Revision::Cancun => 12,
            Revision::Prague => 13,
        }
    }

    /// Whether `self` comes before `other`.
    pub open spec fn precedes(self, other: Revision) -> bool {
        self.rank_spec() < other.rank_spec()
    }
}

/// How far a run has come.
#[derive(Clone, Copy, Debug, PartialEq, Eq, Structural)]
pub enum StepStatusCode {
    Running,
    Stopped,
    Returned,
    Reverted,
    Failed,
}

/// The status of an execution.
#[derive(Clone, Copy, Debug, PartialEq, Eq, Structural)]
pub enum StatusCode {
    Success,
    Failure,
    Revert,
    OutOfGas,
    InvalidInstruction,
    UndefinedInstruction,
    StackOverflow,
    StackUnderflow,
    BadJumpDestination,
    InvalidMemoryAccess,
    CallDepthExceeded,
    StaticModeViolation,
    InternalError,
}

/// A 20-byte account address.
#[derive(Clone, Copy, Debug, PartialEq, Eq)]
pub struct Address {
    pub bytes: [u8; 20],
}

/// The kind of call that opened the frame.
#[derive(Clone, Copy, Debug, PartialEq, Eq, Structural)]
pub enum MessageKind {
    Call,
    DelegateCall,
    CallCode,
    Create,
    Create2,
}

/// The message of the current call frame. The interpreter only reads it.
#[derive(Debug)]
pub struct Message {
    pub kind: MessageKind,
    pub flags: u32,
    pub depth: i32,
    pub gas: i64,
    pub recipient: Address,
    pub sender: Address,
    pub input: Vec<u8>,
    pub value: Word,
}

/// What the host says of the transaction and the block.
#[derive(Debug)]
pub struct TxContext {
    pub tx_gas_price: Word,
    pub tx_origin: Address,
    pub block_coinbase: Address,
    pub block_number: i64,
    pub block_timestamp: i64,
    pub block_gas_limit: i64,
    pub block_prev_randao: Word,
    pub chain_id: Word,
    pub block_base_fee: Word,
    pub blob_base_fee: Word,
    pub blob_hashes: Vec<Word>,
}

/// What the interpreter cannot do alone. The driver does it and resumes the
/// run, with the answer where there is one.
#[derive(Clone, Copy, Debug, PartialEq, Eq)]
pub enum Request {
    /// The hash of the block with this number.
    BlockHash(i64),
    /// The balance of this account.
    Balance(Address),
    /// An instruction that belongs to the driver: storage, memory, hashing,
    /// calls, logs and the like.
    Unsupported(u8),
}

/// How one instruction ended, where it did not fail.
#[derive(Clone, Copy, Debug, PartialEq, Eq)]
pub enum Flow {
    /// It took effect.
    Continue,
    /// It was `STOP`.
    Stop,
    /// It needs the driver and changed nothing.
    Suspend(Request),
}

/// Why a run of instructions ended.
#[derive(Clone, Copy, Debug, PartialEq, Eq)]
pub enum Exit {
    /// The step budget is used up.
    OutOfSteps,
    /// A `STOP` was reached.
    Stopped,
    /// An instruction failed with this status.
    Failed(StatusCode),
    /// The next instruction needs the driver; so many steps of the budget
    /// are left, that instruction's among them.
    Suspended { request: Request, steps_left: i32 },
}

/// What a run hands back.
#[derive(Debug)]
pub struct StepResult {
    pub step_status_code: StepStatusCode,
    pub status_code: StatusCode,
    pub revision: Revision,
    pub pc: u64,
    pub gas_left: i64,
    pub gas_refund: i64,
    pub output: Option<Vec<u8>>,
    /// The operand stack, top first.
    pub stack: Vec<Word>,
    pub memory: Vec<u8>,
    pub last_call_return_data: Option<Vec<u8>>,
}

/// The result of a run together with the reason why it ended, which tells
/// the driver what to do before the run can go on, if anything.
#[derive(Debug)]
pub struct RunResult {
    pub result: StepResult,
    pub exit: Exit,
}

} // verus!
