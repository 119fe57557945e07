//! The static analysis that finds the valid jump destinations of a program.

use crate::opcode;
use vstd::prelude::*;

verus! {

/// The number of immediate bytes that follow the opcode `op`: `n` for
/// `PUSHn`, none for every other instruction.
pub open spec fn immediate_len(op: u8) -> int {
    if opcode::PUSH1 <= op <= opcode::PUSH32 {
        op - opcode::PUSH1 + 1
    } else {
        0
    }
}

/// Whether an instruction starts at offset `d`, given that one starts at
/// `from`: each instruction is followed by the next one after its immediate
/// bytes.
pub open spec fn instruction_starts_at(code: Seq<u8>, from: int, d: int) -> bool
    decreases
            if d >= from {
                d - from
            } else {
                0
            },
{
    if from >= d || from < 0 || from >= code.len() {
        from == d
    } else {
        instruction_starts_at(code, from + 1 + immediate_len(code[from]), d)
    }
}

/// Whether offset `d` lies in the immediate bytes of the `PUSHn` that starts
/// at `start`.
pub open spec fn in_immediate_of(code: Seq<u8>, start: int, d: int) -> bool {
    0 <= start < code.len() && start < d <= start + immediate_len(code[start])
}

/// Whether offset `d` is a valid jump destination of `code`: a `JUMPDEST`
/// byte at which an instruction starts.
pub open spec fn is_jump_dest(code: Seq<u8>, d: int) -> bool {
    0 <= d < code.len() && code[d] == opcode::JUMPDEST && instruction_starts_at(code, 0, d)
}

/// A scan that passes through the instruction start `s` goes on from there.
pub proof fn lemma_scan_resumes(code: Seq<u8>, from: int, s: int, d: int)
    requires
        0 <= from <= s <= d,
        s <= code.len(),
        instruction_starts_at(code, from, s),
    ensures
        instruction_starts_at(code, from, d) == instruction_starts_at(code, s, d),
    decreases s - from,
{
    if from < s {
        let next = from + 1 + immediate_len(code[from]);
        assert(instruction_starts_at(code, next, s));
        assert(next <= s);
        lemma_scan_resumes(code, next, s, d);
    }
}

/// An offset below the length of the code is no instruction start exactly
/// when it lies in the immediate bytes of a `PUSHn` that is one.
pub proof fn lemma_push_data(code: Seq<u8>, d: int)
    requires
        0 <= d < code.len(),
    ensures
        !instruction_starts_at(code, 0, d) <==> exists|s: int|
            instruction_starts_at(code, 0, s) && #[trigger] in_immediate_of(code, s, d),
{
    lemma_push_data_from(code, 0, d);
    if exists|s: int| instruction_starts_at(code, 0, s) && #[trigger] in_immediate_of(code, s, d) {
        let s = choose|s: int|
            instruction_starts_at(code, 0, s) && #[trigger] in_immediate_of(code, s, d);
        lemma_scan_resumes(code, 0, s, d);
        assert(!instruction_starts_at(code, s + 1 + immediate_len(code[s]), d));
    }
}

/// The valid jump destinations are the `JUMPDEST` bytes outside the
/// immediate bytes of every `PUSHn` instruction, and nothing else.
pub proof fn lemma_jump_dest_outside_push_data(code: Seq<u8>, d: int)
    ensures
        is_jump_dest(code, d) <==> 0 <= d < code.len() && code[d] == opcode::JUMPDEST && !exists|
            s: int,
        | instruction_starts_at(code, 0, s) && #[trigger] in_immediate_of(code, s, d),
{
    if 0 <= d < code.len() {
        lemma_push_data(code, d);
    }
}

/// A scan from the instruction start `from` that does not stop at `d` has
/// passed a `PUSHn` whose immediate bytes hold `d`.
proof fn lemma_push_data_from(code: Seq<u8>, from: int, d: int)
    requires
        0 <= from <= d < code.len(),
        instruction_starts_at(code, 0, from),
    ensures
        !instruction_starts_at(code, from, d) ==> exists|s: int|
            instruction_starts_at(code, 0, s) && #[trigger] in_immediate_of(code, s, d),
    decreases d - from,
{
    if from < d {
        let next = from + 1 + immediate_len(code[from]);
        if next > d {
            assert(in_immediate_of(code, from, d));
        } else {
            lemma_scan_resumes(code, 0, from, next);
            assert(instruction_starts_at(code, next, next));
            lemma_push_data_from(code, next, d);
        }
    }
}

/// The set of valid jump destinations of one program, with a flag for each
/// offset.
pub struct JumpTable {
    valid: Vec<bool>,
}

impl View for JumpTable {
    type V = Set<int>;

    /// The offsets that the table holds.
    closed spec fn view(&self) -> Set<int> {
        Set::new(|d: int| 0 <= d < self.valid@.len() && self.valid@[d])
    }
}

impl JumpTable {
    /// Every offset in the table is a machine index.
    pub proof fn lemma_in_range(&self)
        ensures
            forall|d: int| self@.contains(d) ==> 0 <= d < usize::MAX,
    {
        assert(self.valid.len() == self.valid@.len());
    }

    /// Whether `dest` is in the table.
    pub fn contains(&self, dest: usize) -> (r: bool)
        ensures
            r == self@.contains(dest as int),
    {
        dest < self.valid.len() && self.valid[dest]
    }
}

/// Scans `code` once, from left to right, and collects the offsets of the
/// `JUMPDEST` bytes that are instructions, skipping the immediate bytes of
/// each `PUSHn`. Immediate bytes that the code is too short to hold are no
/// fault.
pub fn get_jump_destinations(code: &[u8]) -> (table: JumpTable)
    ensures
        forall|d: int| table@.contains(d) <==> is_jump_dest(code@, d),
{
    let len = code.len();
    let mut valid: Vec<bool> = vec![false; len];
    let mut i: usize = 0;
    while i < len
        invariant
            len == code@.len(),
            valid@.len() == len,
            i <= len,
            i < len ==> instruction_starts_at(code@, 0, i as int),
            forall|d: int| 0 <= d < i ==> valid@[d] == is_jump_dest(code@, d),
            forall|d: int| i <= d < len ==> !valid@[d],
        decreases len - i,
    {
        let op = code[i];
        let ghost next = i + 1 + immediate_len(op);
        proof {
            assert forall|d: int| i < d < len && d < next implies !is_jump_dest(code@, d) by {
                lemma_scan_resumes(code@, 0, i as int, d);
                assert(!instruction_starts_at(code@, next, d));
            }
            if next < len {
                lemma_scan_resumes(code@, 0, i as int, next);
                assert(instruction_starts_at(code@, next, next));
            }
        }
        if opcode::PUSH1 <= op && op <= opcode::PUSH32 {
            let skip: usize = (op - opcode::PUSH1) as usize + 2;
            if skip >= len - i {
                i = len;
            } else {
                i += skip;
            }
        } else {
            if op == opcode::JUMPDEST {
                valid[i] = true;
            }
            i += 1;
        }
    }
    let table = JumpTable { valid };
    assert forall|d: int| table@.contains(d) <==> is_jump_dest(code@, d) by {}
    table
}

} // verus!
