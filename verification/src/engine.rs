//! The step engine: dispatches one effective instruction against the
//! execution state, firing the one rule whose guard holds, and is proved
//! to implement the step function of the semantics exactly.

use vstd::prelude::*;

use crate::instruction::{
    glyph_is_digit, Instruction, InstructionExecutionStatus, ADD, AND, BURY, CONTROL_TOGGLE,
    DECREMENT, DIG, DIVIDE, DUPLICATE, EQUAL, GREATER, HALT, INCREMENT, INTERCHANGE_TOPS, LESS,
    MIRROR_BACK, MIRROR_FORWARD, MULTIPLY, NOP, NOT, OR, OVER, POP, PUSH, READ, REVERSE_MODE,
    ROTATE_LEFT, ROTATE_RIGHT, STRING_MODE, SUBTRACT, SWAP_FIRST_THIRD, SWAP_SECOND_THIRD,
    SWAP_TWO_TOP, TRANSFER_TOP_CONTROL_DATA, TRANSFER_TOP_DATA_CONTROL, UNDER, UNDUPLICATE,
    WRITE, XOR,
};
use crate::semantics::{
    digits_val, fired, halt_applies, lemma_fired_is_guard, rotl32, rotr32, step_effective,
    Rule, StepOutcome,
};
use crate::state::State;

verus! {

/// The value of a prefix of a digit string never exceeds the value of
/// the whole string.
proof fn lemma_digits_val_mono(s: Seq<u8>, k: int)
    requires
        0 <= k <= s.len(),
        forall|t: int| 0 <= t < s.len() ==> glyph_is_digit(#[trigger] s[t]),
    ensures
        digits_val(s.take(k)) <= digits_val(s),
    decreases s.len() - k,
{
    if k < s.len() {
        assert(s.take(k + 1).drop_last() =~= s.take(k));
        assert(s.take(k + 1).last() == s[k]);
        lemma_digits_val_mono(s, k + 1);
    } else {
        assert(s.take(k) =~= s);
    }
}

/// The decimal value of the accumulator, absent when it does not fit in
/// one unsigned word, as the digit-end rule demands.
fn parse_acc(acc: &Vec<u8>) -> (r: Option<u32>)
    requires
        forall|t: int| 0 <= t < acc@.len() ==> glyph_is_digit(#[trigger] acc@[t]),
    ensures
        match r {
            Some(v) => digits_val(acc@) <= u32::MAX && v == digits_val(acc@),
            None => digits_val(acc@) > u32::MAX,
        },
{
    let n = acc.len();
    let mut val: u64 = 0;
    let mut k: usize = 0;
    while k < n
        invariant
            n == acc@.len(),
            k <= n,
            forall|t: int| 0 <= t < acc@.len() ==> glyph_is_digit(#[trigger] acc@[t]),
            val == digits_val(acc@.take(k as int)),
            val <= u32::MAX,
        decreases n - k,
    {
        proof {
            assert(acc@.take(k as int + 1).drop_last() =~= acc@.take(k as int));
            assert(acc@.take(k as int + 1).last() == acc@[k as int]);
        }
        let d = acc[k] - 0x30;
        let nv: u64 = val * 10 + (d as u64);
        if nv > 0xffff_ffff {
            proof {
                lemma_digits_val_mono(acc@, k as int + 1);
            }
            return None;
        }
        val = nv;
        k += 1;
    }
    proof {
        assert(acc@.take(n as int) =~= acc@);
    }
    Some(val as u32)
}

/// The word rotated left by the amount taken modulo the word width.
fn rotl_exec(y: i32, x: i32) -> (r: i32)
    ensures
        r == rotl32(y, x),
{
    let u: u32 = #[verifier::truncate] (y as u32);
    let k: u32 = (#[verifier::truncate] (x as u32)) % 32;
    if k == 0 {
        y
    } else {
        #[verifier::truncate] (((u << k) | (u >> (32 - k))) as i32)
    }
}

/// The word rotated right by the amount taken modulo the word width.
fn rotr_exec(y: i32, x: i32) -> (r: i32)
    ensures
        r == rotr32(y, x),
{
    let u: u32 = #[verifier::truncate] (y as u32);
    let k: u32 = (#[verifier::truncate] (x as u32)) % 32;
    if k == 0 {
        y
    } else {
        #[verifier::truncate] (((u >> k) | (u << (32 - k))) as i32)
    }
}

impl Instruction {
    /// One step of the engine: fires the one rule this instruction's
    /// guard selects in the current state, and reports what happened.
    /// Where no guard holds the step is stuck and the state is left as
    /// it was; the halt dispatch also leaves it unchanged.
    #[verifier::rlimit(100)]
    pub fn execute(self, state: &mut State) -> (status: InstructionExecutionStatus)
        requires
            old(state)@.wf(),
        ensures
            ({
                let m = old(state)@;
                match step_effective(self@, m) {
                    StepOutcome::Proceed { rule, next } => status
                        == InstructionExecutionStatus::Successful(rule) && final(state)@ == next
                        && final(state)@.wf(),
                    StepOutcome::Halted => status == InstructionExecutionStatus::Halt
                        && final(state)@ == m,
                    StepOutcome::Stuck => status == InstructionExecutionStatus::Unsuccessful
                        && final(state)@ == m,
                }
            }),
    {
        let ghost m = old(state)@;
        let ghost i = self@;
        let c = self.c;
        let base = !state.string_mode && state.multi_digit_accumulator.len() == 0;
        let rev = state.reverse_mode;
        let dlen = state.data_stack.len();
        let clen = state.control_stack.len();
        let gdir = self.direction();
        if c == NOP && base {
            let nl = state.next();
            state.location = nl;
            proof {
                lemma_fired_is_guard(i, m, Rule::Nop);
            }
            InstructionExecutionStatus::Successful(Rule::Nop)
        } else if !state.string_mode && (0x30 <= c && c <= 0x39) && !rev {
            let nl = state.next();
            state.multi_digit_accumulator.push(c);
            state.location = nl;
            proof {
                lemma_fired_is_guard(i, m, Rule::Digit);
            }
            InstructionExecutionStatus::Successful(Rule::Digit)
        } else if !state.string_mode && (0x30 <= c && c <= 0x39) && rev {
            let nl = state.next();
            state.multi_digit_accumulator.insert(0, c);
            state.location = nl;
            proof {
                lemma_fired_is_guard(i, m, Rule::DigitInv);
                assert(m.acc.insert(0, i) =~= seq![i] + m.acc);
            }
            InstructionExecutionStatus::Successful(Rule::DigitInv)
        } else if !state.string_mode && state.multi_digit_accumulator.len() > 0 && !(0x30 <= c
            && c <= 0x39) && dlen > 0 {
            match parse_acc(&state.multi_digit_accumulator) {
                Some(n) => {
                    let x = state.data_stack.pop().unwrap();
                    state.multi_digit_accumulator.clear();
                    let ni: i32 = #[verifier::truncate] (n as i32);
                    state.data_stack.push(x ^ ni);
                    proof {
                        lemma_fired_is_guard(i, m, Rule::DigitEnd);
                    }
                    InstructionExecutionStatus::Successful(Rule::DigitEnd)
                },
                None => {
                    proof {
                        assert(fired(i, m) is None);
                    }
                    InstructionExecutionStatus::Unsuccessful
                },
            }
        } else if c == PUSH && base {
            let nl = state.next();
            state.data_stack.push(0);
            state.location = nl;
            proof {
                lemma_fired_is_guard(i, m, Rule::Push);
            }
            InstructionExecutionStatus::Successful(Rule::Push)
        } else if c == POP && base && dlen > 0 && state.data_stack.last().unwrap() == 0 {
            let nl = state.next();
            let _ = state.data_stack.pop();
            state.location = nl;
            proof {
                lemma_fired_is_guard(i, m, Rule::Pop);
            }
            InstructionExecutionStatus::Successful(Rule::Pop)
        } else if c == TRANSFER_TOP_DATA_CONTROL && base && dlen > 0 {
            let nl = state.next();
            let x = state.data_stack.pop().unwrap();
            state.control_stack.push(x);
            state.location = nl;
            proof {
                lemma_fired_is_guard(i, m, Rule::TransferDataControl);
            }
            InstructionExecutionStatus::Successful(Rule::TransferDataControl)
        } else if c == TRANSFER_TOP_CONTROL_DATA && base && clen > 0 {
            let nl = state.next();
            let x = state.control_stack.pop().unwrap();
            state.data_stack.push(x);
            state.location = nl;
            proof {
                lemma_fired_is_guard(i, m, Rule::TransferControlData);
            }
            InstructionExecutionStatus::Successful(Rule::TransferControlData)
        } else if c == INTERCHANGE_TOPS && base && dlen > 0 && clen > 0 {
            let nl = state.next();
            let x = state.data_stack.pop().unwrap();
            let y = state.control_stack.pop().unwrap();
            state.data_stack.push(y);
            state.control_stack.push(x);
            state.location = nl;
            proof {
                lemma_fired_is_guard(i, m, Rule::Interchange);
            }
            InstructionExecutionStatus::Successful(Rule::Interchange)
        } else if c == WRITE && base && !rev {
            let valid = match state.data_stack.last() {
                Some(t) => 0 <= t && t < 128,
                None => false,
            };
            if valid {
                let nl = state.next();
                let t = state.data_stack.pop().unwrap();
                let ch = (t as u8) as char;
                state.output_stack.push(ch);
                state.emitted.push(ch);
                state.location = nl;
                proof {
                    lemma_fired_is_guard(i, m, Rule::Write);
                }
                InstructionExecutionStatus::Successful(Rule::Write)
            } else {
                proof {
                    assert(fired(i, m) is None);
                }
                InstructionExecutionStatus::Unsuccessful
            }
        } else if c == WRITE && base && rev && !state.output_stack.is_empty() {
            let ch = state.output_stack.pop().unwrap();
            state.data_stack.push((ch as u32) as i32);
            proof {
                lemma_fired_is_guard(i, m, Rule::Unwrite);
            }
            InstructionExecutionStatus::Successful(Rule::Unwrite)
        } else if c == READ && base && !rev {
            if !state.input_stack.is_empty() {
                let nl = state.next();
                let ch = state.input_stack.pop().unwrap();
                state.data_stack.push((ch as u32) as i32);
                state.location = nl;
                proof {
                    lemma_fired_is_guard(i, m, Rule::Read);
                }
                InstructionExecutionStatus::Successful(Rule::Read)
            } else {
                let ok = match state.host_input.last() {
                    Some(hc) => 0x20 <= hc as u32 && hc as u32 <= 0x7e,
                    None => false,
                };
                if ok {
                    let nl = state.next();
                    let hc = state.host_input.pop().unwrap();
                    state.data_stack.push((hc as u32) as i32);
                    state.location = nl;
                    proof {
                        lemma_fired_is_guard(i, m, Rule::Read);
                    }
                    InstructionExecutionStatus::Successful(Rule::Read)
                } else {
                    proof {
                        assert(fired(i, m) is None);
                    }
                    InstructionExecutionStatus::Unsuccessful
                }
            }
        } else if c == READ && base && rev {
            let ok = match state.data_stack.last() {
                Some(t) => 0x20 <= t && t <= 0x7e,
                None => false,
            };
            if ok {
                let nl = state.next();
                let t = state.data_stack.pop().unwrap();
                state.input_stack.push((t as u8) as char);
                state.location = nl;
                proof {
                    lemma_fired_is_guard(i, m, Rule::Unread);
                }
                InstructionExecutionStatus::Successful(Rule::Unread)
            } else {
                proof {
                    assert(fired(i, m) is None);
                }
                InstructionExecutionStatus::Unsuccessful
            }
        } else if c == INCREMENT && base && dlen > 0 {
            let nl = state.next();
            let x = state.data_stack.pop().unwrap();
            state.data_stack.push(x.wrapping_add(1));
            state.location = nl;
            proof {
                lemma_fired_is_guard(i, m, Rule::Increment);
            }
            InstructionExecutionStatus::Successful(Rule::Increment)
        } else if c == DECREMENT && base && dlen > 0 {
            let nl = state.next();
            let x = state.data_stack.pop().unwrap();
            state.data_stack.push(x.wrapping_sub(1));
            state.location = nl;
            proof {
                lemma_fired_is_guard(i, m, Rule::Decrement);
            }
            InstructionExecutionStatus::Successful(Rule::Decrement)
        } else if c == ADD && base && dlen >= 2 {
            let nl = state.next();
            let x = state.data_stack.pop().unwrap();
            let y = state.data_stack.pop().unwrap();
            state.data_stack.push(y.wrapping_add(x));
            state.data_stack.push(x);
            state.location = nl;
            proof {
                lemma_fired_is_guard(i, m, Rule::Add);
                assert(m.data.drop_last().drop_last() =~= m.data.take(m.data.len() - 2));
            }
            InstructionExecutionStatus::Successful(Rule::Add)
        } else if c == SUBTRACT && base && dlen >= 2 {
            let nl = state.next();
            let x = state.data_stack.pop().unwrap();
            let y = state.data_stack.pop().unwrap();
            state.data_stack.push(y.wrapping_sub(x));
            state.data_stack.push(x);
            state.location = nl;
            proof {
                lemma_fired_is_guard(i, m, Rule::Subtract);
                assert(m.data.drop_last().drop_last() =~= m.data.take(m.data.len() - 2));
            }
            InstructionExecutionStatus::Successful(Rule::Subtract)
        } else if c == DIVIDE && base && dlen >= 2 && state.data_stack.last().unwrap() != 0 {
            let nl = state.next();
            let x = state.data_stack.pop().unwrap();
            let y = state.data_stack.pop().unwrap();
            let q = match y.checked_div(x) {
                Some(qq) => qq,
                None => i32::MIN,
            };
            let rm = match y.checked_rem(x) {
                Some(rr) => rr,
                None => 0,
            };
            state.data_stack.push(q);
            state.data_stack.push(rm);
            state.data_stack.push(x);
            state.location = nl;
            proof {
                lemma_fired_is_guard(i, m, Rule::Divide);
                assert(m.data.drop_last().drop_last() =~= m.data.take(m.data.len() - 2));
            }
            InstructionExecutionStatus::Successful(Rule::Divide)
        } else if c == MULTIPLY && base && dlen >= 3 {
            let nl = state.next();
            let x = state.data_stack.pop().unwrap();
            let y = state.data_stack.pop().unwrap();
            let z = state.data_stack.pop().unwrap();
            state.data_stack.push(z.wrapping_mul(x).wrapping_add(y));
            state.data_stack.push(x);
            state.location = nl;
            proof {
                lemma_fired_is_guard(i, m, Rule::Multiply);
                assert(m.data.drop_last().drop_last().drop_last() =~= m.data.take(
                    m.data.len() - 3,
                ));
            }
            InstructionExecutionStatus::Successful(Rule::Multiply)
        } else if c == NOT && base && dlen > 0 {
            let nl = state.next();
            let x = state.data_stack.pop().unwrap();
            state.data_stack.push(x ^ (-1i32));
            state.location = nl;
            proof {
                lemma_fired_is_guard(i, m, Rule::Not);
            }
            InstructionExecutionStatus::Successful(Rule::Not)
        } else if c == AND && base && dlen >= 3 {
            let nl = state.next();
            let x = state.data_stack.pop().unwrap();
            let y = state.data_stack.pop().unwrap();
            let z = state.data_stack.pop().unwrap();
            state.data_stack.push((x & y) ^ z);
            state.data_stack.push(y);
            state.data_stack.push(x);
            state.location = nl;
            proof {
                lemma_fired_is_guard(i, m, Rule::And);
                assert(m.data.drop_last().drop_last().drop_last() =~= m.data.take(
                    m.data.len() - 3,
                ));
            }
            InstructionExecutionStatus::Successful(Rule::And)
        } else if c == OR && base && dlen >= 3 {
            let nl = state.next();
            let x = state.data_stack.pop().unwrap();
            let y = state.data_stack.pop().unwrap();
            let z = state.data_stack.pop().unwrap();
            state.data_stack.push((x | y) ^ z);
            state.data_stack.push(y);
            state.data_stack.push(x);
            state.location = nl;
            proof {
                lemma_fired_is_guard(i, m, Rule::Or);
                assert(m.data.drop_last().drop_last().drop_last() =~= m.data.take(
                    m.data.len() - 3,
                ));
            }
            InstructionExecutionStatus::Successful(Rule::Or)
        } else if c == XOR && base && dlen >= 2 {
            let nl = state.next();
            let x = state.data_stack.pop().unwrap();
            let y = state.data_stack.pop().unwrap();
            state.data_stack.push(x ^ y);
            state.data_stack.push(x);
            state.location = nl;
            proof {
                lemma_fired_is_guard(i, m, Rule::Xor);
                assert(m.data.drop_last().drop_last() =~= m.data.take(m.data.len() - 2));
            }
            InstructionExecutionStatus::Successful(Rule::Xor)
        } else if c == ROTATE_LEFT && base && dlen >= 2 {
            let nl = state.next();
            let x = state.data_stack.pop().unwrap();
            let y = state.data_stack.pop().unwrap();
            state.data_stack.push(rotl_exec(y, x));
            state.data_stack.push(x);
            state.location = nl;
            proof {
                lemma_fired_is_guard(i, m, Rule::RotateLeft);
                assert(m.data.drop_last().drop_last() =~= m.data.take(m.data.len() - 2));
            }
            InstructionExecutionStatus::Successful(Rule::RotateLeft)
        } else if c == ROTATE_RIGHT && base && dlen >= 2 {
            let nl = state.next();
            let x = state.data_stack.pop().unwrap();
            let y = state.data_stack.pop().unwrap();
            state.data_stack.push(rotr_exec(y, x));
            state.data_stack.push(x);
            state.location = nl;
            proof {
                lemma_fired_is_guard(i, m, Rule::RotateRight);
                assert(m.data.drop_last().drop_last() =~= m.data.take(m.data.len() - 2));
            }
            InstructionExecutionStatus::Successful(Rule::RotateRight)
        } else if c == CONTROL_TOGGLE && base && clen > 0 {
            let nl = state.next();
            let cc = state.control_stack.pop().unwrap();
            state.control_stack.push(cc ^ 1);
            state.location = nl;
            proof {
                lemma_fired_is_guard(i, m, Rule::Toggle);
            }
            InstructionExecutionStatus::Successful(Rule::Toggle)
        } else if c == EQUAL && base && dlen >= 2 && clen > 0 {
            let nl = state.next();
            let x = state.data_stack.get(dlen - 1).unwrap();
            let y = state.data_stack.get(dlen - 2).unwrap();
            if y == x {
                let cc = state.control_stack.pop().unwrap();
                state.control_stack.push(cc ^ 1);
            }
            state.location = nl;
            proof {
                lemma_fired_is_guard(i, m, Rule::Equal);
            }
            InstructionExecutionStatus::Successful(Rule::Equal)
        } else if c == LESS && base && dlen >= 2 && clen > 0 {
            let nl = state.next();
            let x = state.data_stack.get(dlen - 1).unwrap();
            let y = state.data_stack.get(dlen - 2).unwrap();
            if y < x {
                let cc = state.control_stack.pop().unwrap();
                state.control_stack.push(cc ^ 1);
            }
            state.location = nl;
            proof {
                lemma_fired_is_guard(i, m, Rule::Less);
            }
            InstructionExecutionStatus::Successful(Rule::Less)
        } else if c == GREATER && base && dlen >= 2 && clen > 0 {
            let nl = state.next();
            let x = state.data_stack.get(dlen - 1).unwrap();
            let y = state.data_stack.get(dlen - 2).unwrap();
            if y > x {
                let cc = state.control_stack.pop().unwrap();
                state.control_stack.push(cc ^ 1);
            }
            state.location = nl;
            proof {
                lemma_fired_is_guard(i, m, Rule::Greater);
            }
            InstructionExecutionStatus::Successful(Rule::Greater)
        } else if c == SWAP_TWO_TOP && base && dlen >= 2 {
            let nl = state.next();
            let x = state.data_stack.pop().unwrap();
            let y = state.data_stack.pop().unwrap();
            state.data_stack.push(x);
            state.data_stack.push(y);
            state.location = nl;
            proof {
                lemma_fired_is_guard(i, m, Rule::SwapTop);
                assert(m.data.drop_last().drop_last() =~= m.data.take(m.data.len() - 2));
            }
            InstructionExecutionStatus::Successful(Rule::SwapTop)
        } else if c == DIG && base && dlen >= 3 {
            let nl = state.next();
            let x = state.data_stack.pop().unwrap();
            let y = state.data_stack.pop().unwrap();
            let z = state.data_stack.pop().unwrap();
            state.data_stack.push(y);
            state.data_stack.push(x);
            state.data_stack.push(z);
            state.location = nl;
            proof {
                lemma_fired_is_guard(i, m, Rule::Dig);
                assert(m.data.drop_last().drop_last().drop_last() =~= m.data.take(
                    m.data.len() - 3,
                ));
            }
            InstructionExecutionStatus::Successful(Rule::Dig)
        } else if c == BURY && base && dlen >= 3 {
            let nl = state.next();
            let x = state.data_stack.pop().unwrap();
            let y = state.data_stack.pop().unwrap();
            let z = state.data_stack.pop().unwrap();
            state.data_stack.push(x);
            state.data_stack.push(z);
            state.data_stack.push(y);
            state.location = nl;
            proof {
                lemma_fired_is_guard(i, m, Rule::Bury);
                assert(m.data.drop_last().drop_last().drop_last() =~= m.data.take(
                    m.data.len() - 3,
                ));
            }
            InstructionExecutionStatus::Successful(Rule::Bury)
        } else if c == SWAP_FIRST_THIRD && base && dlen >= 3 {
            let nl = state.next();
            let x = state.data_stack.pop().unwrap();
            let y = state.data_stack.pop().unwrap();
            let z = state.data_stack.pop().unwrap();
            state.data_stack.push(x);
            state.data_stack.push(y);
            state.data_stack.push(z);
            state.location = nl;
            proof {
                lemma_fired_is_guard(i, m, Rule::Flip);
                assert(m.data.drop_last().drop_last().drop_last() =~= m.data.take(
                    m.data.len() - 3,
                ));
            }
            InstructionExecutionStatus::Successful(Rule::Flip)
        } else if c == SWAP_SECOND_THIRD && base && dlen >= 3 {
            let nl = state.next();
            let x = state.data_stack.pop().unwrap();
            let y = state.data_stack.pop().unwrap();
            let z = state.data_stack.pop().unwrap();
            state.data_stack.push(y);
            state.data_stack.push(z);
            state.data_stack.push(x);
            state.location = nl;
            proof {
                lemma_fired_is_guard(i, m, Rule::SwapSecondThird);
                assert(m.data.drop_last().drop_last().drop_last() =~= m.data.take(
                    m.data.len() - 3,
                ));
            }
            InstructionExecutionStatus::Successful(Rule::SwapSecondThird)
        } else if c == OVER && base && dlen >= 2 {
            let nl = state.next();
            let x = state.data_stack.pop().unwrap();
            let y = state.data_stack.pop().unwrap();
            state.data_stack.push(y);
            state.data_stack.push(x);
            state.data_stack.push(y);
            state.location = nl;
            proof {
                lemma_fired_is_guard(i, m, Rule::Over);
                assert(m.data.drop_last().drop_last() =~= m.data.take(m.data.len() - 2));
            }
            InstructionExecutionStatus::Successful(Rule::Over)
        } else if c == UNDER && base && dlen >= 3 && state.data_stack.last().unwrap()
            == state.data_stack.get(dlen - 3).unwrap() {
            let nl = state.next();
            let _ = state.data_stack.pop();
            let x = state.data_stack.pop().unwrap();
            state.data_stack.push(x);
            state.location = nl;
            proof {
                lemma_fired_is_guard(i, m, Rule::Under);
                assert(m.data.drop_last().drop_last().push(m.data[m.data.len() - 2])
                    =~= m.data.drop_last());
            }
            InstructionExecutionStatus::Successful(Rule::Under)
        } else if c == DUPLICATE && base && dlen > 0 {
            let nl = state.next();
            let x = state.data_stack.pop().unwrap();
            state.data_stack.push(x);
            state.data_stack.push(x);
            state.location = nl;
            proof {
                lemma_fired_is_guard(i, m, Rule::Duplicate);
                assert(m.data.drop_last().push(m.data.last()) =~= m.data);
            }
            InstructionExecutionStatus::Successful(Rule::Duplicate)
        } else if c == UNDUPLICATE && base && dlen >= 2 && state.data_stack.last().unwrap()
            == state.data_stack.get(dlen - 2).unwrap() {
            let nl = state.next();
            let _ = state.data_stack.pop();
            state.location = nl;
            proof {
                lemma_fired_is_guard(i, m, Rule::Unduplicate);
            }
            InstructionExecutionStatus::Successful(Rule::Unduplicate)
        } else if c == STRING_MODE && state.multi_digit_accumulator.len() == 0 {
            let nl = state.next();
            state.string_mode = !state.string_mode;
            state.location = nl;
            proof {
                lemma_fired_is_guard(i, m, Rule::StringToggle);
            }
            InstructionExecutionStatus::Successful(Rule::StringToggle)
        } else if c == HALT && base {
            proof {
                assert(halt_applies(i, m));
            }
            InstructionExecutionStatus::Halt
        } else if c == MIRROR_BACK && base {
            state.direction = state.direction.mirror();
            let nl = state.next();
            state.location = nl;
            proof {
                lemma_fired_is_guard(i, m, Rule::MirrorBack);
            }
            InstructionExecutionStatus::Successful(Rule::MirrorBack)
        } else if c == MIRROR_FORWARD && base {
            state.direction = state.direction.mirror().opposite();
            let nl = state.next();
            state.location = nl;
            proof {
                lemma_fired_is_guard(i, m, Rule::MirrorForward);
            }
            InstructionExecutionStatus::Successful(Rule::MirrorForward)
        } else if base && gdir.is_some() && (gdir.unwrap() == state.direction.right()
            || gdir.unwrap() == state.direction.left()) {
            let g = gdir.unwrap();
            let bit: i32 = if g == state.direction.right() {
                if !rev {
                    1
                } else {
                    0
                }
            } else {
                if !rev {
                    0
                } else {
                    1
                }
            };
            state.control_stack.push(bit);
            state.direction = g;
            let nl = state.next();
            state.location = nl;
            proof {
                lemma_fired_is_guard(i, m, Rule::BranchSide);
            }
            InstructionExecutionStatus::Successful(Rule::BranchSide)
        } else if base && gdir.is_some() && gdir.unwrap() == state.direction.opposite() && clen
            > 0 {
            let cc = state.control_stack.pop().unwrap();
            if (cc == 0) != rev {
                state.direction = state.direction.left();
            } else {
                state.direction = state.direction.right();
            }
            let nl = state.next();
            state.location = nl;
            proof {
                lemma_fired_is_guard(i, m, Rule::BranchOpposite);
            }
            InstructionExecutionStatus::Successful(Rule::BranchOpposite)
        } else if base && gdir.is_some() && gdir.unwrap() == state.direction && clen > 0 {
            let cc = state.control_stack.pop().unwrap();
            state.control_stack.push(cc ^ 1);
            state.reverse_mode = !rev;
            state.direction = state.direction.opposite();
            let nl = state.next();
            state.location = nl;
            proof {
                lemma_fired_is_guard(i, m, Rule::BranchSame);
            }
            InstructionExecutionStatus::Successful(Rule::BranchSame)
        } else if state.string_mode && state.multi_digit_accumulator.len() == 0 && !rev && c
            != STRING_MODE {
            let nl = state.next();
            state.data_stack.push(c as i32);
            state.location = nl;
            proof {
                lemma_fired_is_guard(i, m, Rule::StringPush);
            }
            InstructionExecutionStatus::Successful(Rule::StringPush)
        } else if state.string_mode && state.multi_digit_accumulator.len() == 0 && rev && c
            != STRING_MODE && dlen > 0 && state.data_stack.last().unwrap() == c as i32 {
            let nl = state.next();
            let _ = state.data_stack.pop();
            state.location = nl;
            proof {
                lemma_fired_is_guard(i, m, Rule::StringPop);
            }
            InstructionExecutionStatus::Successful(Rule::StringPop)
        } else if c == REVERSE_MODE && base {
            let nl = state.next();
            state.reverse_mode = !rev;
            state.location = nl;
            proof {
                lemma_fired_is_guard(i, m, Rule::Reverse);
            }
            InstructionExecutionStatus::Successful(Rule::Reverse)
        } else {
            proof {
                assert(fired(i, m) is None);
            }
            InstructionExecutionStatus::Unsuccessful
        }
    }
}

} // verus!
