//! The mathematical model of execution: an abstract state, one rule per
//! primitive instruction with its guard and its effect, and the step
//! function that selects the rule an effective glyph fires under a given
//! state. The engine is verified against these definitions.

use vstd::prelude::*;

use crate::direction::Direction;
use crate::instruction::{
    glyph_is_digit, spec_glyph_direction, spec_inv, ADD, AND, BURY, CONTROL_TOGGLE, DECREMENT,
    DIG, DIVIDE, DUPLICATE, EQUAL, GREATER, HALT, INCREMENT, INTERCHANGE_TOPS, LESS, MIRROR_BACK,
    MIRROR_FORWARD, MULTIPLY, NOP, NOT, OR, OVER, POP, PUSH, READ, REVERSE_MODE, ROTATE_LEFT,
    ROTATE_RIGHT, STRING_MODE, SUBTRACT, SWAP_FIRST_THIRD, SWAP_SECOND_THIRD, SWAP_TWO_TOP,
    TRANSFER_TOP_CONTROL_DATA, TRANSFER_TOP_DATA_CONTROL, UNDER, UNDUPLICATE, WRITE, XOR,
};
use crate::program::grid_wf;

verus! {

/// The abstract execution state: the grid, both word stacks, the pointer,
/// the direction of travel, the two mode flags, the digit accumulator,
/// the two reverse-mode bookkeeping buffers, the bytes still unread from
/// the host, and everything written to the host so far.
pub ghost struct StateModel {
    pub grid: Seq<Seq<u8>>,
    pub data: Seq<i32>,
    pub control: Seq<i32>,
    pub x: int,
    pub y: int,
    pub dir: Direction,
    pub reverse: bool,
    pub string: bool,
    pub acc: Seq<u8>,
    pub output: Seq<char>,
    pub input: Seq<char>,
    pub host_input: Seq<char>,
    pub emitted: Seq<char>,
}

impl StateModel {
    pub open spec fn rows(self) -> int {
        self.grid.len() as int
    }

    pub open spec fn cols(self) -> int {
        self.grid[0].len() as int
    }

    /// The state is well formed: the grid is rectangular and non-empty,
    /// the pointer is on a cell, the accumulator holds digit glyphs only,
    /// the output buffer holds ASCII, and the input buffer holds
    /// printable ASCII.
    pub open spec fn wf(self) -> bool {
        &&& grid_wf(self.grid)
        &&& 0 <= self.x < self.cols()
        &&& 0 <= self.y < self.rows()
        &&& forall|i: int| 0 <= i < self.acc.len() ==> glyph_is_digit(#[trigger] self.acc[i])
        &&& forall|i: int| 0 <= i < self.output.len() ==> char_ascii(#[trigger] self.output[i])
        &&& forall|i: int| 0 <= i < self.input.len() ==> char_printable(#[trigger] self.input[i])
    }

    /// The glyph under the instruction pointer.
    pub open spec fn glyph(self) -> u8 {
        self.grid[self.y][self.x]
    }

    /// The glyph the engine dispatches on: under reverse mode, the
    /// glyph's inverse.
    pub open spec fn effective(self) -> u8 {
        if self.reverse {
            spec_inv(self.glyph())
        } else {
            self.glyph()
        }
    }

    /// The halt glyph under reverse mode has no inverse: dispatch is a
    /// program error.
    pub open spec fn at_reverse_halt(self) -> bool {
        self.reverse && self.glyph() == HALT
    }

    /// The cell one step onward in the direction of travel, wrapping
    /// toroidally: each coordinate moves by one modulo the grid size.
    pub open spec fn next_loc(self) -> (int, int) {
        step_pos(self.x, self.y, self.dir, self.rows(), self.cols())
    }

    /// The state with the pointer advanced one cell in the direction of
    /// travel.
    pub open spec fn advanced(self) -> StateModel {
        StateModel { x: self.next_loc().0, y: self.next_loc().1, ..self }
    }

    /// The guard every arithmetic, data and control rule shares: not in
    /// string mode, and no numeric literal half-read.
    pub open spec fn base_ok(self) -> bool {
        !self.string && self.acc.len() == 0
    }
}

/// A character within the ASCII range, control characters included.
pub open spec fn char_ascii(c: char) -> bool {
    (c as u32) < 128
}

/// A printable ASCII character.
pub open spec fn char_printable(c: char) -> bool {
    0x20 <= (c as u32) <= 0x7e
}

/// One toroidal move from `(x, y)` in direction `d` on a `rows` by `cols`
/// grid: the coordinate concerned moves by one, modulo the grid size.
pub open spec fn step_pos(x: int, y: int, d: Direction, rows: int, cols: int) -> (int, int) {
    match d {
        Direction::North => (x, if y == 0 { rows - 1 } else { y - 1 }),
        Direction::East => (if x + 1 == cols { 0 } else { x + 1 }, y),
        Direction::South => (x, if y + 1 == rows { 0 } else { y + 1 }),
        Direction::West => (if x == 0 { cols - 1 } else { x - 1 }, y),
    }
}

/// The cell reached after `n` toroidal moves from `(x, y)` in direction
/// `d`.
pub open spec fn iter_pos(x: int, y: int, d: Direction, rows: int, cols: int, n: nat) -> (
    int,
    int,
)
    decreases n,
{
    if n == 0 {
        (x, y)
    } else {
        let p = step_pos(x, y, d, rows, cols);
        iter_pos(p.0, p.1, d, rows, cols, (n - 1) as nat)
    }
}

/// Heading east or west, `n` moves land on column `(x + n)` or
/// `(x - n)` modulo the width, on the same row; north or south likewise
/// on the row, in the same column.
proof fn lemma_iter_pos_mod(x: int, y: int, d: Direction, rows: int, cols: int, n: nat)
    requires
        0 <= x < cols,
        0 <= y < rows,
    ensures
        d == Direction::East ==> iter_pos(x, y, d, rows, cols, n) == ((x + n) % cols, y),
        d == Direction::West ==> iter_pos(x, y, d, rows, cols, n) == ((x - n) % cols, y),
        d == Direction::South ==> iter_pos(x, y, d, rows, cols, n) == (x, (y + n) % rows),
        d == Direction::North ==> iter_pos(x, y, d, rows, cols, n) == (x, (y - n) % rows),
    decreases n,
{
    vstd::arithmetic::div_mod::lemma_small_mod(x as nat, cols as nat);
    vstd::arithmetic::div_mod::lemma_small_mod(y as nat, rows as nat);
    if n > 0 {
        let p = step_pos(x, y, d, rows, cols);
        assert(0 <= p.0 < cols && 0 <= p.1 < rows);
        lemma_iter_pos_mod(p.0, p.1, d, rows, cols, (n - 1) as nat);
        match d {
            Direction::East => {
                assert(p.0 == (x + 1) % cols) by {
                    if x + 1 == cols {
                        vstd::arithmetic::div_mod::lemma_mod_self_0(cols);
                    } else {
                        vstd::arithmetic::div_mod::lemma_small_mod((x + 1) as nat, cols as nat);
                    }
                };
                assert((p.0 + (n - 1)) % cols == (x + n) % cols) by {
                    vstd::arithmetic::div_mod::lemma_add_mod_noop_right(n - 1, x + 1, cols);
                };
            },
            Direction::West => {
                assert(p.0 == (x - 1) % cols) by {
                    if x == 0 {
                        vstd::arithmetic::div_mod::lemma_mod_add_multiples_vanish(-1, cols);
                        vstd::arithmetic::div_mod::lemma_small_mod((cols - 1) as nat, cols as nat);
                    } else {
                        vstd::arithmetic::div_mod::lemma_small_mod((x - 1) as nat, cols as nat);
                    }
                };
                assert((p.0 - (n - 1)) % cols == (x - n) % cols) by {
                    vstd::arithmetic::div_mod::lemma_add_mod_noop_right(-(n - 1), x - 1, cols);
                };
            },
            Direction::South => {
                assert(p.1 == (y + 1) % rows) by {
                    if y + 1 == rows {
                        vstd::arithmetic::div_mod::lemma_mod_self_0(rows);
                    } else {
                        vstd::arithmetic::div_mod::lemma_small_mod((y + 1) as nat, rows as nat);
                    }
                };
                assert((p.1 + (n - 1)) % rows == (y + n) % rows) by {
                    vstd::arithmetic::div_mod::lemma_add_mod_noop_right(n - 1, y + 1, rows);
                };
            },
            Direction::North => {
                assert(p.1 == (y - 1) % rows) by {
                    if y == 0 {
                        vstd::arithmetic::div_mod::lemma_mod_add_multiples_vanish(-1, rows);
                        vstd::arithmetic::div_mod::lemma_small_mod((rows - 1) as nat, rows as nat);
                    } else {
                        vstd::arithmetic::div_mod::lemma_small_mod((y - 1) as nat, rows as nat);
                    }
                };
                assert((p.1 - (n - 1)) % rows == (y - n) % rows) by {
                    vstd::arithmetic::div_mod::lemma_add_mod_noop_right(-(n - 1), y - 1, rows);
                };
            },
        }
    }
}

/// The toroidal wrap closes up: heading east or west, `cols` moves
/// return to the starting cell; heading north or south, `rows` moves
/// do.
pub proof fn lemma_wrap_roundtrip(x: int, y: int, d: Direction, rows: int, cols: int)
    requires
        0 <= x < cols,
        0 <= y < rows,
    ensures
        d == Direction::East || d == Direction::West ==> iter_pos(
            x,
            y,
            d,
            rows,
            cols,
            cols as nat,
        ) == (x, y),
        d == Direction::North || d == Direction::South ==> iter_pos(
            x,
            y,
            d,
            rows,
            cols,
            rows as nat,
        ) == (x, y),
{
    lemma_iter_pos_mod(x, y, d, rows, cols, cols as nat);
    lemma_iter_pos_mod(x, y, d, rows, cols, rows as nat);
    vstd::arithmetic::div_mod::lemma_mod_add_multiples_vanish(x, cols);
    vstd::arithmetic::div_mod::lemma_mod_sub_multiples_vanish(x, cols);
    vstd::arithmetic::div_mod::lemma_mod_add_multiples_vanish(y, rows);
    vstd::arithmetic::div_mod::lemma_mod_sub_multiples_vanish(y, rows);
    vstd::arithmetic::div_mod::lemma_small_mod(x as nat, cols as nat);
    vstd::arithmetic::div_mod::lemma_small_mod(y as nat, rows as nat);
}

/// The value of the digit accumulator read as a decimal numeral.
pub open spec fn digits_val(s: Seq<u8>) -> nat
    decreases s.len(),
{
    if s.len() == 0 {
        0
    } else {
        (digits_val(s.drop_last()) * 10 + (s.last() - 0x30)) as nat
    }
}

/// Truncating division as the divide rule computes it, with the one
/// two's-complement wrap: the smallest word divided by minus one gives
/// itself back.
pub open spec fn div_trunc(y: i32, x: i32) -> i32 {
    match y.checked_div(x) {
        Some(q) => q,
        None => i32::MIN,
    }
}

/// The remainder of truncating division, zero in the wrapping case.
pub open spec fn rem_trunc(y: i32, x: i32) -> i32 {
    match y.checked_rem(x) {
        Some(r) => r,
        None => 0,
    }
}

/// The word rotated left by the rotation amount taken modulo the word
/// width.
pub open spec fn rotl32(y: i32, x: i32) -> i32 {
    let u = y as u32;
    let k = (x as u32) % 32;
    if k == 0 {
        y
    } else {
        (((u << k) | (u >> ((32 - k) as u32))) as i32)
    }
}

/// The word rotated right by the rotation amount taken modulo the word
/// width.
pub open spec fn rotr32(y: i32, x: i32) -> i32 {
    let u = y as u32;
    let k = (x as u32) % 32;
    if k == 0 {
        y
    } else {
        (((u >> k) | (u << ((32 - k) as u32))) as i32)
    }
}

/// Multiplying the truncated quotient back and adding the remainder
/// recovers the dividend: the divide rule's output is exactly what the
/// multiply rule undoes.
proof fn lemma_div_mul_cancel(y: i32, x: i32)
    requires
        x != 0,
    ensures
        div_trunc(y, x).wrapping_mul(x).wrapping_add(rem_trunc(y, x)) == y,
{
    let a = y as int;
    let b = x as int;
    if y == i32::MIN && x == -1 {
        assert((a * -1) == 0x8000_0000);
        vstd::arithmetic::div_mod::lemma_div_basics(0x8000_0000);
        assert(div_trunc(y, x) == i32::MIN && rem_trunc(y, x) == 0);
        let q = div_trunc(y, x);
        assert((q as int) * (x as int) == 0x8000_0000) by (nonlinear_arith)
            requires
                q as int == -0x8000_0000,
                x as int == -1,
        ;
        vstd::arithmetic::div_mod::lemma_small_mod(0x8000_0000nat, 0x1_0000_0000nat);
        assert(q.wrapping_mul(x) == i32::MIN);
    } else if a == 0 {
        vstd::arithmetic::div_mod::lemma_div_basics(b);
        assert(div_trunc(y, x) == 0 && rem_trunc(y, x) == 0);
        assert((0int) * b == 0) by (nonlinear_arith);
        vstd::arithmetic::div_mod::lemma_small_mod(0nat, 0x1_0000_0000nat);
    } else {
        let qi: int = if a > 0 && b > 0 {
            a / b
        } else if a < 0 && b < 0 {
            (-a) / (-b)
        } else if a < 0 {
            -((-a) / b)
        } else {
            -(a / (-b))
        };
        let ri: int = if a > 0 && b > 0 {
            a % b
        } else if a < 0 && b < 0 {
            -((-a) % (-b))
        } else if a < 0 {
            -((-a) % b)
        } else {
            a % (-b)
        };
        if a > 0 && b > 0 {
            vstd::arithmetic::div_mod::lemma_fundamental_div_mod(a, b);
            vstd::arithmetic::div_mod::lemma_mod_bound(a, b);
            vstd::arithmetic::div_mod::lemma_mod_decreases(a as nat, b as nat);
            vstd::arithmetic::div_mod::lemma_div_pos_is_pos(a, b);
            vstd::arithmetic::div_mod::lemma_div_nonincreasing(a, b);
            assert(b * qi + ri == a);
            assert(0 <= ri <= a && 0 <= qi <= a);
        } else if a < 0 && b < 0 {
            vstd::arithmetic::div_mod::lemma_fundamental_div_mod(-a, -b);
            vstd::arithmetic::div_mod::lemma_mod_bound(-a, -b);
            vstd::arithmetic::div_mod::lemma_div_pos_is_pos(-a, -b);
            assert(b * qi == -((-b) * ((-a) / (-b)))) by (nonlinear_arith)
                requires
                    qi == (-a) / (-b),
            ;
            assert(b * qi + ri == a);
            if -b == 1 {
                vstd::arithmetic::div_mod::lemma_div_basics(-a);
                assert(qi == -a);
            } else {
                vstd::arithmetic::div_mod::lemma_div_decreases(-a, -b);
                assert(qi < -a);
            }
            assert(0 <= qi <= i32::MAX);
            assert(-(-b) < ri <= 0);
        } else if a < 0 {
            vstd::arithmetic::div_mod::lemma_fundamental_div_mod(-a, b);
            vstd::arithmetic::div_mod::lemma_mod_bound(-a, b);
            vstd::arithmetic::div_mod::lemma_div_pos_is_pos(-a, b);
            vstd::arithmetic::div_mod::lemma_div_nonincreasing(-a, b);
            assert(b * qi == -(b * ((-a) / b))) by (nonlinear_arith)
                requires
                    qi == -((-a) / b),
            ;
            assert(b * qi + ri == a);
            assert(i32::MIN <= qi <= 0);
            assert(-b < ri <= 0);
        } else {
            vstd::arithmetic::div_mod::lemma_fundamental_div_mod(a, -b);
            vstd::arithmetic::div_mod::lemma_mod_bound(a, -b);
            vstd::arithmetic::div_mod::lemma_mod_decreases(a as nat, (-b) as nat);
            vstd::arithmetic::div_mod::lemma_div_pos_is_pos(a, -b);
            vstd::arithmetic::div_mod::lemma_div_nonincreasing(a, -b);
            assert(b * qi == (-b) * (a / (-b))) by (nonlinear_arith)
                requires
                    qi == -(a / (-b)),
            ;
            assert(b * qi + ri == a);
            assert(i32::MIN < qi <= 0);
            assert(0 <= ri <= a);
        }
        assert(i32::MIN <= b * qi <= i32::MAX);
        assert(div_trunc(y, x) as int == qi && rem_trunc(y, x) as int == ri);
        let q = div_trunc(y, x);
        let prod = b * qi;
        assert((q as int) * (x as int) == prod) by (nonlinear_arith)
            requires
                q as int == qi,
                prod == b * qi,
                x as int == b,
        ;
        assert(q.wrapping_mul(x) == prod as i32) by {
            if prod >= 0 {
                vstd::arithmetic::div_mod::lemma_small_mod(prod as nat, 0x1_0000_0000nat);
            } else {
                vstd::arithmetic::div_mod::lemma_mod_add_multiples_vanish(
                    prod,
                    0x1_0000_0000,
                );
                vstd::arithmetic::div_mod::lemma_small_mod(
                    (prod + 0x1_0000_0000) as nat,
                    0x1_0000_0000nat,
                );
            }
        };
    }
}
/// The rules of the engine, one per primitive instruction, comparison
/// outcomes folded into their rule.
#[derive(Clone, Copy, PartialEq, Eq, Structural, Debug)]
pub enum Rule {
    Nop,
    Digit,
    DigitInv,
    DigitEnd,
    Push,
    Pop,
    TransferDataControl,
    TransferControlData,
    Interchange,
    Write,
    Unwrite,
    Read,
    Unread,
    Increment,
    Decrement,
    Add,
    Subtract,
    Divide,
    Multiply,
    Not,
    And,
    Or,
    Xor,
    RotateLeft,
    RotateRight,
    Toggle,
    Equal,
    Less,
    Greater,
    SwapTop,
    Dig,
    Bury,
    Flip,
    SwapSecondThird,
    Over,
    Under,
    Duplicate,
    Unduplicate,
    StringToggle,
    MirrorBack,
    MirrorForward,
    BranchSide,
    BranchOpposite,
    BranchSame,
    StringPush,
    StringPop,
    Reverse,
}

/// Whether halting applies: the halt glyph, outside string mode, with no
/// literal half-read. It ends the run rather than stepping it, so it
/// stands beside the rules.
pub open spec fn halt_applies(i: u8, m: StateModel) -> bool {
    i == HALT && m.base_ok()
}

/// The guard of each rule: whether the rule fires for effective glyph
/// `i` in state `m`.
pub open spec fn rule_guard(r: Rule, i: u8, m: StateModel) -> bool {
    match r {
        Rule::Nop => i == NOP && m.base_ok(),
        Rule::Digit => !m.string && glyph_is_digit(i) && !m.reverse,
        Rule::DigitInv => !m.string && glyph_is_digit(i) && m.reverse,
        Rule::DigitEnd => !m.string && m.acc.len() > 0 && !glyph_is_digit(i) && m.data.len() > 0
            && digits_val(m.acc) <= u32::MAX,
        Rule::Push => i == PUSH && m.base_ok(),
        Rule::Pop => i == POP && m.base_ok() && m.data.len() > 0 && m.data.last() == 0,
        Rule::TransferDataControl => i == TRANSFER_TOP_DATA_CONTROL && m.base_ok()
            && m.data.len() > 0,
        Rule::TransferControlData => i == TRANSFER_TOP_CONTROL_DATA && m.base_ok()
            && m.control.len() > 0,
        Rule::Interchange => i == INTERCHANGE_TOPS && m.base_ok() && m.data.len() > 0
            && m.control.len() > 0,
        Rule::Write => i == WRITE && m.base_ok() && !m.reverse && m.data.len() > 0 && 0
            <= m.data.last() < 128,
        Rule::Unwrite => i == WRITE && m.base_ok() && m.reverse && m.output.len() > 0,
        Rule::Read => i == READ && m.base_ok() && !m.reverse && (m.input.len() > 0 || (
        m.host_input.len() > 0 && 0x20 <= m.host_input.last() as u32 <= 0x7e)),
        Rule::Unread => i == READ && m.base_ok() && m.reverse && m.data.len() > 0 && 0x20
            <= m.data.last() <= 0x7e,
        Rule::Increment => i == INCREMENT && m.base_ok() && m.data.len() > 0,
        Rule::Decrement => i == DECREMENT && m.base_ok() && m.data.len() > 0,
        Rule::Add => i == ADD && m.base_ok() && m.data.len() >= 2,
        Rule::Subtract => i == SUBTRACT && m.base_ok() && m.data.len() >= 2,
        Rule::Divide => i == DIVIDE && m.base_ok() && m.data.len() >= 2 && m.data.last() != 0,
        Rule::Multiply => i == MULTIPLY && m.base_ok() && m.data.len() >= 3,
        Rule::Not => i == NOT && m.base_ok() && m.data.len() > 0,
        Rule::And => i == AND && m.base_ok() && m.data.len() >= 3,
        Rule::Or => i == OR && m.base_ok() && m.data.len() >= 3,
        Rule::Xor => i == XOR && m.base_ok() && m.data.len() >= 2,
        Rule::RotateLeft => i == ROTATE_LEFT && m.base_ok() && m.data.len() >= 2,
        Rule::RotateRight => i == ROTATE_RIGHT && m.base_ok() && m.data.len() >= 2,
        Rule::Toggle => i == CONTROL_TOGGLE && m.base_ok() && m.control.len() > 0,
        Rule::Equal => i == EQUAL && m.base_ok() && m.data.len() >= 2 && m.control.len() > 0,
        Rule::Less => i == LESS && m.base_ok() && m.data.len() >= 2 && m.control.len() > 0,
        Rule::Greater => i == GREATER && m.base_ok() && m.data.len() >= 2 && m.control.len()
            > 0,
        Rule::SwapTop => i == SWAP_TWO_TOP && m.base_ok() && m.data.len() >= 2,
        Rule::Dig => i == DIG && m.base_ok() && m.data.len() >= 3,
        Rule::Bury => i == BURY && m.base_ok() && m.data.len() >= 3,
        Rule::Flip => i == SWAP_FIRST_THIRD && m.base_ok() && m.data.len() >= 3,
        Rule::SwapSecondThird => i == SWAP_SECOND_THIRD && m.base_ok() && m.data.len() >= 3,
        Rule::Over => i == OVER && m.base_ok() && m.data.len() >= 2,
        Rule::Under => i == UNDER && m.base_ok() && m.data.len() >= 3 && m.data.last()
            == m.data[m.data.len() - 3],
        Rule::Duplicate => i == DUPLICATE && m.base_ok() && m.data.len() > 0,
        Rule::Unduplicate => i == UNDUPLICATE && m.base_ok() && m.data.len() >= 2
            && m.data.last() == m.data[m.data.len() - 2],
        Rule::StringToggle => i == STRING_MODE && m.acc.len() == 0,
        Rule::MirrorBack => i == MIRROR_BACK && m.base_ok(),
        Rule::MirrorForward => i == MIRROR_FORWARD && m.base_ok(),
        Rule::BranchSide => m.base_ok() && match spec_glyph_direction(i) {
            Some(g) => g == m.dir.spec_right() || g == m.dir.spec_left(),
            None => false,
        },
        Rule::BranchOpposite => m.base_ok() && m.control.len() > 0 && match spec_glyph_direction(
            i,
        ) {
            Some(g) => g == m.dir.spec_opposite(),
            None => false,
        },
        Rule::BranchSame => m.base_ok() && m.control.len() > 0 && match spec_glyph_direction(i) {
            Some(g) => g == m.dir,
            None => false,
        },
        Rule::StringPush => m.string && m.acc.len() == 0 && !m.reverse && i != STRING_MODE,
        Rule::StringPop => m.string && m.acc.len() == 0 && m.reverse && i != STRING_MODE
            && m.data.len() > 0 && m.data.last() == i as i32,
        Rule::Reverse => i == REVERSE_MODE && m.base_ok(),
    }
}

/// The effect of each rule, meaningful where its guard holds. Unless the
/// rule says otherwise, the pointer advances one cell, in the direction
/// the rule itself may just have set.
pub open spec fn rule_apply(r: Rule, i: u8, m: StateModel) -> StateModel {
    match r {
        Rule::Nop => m.advanced(),
        Rule::Digit => StateModel { acc: m.acc.push(i), ..m }.advanced(),
        Rule::DigitInv => StateModel { acc: seq![i] + m.acc, ..m }.advanced(),
        Rule::DigitEnd => StateModel {
            data: m.data.drop_last().push(m.data.last() ^ ((digits_val(m.acc) as u32) as i32)),
            acc: Seq::empty(),
            ..m
        },
        Rule::Push => StateModel { data: m.data.push(0i32), ..m }.advanced(),
        Rule::Pop => StateModel { data: m.data.drop_last(), ..m }.advanced(),
        Rule::TransferDataControl => StateModel {
            data: m.data.drop_last(),
            control: m.control.push(m.data.last()),
            ..m
        }.advanced(),
        Rule::TransferControlData => StateModel {
            data: m.data.push(m.control.last()),
            control: m.control.drop_last(),
            ..m
        }.advanced(),
        Rule::Interchange => StateModel {
            data: m.data.drop_last().push(m.control.last()),
            control: m.control.drop_last().push(m.data.last()),
            ..m
        }.advanced(),
        Rule::Write => StateModel {
            data: m.data.drop_last(),
            output: m.output.push(((m.data.last() as u8) as char)),
            emitted: m.emitted.push(((m.data.last() as u8) as char)),
            ..m
        }.advanced(),
        Rule::Unwrite => StateModel {
            data: m.data.push(((m.output.last() as u32) as i32)),
            output: m.output.drop_last(),
            ..m
        },
        Rule::Read => if m.input.len() > 0 {
            StateModel {
                data: m.data.push(((m.input.last() as u32) as i32)),
                input: m.input.drop_last(),
                ..m
            }.advanced()
        } else {
            StateModel {
                data: m.data.push(((m.host_input.last() as u32) as i32)),
                host_input: m.host_input.drop_last(),
                ..m
            }.advanced()
        },
        Rule::Unread => StateModel {
            data: m.data.drop_last(),
            input: m.input.push(((m.data.last() as u8) as char)),
            ..m
        }.advanced(),
        Rule::Increment => StateModel {
            data: m.data.drop_last().push(m.data.last().wrapping_add(1)),
            ..m
        }.advanced(),
        Rule::Decrement => StateModel {
            data: m.data.drop_last().push(m.data.last().wrapping_sub(1)),
            ..m
        }.advanced(),
        Rule::Add => StateModel {
            data: m.data.take(m.data.len() - 2).push(
                m.data[m.data.len() - 2].wrapping_add(m.data.last()),
            ).push(m.data.last()),
            ..m
        }.advanced(),
        Rule::Subtract => StateModel {
            data: m.data.take(m.data.len() - 2).push(
                m.data[m.data.len() - 2].wrapping_sub(m.data.last()),
            ).push(m.data.last()),
            ..m
        }.advanced(),
        Rule::Divide => StateModel {
            data: m.data.take(m.data.len() - 2).push(
                div_trunc(m.data[m.data.len() - 2], m.data.last()),
            ).push(rem_trunc(m.data[m.data.len() - 2], m.data.last())).push(m.data.last()),
            ..m
        }.advanced(),
        Rule::Multiply => StateModel {
            data: m.data.take(m.data.len() - 3).push(
                m.data[m.data.len() - 3].wrapping_mul(m.data.last()).wrapping_add(
                    m.data[m.data.len() - 2],
                ),
            ).push(m.data.last()),
            ..m
        }.advanced(),
        Rule::Not => StateModel { data: m.data.drop_last().push(m.data.last() ^ (-1i32)), ..m }.advanced(),
        Rule::And => StateModel {
            data: m.data.take(m.data.len() - 3).push(
                (m.data.last() & m.data[m.data.len() - 2]) ^ m.data[m.data.len() - 3],
            ).push(m.data[m.data.len() - 2]).push(m.data.last()),
            ..m
        }.advanced(),
        Rule::Or => StateModel {
            data: m.data.take(m.data.len() - 3).push(
                (m.data.last() | m.data[m.data.len() - 2]) ^ m.data[m.data.len() - 3],
            ).push(m.data[m.data.len() - 2]).push(m.data.last()),
            ..m
        }.advanced(),
        Rule::Xor => StateModel {
            data: m.data.take(m.data.len() - 2).push(
                m.data.last() ^ m.data[m.data.len() - 2],
            ).push(m.data.last()),
            ..m
        }.advanced(),
        Rule::RotateLeft => StateModel {
            data: m.data.take(m.data.len() - 2).push(
                rotl32(m.data[m.data.len() - 2], m.data.last()),
            ).push(m.data.last()),
            ..m
        }.advanced(),
        Rule::RotateRight => StateModel {
            data: m.data.take(m.data.len() - 2).push(
                rotr32(m.data[m.data.len() - 2], m.data.last()),
            ).push(m.data.last()),
            ..m
        }.advanced(),
        Rule::Toggle => StateModel {
            control: m.control.drop_last().push(m.control.last() ^ 1),
            ..m
        }.advanced(),
        Rule::Equal => if m.data[m.data.len() - 2] == m.data.last() {
            StateModel {
                control: m.control.drop_last().push(m.control.last() ^ 1),
                ..m
            }.advanced()
        } else {
            m.advanced()
        },
        Rule::Less => if m.data[m.data.len() - 2] < m.data.last() {
            StateModel {
                control: m.control.drop_last().push(m.control.last() ^ 1),
                ..m
            }.advanced()
        } else {
            m.advanced()
        },
        Rule::Greater => if m.data[m.data.len() - 2] > m.data.last() {
            StateModel {
                control: m.control.drop_last().push(m.control.last() ^ 1),
                ..m
            }.advanced()
        } else {
            m.advanced()
        },
        Rule::SwapTop => StateModel {
            data: m.data.take(m.data.len() - 2).push(m.data.last()).push(
                m.data[m.data.len() - 2],
            ),
            ..m
        }.advanced(),
        Rule::Dig => StateModel {
            data: m.data.take(m.data.len() - 3).push(m.data[m.data.len() - 2]).push(
                m.data.last(),
            ).push(m.data[m.data.len() - 3]),
            ..m
        }.advanced(),
        Rule::Bury => StateModel {
            data: m.data.take(m.data.len() - 3).push(m.data.last()).push(
                m.data[m.data.len() - 3],
            ).push(m.data[m.data.len() - 2]),
            ..m
        }.advanced(),
        Rule::Flip => StateModel {
            data: m.data.take(m.data.len() - 3).push(m.data.last()).push(
                m.data[m.data.len() - 2],
            ).push(m.data[m.data.len() - 3]),
            ..m
        }.advanced(),
        Rule::SwapSecondThird => StateModel {
            data: m.data.take(m.data.len() - 3).push(m.data[m.data.len() - 2]).push(
                m.data[m.data.len() - 3],
            ).push(m.data.last()),
            ..m
        }.advanced(),
        Rule::Over => StateModel {
            data: m.data.take(m.data.len() - 2).push(m.data[m.data.len() - 2]).push(
                m.data.last(),
            ).push(m.data[m.data.len() - 2]),
            ..m
        }.advanced(),
        Rule::Under => StateModel { data: m.data.drop_last(), ..m }.advanced(),
        Rule::Duplicate => StateModel { data: m.data.push(m.data.last()), ..m }.advanced(),
        Rule::Unduplicate => StateModel { data: m.data.drop_last(), ..m }.advanced(),
        Rule::StringToggle => StateModel { string: !m.string, ..m }.advanced(),
        Rule::MirrorBack => StateModel { dir: m.dir.spec_mirror(), ..m }.advanced(),
        Rule::MirrorForward => StateModel {
            dir: m.dir.spec_mirror().spec_opposite(),
            ..m
        }.advanced(),
        Rule::BranchSide => {
            let g = spec_glyph_direction(i)->Some_0;
            let bit: i32 = if g == m.dir.spec_right() {
                if !m.reverse {
                    1
                } else {
                    0
                }
            } else {
                if !m.reverse {
                    0
                } else {
                    1
                }
            };
            StateModel { control: m.control.push(bit), dir: g, ..m }.advanced()
        },
        Rule::BranchOpposite => StateModel {
            control: m.control.drop_last(),
            dir: if (m.control.last() == 0) != m.reverse {
                m.dir.spec_left()
            } else {
                m.dir.spec_right()
            },
            ..m
        }.advanced(),
        Rule::BranchSame => StateModel {
            control: m.control.drop_last().push(m.control.last() ^ 1),
            reverse: !m.reverse,
            dir: m.dir.spec_opposite(),
            ..m
        }.advanced(),
        Rule::StringPush => StateModel { data: m.data.push(i as i32), ..m }.advanced(),
        Rule::StringPop => StateModel { data: m.data.drop_last(), ..m }.advanced(),
        Rule::Reverse => StateModel { reverse: !m.reverse, ..m }.advanced(),
    }
}

/// The rule the engine's cascade selects for effective glyph `i` in
/// state `m`, or none when no guard holds. The guards are pairwise
/// exclusive, so the order of the cascade is immaterial.
pub open spec fn fired(i: u8, m: StateModel) -> Option<Rule> {
    if rule_guard(Rule::Nop, i, m) {
        Some(Rule::Nop)
    } else if rule_guard(Rule::Digit, i, m) {
        Some(Rule::Digit)
    } else if rule_guard(Rule::DigitInv, i, m) {
        Some(Rule::DigitInv)
    } else if rule_guard(Rule::DigitEnd, i, m) {
        Some(Rule::DigitEnd)
    } else if rule_guard(Rule::Push, i, m) {
        Some(Rule::Push)
    } else if rule_guard(Rule::Pop, i, m) {
        Some(Rule::Pop)
    } else if rule_guard(Rule::TransferDataControl, i, m) {
        Some(Rule::TransferDataControl)
    } else if rule_guard(Rule::TransferControlData, i, m) {
        Some(Rule::TransferControlData)
    } else if rule_guard(Rule::Interchange, i, m) {
        Some(Rule::Interchange)
    } else if rule_guard(Rule::Write, i, m) {
        Some(Rule::Write)
    } else if rule_guard(Rule::Unwrite, i, m) {
        Some(Rule::Unwrite)
    } else if rule_guard(Rule::Read, i, m) {
        Some(Rule::Read)
    } else if rule_guard(Rule::Unread, i, m) {
        Some(Rule::Unread)
    } else if rule_guard(Rule::Increment, i, m) {
        Some(Rule::Increment)
    } else if rule_guard(Rule::Decrement, i, m) {
        Some(Rule::Decrement)
    } else if rule_guard(Rule::Add, i, m) {
        Some(Rule::Add)
    } else if rule_guard(Rule::Subtract, i, m) {
        Some(Rule::Subtract)
    } else if rule_guard(Rule::Divide, i, m) {
        Some(Rule::Divide)
    } else if rule_guard(Rule::Multiply, i, m) {
        Some(Rule::Multiply)
    } else if rule_guard(Rule::Not, i, m) {
        Some(Rule::Not)
    } else if rule_guard(Rule::And, i, m) {
        Some(Rule::And)
    } else if rule_guard(Rule::Or, i, m) {
        Some(Rule::Or)
    } else if rule_guard(Rule::Xor, i, m) {
        Some(Rule::Xor)
    } else if rule_guard(Rule::RotateLeft, i, m) {
        Some(Rule::RotateLeft)
    } else if rule_guard(Rule::RotateRight, i, m) {
        Some(Rule::RotateRight)
    } else if rule_guard(Rule::Toggle, i, m) {
        Some(Rule::Toggle)
    } else if rule_guard(Rule::Equal, i, m) {
        Some(Rule::Equal)
    } else if rule_guard(Rule::Less, i, m) {
        Some(Rule::Less)
    } else if rule_guard(Rule::Greater, i, m) {
        Some(Rule::Greater)
    } else if rule_guard(Rule::SwapTop, i, m) {
        Some(Rule::SwapTop)
    } else if rule_guard(Rule::Dig, i, m) {
        Some(Rule::Dig)
    } else if rule_guard(Rule::Bury, i, m) {
        Some(Rule::Bury)
    } else if rule_guard(Rule::Flip, i, m) {
        Some(Rule::Flip)
    } else if rule_guard(Rule::SwapSecondThird, i, m) {
        Some(Rule::SwapSecondThird)
    } else if rule_guard(Rule::Over, i, m) {
        Some(Rule::Over)
    } else if rule_guard(Rule::Under, i, m) {
        Some(Rule::Under)
    } else if rule_guard(Rule::Duplicate, i, m) {
        Some(Rule::Duplicate)
    } else if rule_guard(Rule::Unduplicate, i, m) {
        Some(Rule::Unduplicate)
    } else if rule_guard(Rule::StringToggle, i, m) {
        Some(Rule::StringToggle)
    } else if rule_guard(Rule::MirrorBack, i, m) {
        Some(Rule::MirrorBack)
    } else if rule_guard(Rule::MirrorForward, i, m) {
        Some(Rule::MirrorForward)
    } else if rule_guard(Rule::BranchSide, i, m) {
        Some(Rule::BranchSide)
    } else if rule_guard(Rule::BranchOpposite, i, m) {
        Some(Rule::BranchOpposite)
    } else if rule_guard(Rule::BranchSame, i, m) {
        Some(Rule::BranchSame)
    } else if rule_guard(Rule::StringPush, i, m) {
        Some(Rule::StringPush)
    } else if rule_guard(Rule::StringPop, i, m) {
        Some(Rule::StringPop)
    } else if rule_guard(Rule::Reverse, i, m) {
        Some(Rule::Reverse)
    } else {
        None
    }
}

/// What one dispatch of an effective glyph yields: a successor state
/// under the rule that fired, a clean halt, or a stuck step that leaves
/// the state as it was.
pub ghost enum StepOutcome {
    Proceed { rule: Rule, next: StateModel },
    Halted,
    Stuck,
}

/// One step of the engine on effective glyph `i` in state `m`.
pub open spec fn step_effective(i: u8, m: StateModel) -> StepOutcome {
    if halt_applies(i, m) {
        StepOutcome::Halted
    } else {
        match fired(i, m) {
            Some(r) => StepOutcome::Proceed { rule: r, next: rule_apply(r, i, m) },
            None => StepOutcome::Stuck,
        }
    }
}

/// The rules the straight-line reversibility law covers: those whose
/// effect a second dispatch of the same glyph, under reverse mode,
/// undoes on the spot. The digit rules reverse over a whole literal,
/// the branches reverse along the travelled path, the I/O rules move
/// work between buffers, and multiply is itself the inverse of divide:
/// those are not listed.
pub open spec fn reversible_rule(r: Rule) -> bool {
    match r {
        Rule::Nop => true,
        Rule::Push => true,
        Rule::Pop => true,
        Rule::TransferDataControl => true,
        Rule::TransferControlData => true,
        Rule::Interchange => true,
        Rule::Increment => true,
        Rule::Decrement => true,
        Rule::Add => true,
        Rule::Subtract => true,
        Rule::Divide => true,
        Rule::Not => true,
        Rule::And => true,
        Rule::Or => true,
        Rule::Xor => true,
        Rule::RotateLeft => true,
        Rule::RotateRight => true,
        Rule::Toggle => true,
        Rule::Equal => true,
        Rule::Less => true,
        Rule::Greater => true,
        Rule::SwapTop => true,
        Rule::Dig => true,
        Rule::Bury => true,
        Rule::Flip => true,
        Rule::SwapSecondThird => true,
        Rule::Over => true,
        Rule::Under => true,
        Rule::Duplicate => true,
        Rule::Unduplicate => true,
        Rule::StringToggle => true,
        Rule::MirrorBack => true,
        Rule::MirrorForward => true,
        _ => false,
    }
}

/// The conclusion of the straight-line reversibility law for one rule:
/// dispatching the glyph's inverse right after the rule fired, with
/// reverse mode on, fires a rule that restores the stacks, the
/// accumulator, the modes, the buffers and the direction to what they
/// were before the forward step. Only the pointer has travelled, and
/// reverse mode is on.
pub open spec fn step_undoes(i: u8, m: StateModel, r: Rule) -> bool {
    let m2 = rule_apply(r, i, m);
    let mr = StateModel { reverse: true, ..m2 };
    match step_effective(spec_inv(i), mr) {
        StepOutcome::Proceed { rule: r2, next: m3 } => {
            &&& m3.data == m.data
            &&& m3.control == m.control
            &&& m3.string == m.string
            &&& m3.acc == m.acc
            &&& m3.output == m.output
            &&& m3.input == m.input
            &&& m3.host_input == m.host_input
            &&& m3.emitted == m.emitted
            &&& m3.dir == m.dir
            &&& m3.reverse
        },
        _ => false,
    }
}

proof fn lemma_rev_nop(i: u8, m: StateModel)
    requires
    m.wf(),
    !m.reverse,
    rule_guard(Rule::Nop, i, m),
    ensures
    step_undoes(i, m, Rule::Nop),
{
    let m2 = rule_apply(Rule::Nop, i, m);
    let mr = StateModel { reverse: true, ..m2 };
    let j = spec_inv(i);
    let n = m.data.len() as int;
    lemma_fired_is_guard(j, mr, Rule::Nop);
}

proof fn lemma_rev_push(i: u8, m: StateModel)
    requires
    m.wf(),
    !m.reverse,
    rule_guard(Rule::Push, i, m),
    ensures
    step_undoes(i, m, Rule::Push),
{
    let m2 = rule_apply(Rule::Push, i, m);
    let mr = StateModel { reverse: true, ..m2 };
    let j = spec_inv(i);
    let n = m.data.len() as int;
    assert(mr.data.last() == 0);
    lemma_fired_is_guard(j, mr, Rule::Pop);
    assert(m.data.push(0i32).drop_last() =~= m.data);
}

proof fn lemma_rev_pop(i: u8, m: StateModel)
    requires
    m.wf(),
    !m.reverse,
    rule_guard(Rule::Pop, i, m),
    ensures
    step_undoes(i, m, Rule::Pop),
{
    let m2 = rule_apply(Rule::Pop, i, m);
    let mr = StateModel { reverse: true, ..m2 };
    let j = spec_inv(i);
    let n = m.data.len() as int;
    lemma_fired_is_guard(j, mr, Rule::Push);
    assert(m.data.drop_last().push(0i32) =~= m.data);
}

proof fn lemma_rev_transferdatacontrol(i: u8, m: StateModel)
    requires
    m.wf(),
    !m.reverse,
    rule_guard(Rule::TransferDataControl, i, m),
    ensures
    step_undoes(i, m, Rule::TransferDataControl),
{
    let m2 = rule_apply(Rule::TransferDataControl, i, m);
    let mr = StateModel { reverse: true, ..m2 };
    let j = spec_inv(i);
    let n = m.data.len() as int;
    lemma_fired_is_guard(j, mr, Rule::TransferControlData);
    assert(mr.control.last() == m.data.last());
    assert(m.data.drop_last().push(m.data.last()) =~= m.data);
    assert(m.control.push(m.data.last()).drop_last() =~= m.control);
}

proof fn lemma_rev_transfercontroldata(i: u8, m: StateModel)
    requires
    m.wf(),
    !m.reverse,
    rule_guard(Rule::TransferControlData, i, m),
    ensures
    step_undoes(i, m, Rule::TransferControlData),
{
    let m2 = rule_apply(Rule::TransferControlData, i, m);
    let mr = StateModel { reverse: true, ..m2 };
    let j = spec_inv(i);
    let n = m.data.len() as int;
    lemma_fired_is_guard(j, mr, Rule::TransferDataControl);
    assert(mr.data.last() == m.control.last());
    assert(m.data.push(m.control.last()).drop_last() =~= m.data);
    assert(m.control.drop_last().push(m.control.last()) =~= m.control);
}

proof fn lemma_rev_interchange(i: u8, m: StateModel)
    requires
    m.wf(),
    !m.reverse,
    rule_guard(Rule::Interchange, i, m),
    ensures
    step_undoes(i, m, Rule::Interchange),
{
    let m2 = rule_apply(Rule::Interchange, i, m);
    let mr = StateModel { reverse: true, ..m2 };
    let j = spec_inv(i);
    let n = m.data.len() as int;
    lemma_fired_is_guard(j, mr, Rule::Interchange);
    assert(mr.data.drop_last() =~= m.data.drop_last());
    assert(mr.control.drop_last() =~= m.control.drop_last());
    assert(m.data.drop_last().push(m.data.last()) =~= m.data);
    assert(m.control.drop_last().push(m.control.last()) =~= m.control);
}

proof fn lemma_rev_increment(i: u8, m: StateModel)
    requires
    m.wf(),
    !m.reverse,
    rule_guard(Rule::Increment, i, m),
    ensures
    step_undoes(i, m, Rule::Increment),
{
    let m2 = rule_apply(Rule::Increment, i, m);
    let mr = StateModel { reverse: true, ..m2 };
    let j = spec_inv(i);
    let n = m.data.len() as int;
    lemma_fired_is_guard(j, mr, Rule::Decrement);
    assert(m.data.last().wrapping_add(1).wrapping_sub(1) == m.data.last());
    assert(mr.data.drop_last() =~= m.data.drop_last());
    assert(m.data.drop_last().push(m.data.last()) =~= m.data);
}

proof fn lemma_rev_decrement(i: u8, m: StateModel)
    requires
    m.wf(),
    !m.reverse,
    rule_guard(Rule::Decrement, i, m),
    ensures
    step_undoes(i, m, Rule::Decrement),
{
    let m2 = rule_apply(Rule::Decrement, i, m);
    let mr = StateModel { reverse: true, ..m2 };
    let j = spec_inv(i);
    let n = m.data.len() as int;
    lemma_fired_is_guard(j, mr, Rule::Increment);
    assert(m.data.last().wrapping_sub(1).wrapping_add(1) == m.data.last());
    assert(mr.data.drop_last() =~= m.data.drop_last());
    assert(m.data.drop_last().push(m.data.last()) =~= m.data);
}

proof fn lemma_rev_add(i: u8, m: StateModel)
    requires
    m.wf(),
    !m.reverse,
    rule_guard(Rule::Add, i, m),
    ensures
    step_undoes(i, m, Rule::Add),
{
    let m2 = rule_apply(Rule::Add, i, m);
    let mr = StateModel { reverse: true, ..m2 };
    let j = spec_inv(i);
    let n = m.data.len() as int;
    lemma_fired_is_guard(j, mr, Rule::Subtract);
    assert(m.data[n - 2].wrapping_add(m.data.last()).wrapping_sub(m.data.last())
        == m.data[n - 2]);
    assert(mr.data.take(n - 2) =~= m.data.take(n - 2));
    assert(m.data.take(n - 2).push(m.data[n - 2]).push(m.data.last()) =~= m.data);
}

proof fn lemma_rev_subtract(i: u8, m: StateModel)
    requires
    m.wf(),
    !m.reverse,
    rule_guard(Rule::Subtract, i, m),
    ensures
    step_undoes(i, m, Rule::Subtract),
{
    let m2 = rule_apply(Rule::Subtract, i, m);
    let mr = StateModel { reverse: true, ..m2 };
    let j = spec_inv(i);
    let n = m.data.len() as int;
    lemma_fired_is_guard(j, mr, Rule::Add);
    assert(m.data[n - 2].wrapping_sub(m.data.last()).wrapping_add(m.data.last())
        == m.data[n - 2]);
    assert(mr.data.take(n - 2) =~= m.data.take(n - 2));
    assert(m.data.take(n - 2).push(m.data[n - 2]).push(m.data.last()) =~= m.data);
}

proof fn lemma_rev_divide(i: u8, m: StateModel)
    requires
    m.wf(),
    !m.reverse,
    rule_guard(Rule::Divide, i, m),
    ensures
    step_undoes(i, m, Rule::Divide),
{
    let m2 = rule_apply(Rule::Divide, i, m);
    let mr = StateModel { reverse: true, ..m2 };
    let j = spec_inv(i);
    let n = m.data.len() as int;
    lemma_fired_is_guard(j, mr, Rule::Multiply);
    lemma_div_mul_cancel(m.data[n - 2], m.data.last());
    assert(mr.data.take(n + 1 - 3) =~= m.data.take(n - 2));
    assert(mr.data[n + 1 - 3] == div_trunc(m.data[n - 2], m.data.last()));
    assert(mr.data[n + 1 - 2] == rem_trunc(m.data[n - 2], m.data.last()));
    assert(m.data.take(n - 2).push(m.data[n - 2]).push(m.data.last()) =~= m.data);
}

proof fn lemma_rev_not(i: u8, m: StateModel)
    requires
    m.wf(),
    !m.reverse,
    rule_guard(Rule::Not, i, m),
    ensures
    step_undoes(i, m, Rule::Not),
{
    let m2 = rule_apply(Rule::Not, i, m);
    let mr = StateModel { reverse: true, ..m2 };
    let j = spec_inv(i);
    let n = m.data.len() as int;
    let v = m.data.last();
    lemma_fired_is_guard(j, mr, Rule::Not);
    assert((v ^ (-1i32)) ^ (-1i32) == v) by (bit_vector);
    assert(mr.data.drop_last() =~= m.data.drop_last());
    assert(m.data.drop_last().push(m.data.last()) =~= m.data);
}

proof fn lemma_rev_and(i: u8, m: StateModel)
    requires
    m.wf(),
    !m.reverse,
    rule_guard(Rule::And, i, m),
    ensures
    step_undoes(i, m, Rule::And),
{
    let m2 = rule_apply(Rule::And, i, m);
    let mr = StateModel { reverse: true, ..m2 };
    let j = spec_inv(i);
    let n = m.data.len() as int;
    lemma_fired_is_guard(j, mr, Rule::And);
    let xv = m.data.last();
    let yv = m.data[n - 2];
    let zv = m.data[n - 3];
    assert((xv & yv) ^ ((xv & yv) ^ zv) == zv) by (bit_vector);
    assert(mr.data.take(n - 3) =~= m.data.take(n - 3));
    assert(m.data.take(n - 3).push(m.data[n - 3]).push(m.data[n - 2]).push(
        m.data.last(),
    ) =~= m.data);
}

proof fn lemma_rev_or(i: u8, m: StateModel)
    requires
    m.wf(),
    !m.reverse,
    rule_guard(Rule::Or, i, m),
    ensures
    step_undoes(i, m, Rule::Or),
{
    let m2 = rule_apply(Rule::Or, i, m);
    let mr = StateModel { reverse: true, ..m2 };
    let j = spec_inv(i);
    let n = m.data.len() as int;
    lemma_fired_is_guard(j, mr, Rule::Or);
    let xv = m.data.last();
    let yv = m.data[n - 2];
    let zv = m.data[n - 3];
    assert((xv | yv) ^ ((xv | yv) ^ zv) == zv) by (bit_vector);
    assert(mr.data.take(n - 3) =~= m.data.take(n - 3));
    assert(m.data.take(n - 3).push(m.data[n - 3]).push(m.data[n - 2]).push(
        m.data.last(),
    ) =~= m.data);
}

proof fn lemma_rev_xor(i: u8, m: StateModel)
    requires
    m.wf(),
    !m.reverse,
    rule_guard(Rule::Xor, i, m),
    ensures
    step_undoes(i, m, Rule::Xor),
{
    let m2 = rule_apply(Rule::Xor, i, m);
    let mr = StateModel { reverse: true, ..m2 };
    let j = spec_inv(i);
    let n = m.data.len() as int;
    lemma_fired_is_guard(j, mr, Rule::Xor);
    let xv = m.data.last();
    let yv = m.data[n - 2];
    assert(xv ^ (xv ^ yv) == yv) by (bit_vector);
    assert(mr.data.take(n - 2) =~= m.data.take(n - 2));
    assert(m.data.take(n - 2).push(m.data[n - 2]).push(m.data.last()) =~= m.data);
}

proof fn lemma_rev_rotateleft(i: u8, m: StateModel)
    requires
    m.wf(),
    !m.reverse,
    rule_guard(Rule::RotateLeft, i, m),
    ensures
    step_undoes(i, m, Rule::RotateLeft),
{
    let m2 = rule_apply(Rule::RotateLeft, i, m);
    let mr = StateModel { reverse: true, ..m2 };
    let j = spec_inv(i);
    let n = m.data.len() as int;
    lemma_fired_is_guard(j, mr, Rule::RotateRight);
    let xv = m.data.last();
    let yv = m.data[n - 2];
    assert(rotr32(rotl32(yv, xv), xv) == yv) by (bit_vector);
    assert(mr.data.take(n - 2) =~= m.data.take(n - 2));
    assert(m.data.take(n - 2).push(m.data[n - 2]).push(m.data.last()) =~= m.data);
}

proof fn lemma_rev_rotateright(i: u8, m: StateModel)
    requires
    m.wf(),
    !m.reverse,
    rule_guard(Rule::RotateRight, i, m),
    ensures
    step_undoes(i, m, Rule::RotateRight),
{
    let m2 = rule_apply(Rule::RotateRight, i, m);
    let mr = StateModel { reverse: true, ..m2 };
    let j = spec_inv(i);
    let n = m.data.len() as int;
    lemma_fired_is_guard(j, mr, Rule::RotateLeft);
    let xv = m.data.last();
    let yv = m.data[n - 2];
    assert(rotl32(rotr32(yv, xv), xv) == yv) by (bit_vector);
    assert(mr.data.take(n - 2) =~= m.data.take(n - 2));
    assert(m.data.take(n - 2).push(m.data[n - 2]).push(m.data.last()) =~= m.data);
}

proof fn lemma_rev_toggle(i: u8, m: StateModel)
    requires
    m.wf(),
    !m.reverse,
    rule_guard(Rule::Toggle, i, m),
    ensures
    step_undoes(i, m, Rule::Toggle),
{
    let m2 = rule_apply(Rule::Toggle, i, m);
    let mr = StateModel { reverse: true, ..m2 };
    let j = spec_inv(i);
    let n = m.data.len() as int;
    lemma_fired_is_guard(j, mr, Rule::Toggle);
    let cv = m.control.last();
    assert((cv ^ 1) ^ 1 == cv) by (bit_vector);
    assert(mr.control.drop_last() =~= m.control.drop_last());
    assert(m.control.drop_last().push(m.control.last()) =~= m.control);
}

proof fn lemma_rev_equal(i: u8, m: StateModel)
    requires
    m.wf(),
    !m.reverse,
    rule_guard(Rule::Equal, i, m),
    ensures
    step_undoes(i, m, Rule::Equal),
{
    let m2 = rule_apply(Rule::Equal, i, m);
    let mr = StateModel { reverse: true, ..m2 };
    let j = spec_inv(i);
    let n = m.data.len() as int;
    lemma_fired_is_guard(j, mr, Rule::Equal);
    if m.data[n - 2] == m.data.last() {
        let cv = m.control.last();
        assert((cv ^ 1) ^ 1 == cv) by (bit_vector);
        assert(mr.control.drop_last() =~= m.control.drop_last());
        assert(m.control.drop_last().push(m.control.last()) =~= m.control);
    }
}

proof fn lemma_rev_less(i: u8, m: StateModel)
    requires
    m.wf(),
    !m.reverse,
    rule_guard(Rule::Less, i, m),
    ensures
    step_undoes(i, m, Rule::Less),
{
    let m2 = rule_apply(Rule::Less, i, m);
    let mr = StateModel { reverse: true, ..m2 };
    let j = spec_inv(i);
    let n = m.data.len() as int;
    lemma_fired_is_guard(j, mr, Rule::Less);
    if m.data[n - 2] < m.data.last() {
        let cv = m.control.last();
        assert((cv ^ 1) ^ 1 == cv) by (bit_vector);
        assert(mr.control.drop_last() =~= m.control.drop_last());
        assert(m.control.drop_last().push(m.control.last()) =~= m.control);
    }
}

proof fn lemma_rev_greater(i: u8, m: StateModel)
    requires
    m.wf(),
    !m.reverse,
    rule_guard(Rule::Greater, i, m),
    ensures
    step_undoes(i, m, Rule::Greater),
{
    let m2 = rule_apply(Rule::Greater, i, m);
    let mr = StateModel { reverse: true, ..m2 };
    let j = spec_inv(i);
    let n = m.data.len() as int;
    lemma_fired_is_guard(j, mr, Rule::Greater);
    if m.data[n - 2] > m.data.last() {
        let cv = m.control.last();
        assert((cv ^ 1) ^ 1 == cv) by (bit_vector);
        assert(mr.control.drop_last() =~= m.control.drop_last());
        assert(m.control.drop_last().push(m.control.last()) =~= m.control);
    }
}

proof fn lemma_rev_swaptop(i: u8, m: StateModel)
    requires
    m.wf(),
    !m.reverse,
    rule_guard(Rule::SwapTop, i, m),
    ensures
    step_undoes(i, m, Rule::SwapTop),
{
    let m2 = rule_apply(Rule::SwapTop, i, m);
    let mr = StateModel { reverse: true, ..m2 };
    let j = spec_inv(i);
    let n = m.data.len() as int;
    lemma_fired_is_guard(j, mr, Rule::SwapTop);
    assert(mr.data.take(n - 2) =~= m.data.take(n - 2));
    assert(m.data.take(n - 2).push(m.data[n - 2]).push(m.data.last()) =~= m.data);
}

proof fn lemma_rev_dig(i: u8, m: StateModel)
    requires
    m.wf(),
    !m.reverse,
    rule_guard(Rule::Dig, i, m),
    ensures
    step_undoes(i, m, Rule::Dig),
{
    let m2 = rule_apply(Rule::Dig, i, m);
    let mr = StateModel { reverse: true, ..m2 };
    let j = spec_inv(i);
    let n = m.data.len() as int;
    lemma_fired_is_guard(j, mr, Rule::Bury);
    assert(mr.data.take(n - 3) =~= m.data.take(n - 3));
    assert(m.data.take(n - 3).push(m.data[n - 3]).push(m.data[n - 2]).push(
        m.data.last(),
    ) =~= m.data);
}

proof fn lemma_rev_bury(i: u8, m: StateModel)
    requires
    m.wf(),
    !m.reverse,
    rule_guard(Rule::Bury, i, m),
    ensures
    step_undoes(i, m, Rule::Bury),
{
    let m2 = rule_apply(Rule::Bury, i, m);
    let mr = StateModel { reverse: true, ..m2 };
    let j = spec_inv(i);
    let n = m.data.len() as int;
    lemma_fired_is_guard(j, mr, Rule::Dig);
    assert(mr.data.take(n - 3) =~= m.data.take(n - 3));
    assert(m.data.take(n - 3).push(m.data[n - 3]).push(m.data[n - 2]).push(
        m.data.last(),
    ) =~= m.data);
}

proof fn lemma_rev_flip(i: u8, m: StateModel)
    requires
    m.wf(),
    !m.reverse,
    rule_guard(Rule::Flip, i, m),
    ensures
    step_undoes(i, m, Rule::Flip),
{
    let m2 = rule_apply(Rule::Flip, i, m);
    let mr = StateModel { reverse: true, ..m2 };
    let j = spec_inv(i);
    let n = m.data.len() as int;
    lemma_fired_is_guard(j, mr, Rule::Flip);
    assert(mr.data.take(n - 3) =~= m.data.take(n - 3));
    assert(m.data.take(n - 3).push(m.data[n - 3]).push(m.data[n - 2]).push(
        m.data.last(),
    ) =~= m.data);
}

proof fn lemma_rev_swapsecondthird(i: u8, m: StateModel)
    requires
    m.wf(),
    !m.reverse,
    rule_guard(Rule::SwapSecondThird, i, m),
    ensures
    step_undoes(i, m, Rule::SwapSecondThird),
{
    let m2 = rule_apply(Rule::SwapSecondThird, i, m);
    let mr = StateModel { reverse: true, ..m2 };
    let j = spec_inv(i);
    let n = m.data.len() as int;
    lemma_fired_is_guard(j, mr, Rule::SwapSecondThird);
    assert(mr.data.take(n - 3) =~= m.data.take(n - 3));
    assert(m.data.take(n - 3).push(m.data[n - 3]).push(m.data[n - 2]).push(
        m.data.last(),
    ) =~= m.data);
}

proof fn lemma_rev_over(i: u8, m: StateModel)
    requires
    m.wf(),
    !m.reverse,
    rule_guard(Rule::Over, i, m),
    ensures
    step_undoes(i, m, Rule::Over),
{
    let m2 = rule_apply(Rule::Over, i, m);
    let mr = StateModel { reverse: true, ..m2 };
    let j = spec_inv(i);
    let n = m.data.len() as int;
    assert(mr.data.last() == mr.data[mr.data.len() - 3]);
    lemma_fired_is_guard(j, mr, Rule::Under);
    assert(mr.data.drop_last() =~= m.data);
}

proof fn lemma_rev_under(i: u8, m: StateModel)
    requires
    m.wf(),
    !m.reverse,
    rule_guard(Rule::Under, i, m),
    ensures
    step_undoes(i, m, Rule::Under),
{
    let m2 = rule_apply(Rule::Under, i, m);
    let mr = StateModel { reverse: true, ..m2 };
    let j = spec_inv(i);
    let n = m.data.len() as int;
    lemma_fired_is_guard(j, mr, Rule::Over);
    assert(mr.data.take(mr.data.len() - 2) =~= m.data.take(n - 3));
    assert(m.data.take(n - 3).push(m.data[n - 3]).push(m.data[n - 2]).push(
        m.data.last(),
    ) =~= m.data);
}

proof fn lemma_rev_duplicate(i: u8, m: StateModel)
    requires
    m.wf(),
    !m.reverse,
    rule_guard(Rule::Duplicate, i, m),
    ensures
    step_undoes(i, m, Rule::Duplicate),
{
    let m2 = rule_apply(Rule::Duplicate, i, m);
    let mr = StateModel { reverse: true, ..m2 };
    let j = spec_inv(i);
    let n = m.data.len() as int;
    assert(mr.data.last() == mr.data[mr.data.len() - 2]);
    lemma_fired_is_guard(j, mr, Rule::Unduplicate);
    assert(mr.data.drop_last() =~= m.data);
}

proof fn lemma_rev_unduplicate(i: u8, m: StateModel)
    requires
    m.wf(),
    !m.reverse,
    rule_guard(Rule::Unduplicate, i, m),
    ensures
    step_undoes(i, m, Rule::Unduplicate),
{
    let m2 = rule_apply(Rule::Unduplicate, i, m);
    let mr = StateModel { reverse: true, ..m2 };
    let j = spec_inv(i);
    let n = m.data.len() as int;
    lemma_fired_is_guard(j, mr, Rule::Duplicate);
    assert(mr.data.last() == m.data.last());
    assert(m.data.drop_last().push(m.data.last()) =~= m.data);
}

proof fn lemma_rev_stringtoggle(i: u8, m: StateModel)
    requires
    m.wf(),
    !m.reverse,
    rule_guard(Rule::StringToggle, i, m),
    ensures
    step_undoes(i, m, Rule::StringToggle),
{
    let m2 = rule_apply(Rule::StringToggle, i, m);
    let mr = StateModel { reverse: true, ..m2 };
    let j = spec_inv(i);
    let n = m.data.len() as int;
    lemma_fired_is_guard(j, mr, Rule::StringToggle);
}

proof fn lemma_rev_mirrorback(i: u8, m: StateModel)
    requires
    m.wf(),
    !m.reverse,
    rule_guard(Rule::MirrorBack, i, m),
    ensures
    step_undoes(i, m, Rule::MirrorBack),
{
    let m2 = rule_apply(Rule::MirrorBack, i, m);
    let mr = StateModel { reverse: true, ..m2 };
    let j = spec_inv(i);
    let n = m.data.len() as int;
    lemma_fired_is_guard(j, mr, Rule::MirrorBack);
}

proof fn lemma_rev_mirrorforward(i: u8, m: StateModel)
    requires
    m.wf(),
    !m.reverse,
    rule_guard(Rule::MirrorForward, i, m),
    ensures
    step_undoes(i, m, Rule::MirrorForward),
{
    let m2 = rule_apply(Rule::MirrorForward, i, m);
    let mr = StateModel { reverse: true, ..m2 };
    let j = spec_inv(i);
    let n = m.data.len() as int;
    lemma_fired_is_guard(j, mr, Rule::MirrorForward);
}

/// The reversibility law for straight-line code: after one of the
/// covered rules fires forward, dispatching the same glyph once more
/// with reverse mode on fires the inverse rule and undoes its effect.
pub proof fn lemma_step_reversible(i: u8, m: StateModel, r: Rule)
    requires
        m.wf(),
        !m.reverse,
        fired(i, m) == Some(r),
        reversible_rule(r),
    ensures
        step_undoes(i, m, r),
{
    assert(rule_guard(r, i, m));
    match r {
        Rule::Nop => lemma_rev_nop(i, m),
        Rule::Push => lemma_rev_push(i, m),
        Rule::Pop => lemma_rev_pop(i, m),
        Rule::TransferDataControl => lemma_rev_transferdatacontrol(i, m),
        Rule::TransferControlData => lemma_rev_transfercontroldata(i, m),
        Rule::Interchange => lemma_rev_interchange(i, m),
        Rule::Increment => lemma_rev_increment(i, m),
        Rule::Decrement => lemma_rev_decrement(i, m),
        Rule::Add => lemma_rev_add(i, m),
        Rule::Subtract => lemma_rev_subtract(i, m),
        Rule::Divide => lemma_rev_divide(i, m),
        Rule::Not => lemma_rev_not(i, m),
        Rule::And => lemma_rev_and(i, m),
        Rule::Or => lemma_rev_or(i, m),
        Rule::Xor => lemma_rev_xor(i, m),
        Rule::RotateLeft => lemma_rev_rotateleft(i, m),
        Rule::RotateRight => lemma_rev_rotateright(i, m),
        Rule::Toggle => lemma_rev_toggle(i, m),
        Rule::Equal => lemma_rev_equal(i, m),
        Rule::Less => lemma_rev_less(i, m),
        Rule::Greater => lemma_rev_greater(i, m),
        Rule::SwapTop => lemma_rev_swaptop(i, m),
        Rule::Dig => lemma_rev_dig(i, m),
        Rule::Bury => lemma_rev_bury(i, m),
        Rule::Flip => lemma_rev_flip(i, m),
        Rule::SwapSecondThird => lemma_rev_swapsecondthird(i, m),
        Rule::Over => lemma_rev_over(i, m),
        Rule::Under => lemma_rev_under(i, m),
        Rule::Duplicate => lemma_rev_duplicate(i, m),
        Rule::Unduplicate => lemma_rev_unduplicate(i, m),
        Rule::StringToggle => lemma_rev_stringtoggle(i, m),
        Rule::MirrorBack => lemma_rev_mirrorback(i, m),
        Rule::MirrorForward => lemma_rev_mirrorforward(i, m),
        _ => {
        },
    }
}

/// At most one rule's guard holds for any glyph and state: the guards
/// are pairwise exclusive, so rule selection is deterministic whatever
/// the order of the cascade.
pub proof fn lemma_rule_guards_exclusive(i: u8, m: StateModel, r1: Rule, r2: Rule)
    requires
        rule_guard(r1, i, m),
        rule_guard(r2, i, m),
    ensures
        r1 == r2,
{
}

/// Halting excludes every rule: no rule's guard holds where the halt
/// dispatch applies.
pub proof fn lemma_halt_excludes_rules(i: u8, m: StateModel, r: Rule)
    requires
        halt_applies(i, m),
    ensures
        !rule_guard(r, i, m),
{
}

/// The cascade selects exactly the rule whose guard holds.
pub proof fn lemma_fired_is_guard(i: u8, m: StateModel, r: Rule)
    requires
        rule_guard(r, i, m),
    ensures
        fired(i, m) == Some(r),
{
    match fired(i, m) {
        Some(r2) => {
            assert(rule_guard(r2, i, m));
            lemma_rule_guards_exclusive(i, m, r, r2);
        },
        None => {
            assert(!rule_guard(r, i, m));
        },
    }
}

} // verus!
