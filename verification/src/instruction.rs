//! A single Befreak instruction: one printable ASCII glyph, together with
//! the inverse map that reverse mode dispatches through and the intrinsic
//! direction of the four branch glyphs.

use vstd::prelude::*;

use crate::direction::Direction;
use crate::semantics::Rule;

verus! {

/// What one dispatch of an instruction did: a rule fired, no rule's
/// guard held and the step is stuck, or the run halted cleanly.
#[derive(Clone, Copy, PartialEq, Eq, Structural, Debug)]
pub enum InstructionExecutionStatus {
    Successful(Rule),
    Unsuccessful,
    Halt,
}

pub const NOP: u8 = 0x20;
pub const PUSH: u8 = 0x28;
pub const POP: u8 = 0x29;
pub const TRANSFER_TOP_DATA_CONTROL: u8 = 0x5b;
pub const TRANSFER_TOP_CONTROL_DATA: u8 = 0x5d;
pub const INTERCHANGE_TOPS: u8 = 0x24;
pub const WRITE: u8 = 0x77;
pub const READ: u8 = 0x72;
pub const INCREMENT: u8 = 0x27;
pub const DECREMENT: u8 = 0x60;
pub const ADD: u8 = 0x2b;
pub const SUBTRACT: u8 = 0x2d;
pub const DIVIDE: u8 = 0x25;
pub const MULTIPLY: u8 = 0x2a;
pub const NOT: u8 = 0x7e;
pub const AND: u8 = 0x26;
pub const OR: u8 = 0x7c;
pub const XOR: u8 = 0x23;
pub const ROTATE_LEFT: u8 = 0x7b;
pub const ROTATE_RIGHT: u8 = 0x7d;
pub const CONTROL_TOGGLE: u8 = 0x21;
pub const EQUAL: u8 = 0x3d;
pub const LESS: u8 = 0x6c;
pub const GREATER: u8 = 0x67;
pub const SWAP_TWO_TOP: u8 = 0x73;
pub const DIG: u8 = 0x64;
pub const BURY: u8 = 0x62;
pub const SWAP_FIRST_THIRD: u8 = 0x66;
pub const SWAP_SECOND_THIRD: u8 = 0x63;
pub const OVER: u8 = 0x6f;
pub const UNDER: u8 = 0x75;
pub const DUPLICATE: u8 = 0x3a;
pub const UNDUPLICATE: u8 = 0x3b;
pub const STRING_MODE: u8 = 0x22;
pub const REVERSE_MODE: u8 = 0x3f;
pub const HALT: u8 = 0x40;
pub const MIRROR_BACK: u8 = 0x5c;
pub const MIRROR_FORWARD: u8 = 0x2f;
pub const BRANCH_EAST: u8 = 0x3e;
pub const BRANCH_WEST: u8 = 0x3c;
pub const BRANCH_SOUTH: u8 = 0x76;
pub const BRANCH_NORTH: u8 = 0x5e;

/// Printable ASCII: the only code points a glyph may hold.
pub open spec fn glyph_printable(c: u8) -> bool {
    0x20 <= c <= 0x7e
}

/// Decimal digit glyphs, the triggers of the digit accumulator.
pub open spec fn glyph_is_digit(c: u8) -> bool {
    0x30 <= c <= 0x39
}

/// The inverse map over glyphs. Nine instruction pairs swap; every other
/// glyph is its own inverse. The halt glyph has no inverse and is excluded
/// by the callers.
pub open spec fn spec_inv(c: u8) -> u8 {
    if c == PUSH {
        POP
    } else if c == POP {
        PUSH
    } else if c == TRANSFER_TOP_DATA_CONTROL {
        TRANSFER_TOP_CONTROL_DATA
    } else if c == TRANSFER_TOP_CONTROL_DATA {
        TRANSFER_TOP_DATA_CONTROL
    } else if c == INCREMENT {
        DECREMENT
    } else if c == DECREMENT {
        INCREMENT
    } else if c == ADD {
        SUBTRACT
    } else if c == SUBTRACT {
        ADD
    } else if c == DIVIDE {
        MULTIPLY
    } else if c == MULTIPLY {
        DIVIDE
    } else if c == ROTATE_LEFT {
        ROTATE_RIGHT
    } else if c == ROTATE_RIGHT {
        ROTATE_LEFT
    } else if c == DIG {
        BURY
    } else if c == BURY {
        DIG
    } else if c == OVER {
        UNDER
    } else if c == UNDER {
        OVER
    } else if c == DUPLICATE {
        UNDUPLICATE
    } else if c == UNDUPLICATE {
        DUPLICATE
    } else {
        c
    }
}

/// The intrinsic direction of a branch glyph, absent on every other glyph.
pub open spec fn spec_glyph_direction(c: u8) -> Option<Direction> {
    if c == BRANCH_EAST {
        Some(Direction::East)
    } else if c == BRANCH_WEST {
        Some(Direction::West)
    } else if c == BRANCH_SOUTH {
        Some(Direction::South)
    } else if c == BRANCH_NORTH {
        Some(Direction::North)
    } else {
        None
    }
}

#[derive(Clone, Copy, PartialEq, Eq, Structural, Debug)]
pub struct Instruction {
    pub c: u8,
}

impl View for Instruction {
    type V = u8;

    open spec fn view(&self) -> u8 {
        self.c
    }
}

impl Instruction {
    /// A glyph is well formed when its code point is printable ASCII.
    pub open spec fn wf(self) -> bool {
        glyph_printable(self.c)
    }

    /// Accepts exactly the printable ASCII characters as glyphs.
    pub fn from_char(c: char) -> (r: Option<Self>)
        ensures
            match r {
                Some(i) => 0x20 <= c as u32 <= 0x7e && i@ == c as u32 && i.wf(),
                None => !(0x20 <= c as u32 <= 0x7e),
            },
    {
        let u = c as u32;
        if 0x20 <= u && u <= 0x7e {
            Some(Instruction { c: u as u8 })
        } else {
            None
        }
    }

    /// The no-operation glyph, used to pad short grid rows.
    pub fn nop() -> (r: Self)
        ensures
            r@ == NOP,
            r.wf(),
    {
        Instruction { c: NOP }
    }

    pub fn is_halt(self) -> (r: bool)
        ensures
            r == (self@ == HALT),
    {
        self.c == HALT
    }

    /// The inverse instruction, executed in place of this one under reverse
    /// mode. The halt glyph has no inverse: encountering it in reverse mode
    /// is a program error, which the engine reports before dispatch.
    pub fn inv(self) -> (r: Self)
        requires
            self@ != HALT,
        ensures
            r@ == spec_inv(self@),
            self.wf() ==> r.wf(),
    {
        let c = self.c;
        let i = if c == PUSH {
            POP
        } else if c == POP {
            PUSH
        } else if c == TRANSFER_TOP_DATA_CONTROL {
            TRANSFER_TOP_CONTROL_DATA
        } else if c == TRANSFER_TOP_CONTROL_DATA {
            TRANSFER_TOP_DATA_CONTROL
        } else if c == INCREMENT {
            DECREMENT
        } else if c == DECREMENT {
            INCREMENT
        } else if c == ADD {
            SUBTRACT
        } else if c == SUBTRACT {
            ADD
        } else if c == DIVIDE {
            MULTIPLY
        } else if c == MULTIPLY {
            DIVIDE
        } else if c == ROTATE_LEFT {
            ROTATE_RIGHT
        } else if c == ROTATE_RIGHT {
            ROTATE_LEFT
        } else if c == DIG {
            BURY
        } else if c == BURY {
            DIG
        } else if c == OVER {
            UNDER
        } else if c == UNDER {
            OVER
        } else if c == DUPLICATE {
            UNDUPLICATE
        } else if c == UNDUPLICATE {
            DUPLICATE
        } else {
            c
        };
        Instruction { c: i }
    }

    /// The intrinsic direction of the four branch glyphs.
    pub fn direction(self) -> (r: Option<Direction>)
        ensures
            r == spec_glyph_direction(self@),
    {
        if self.c == BRANCH_EAST {
            Some(Direction::East)
        } else if self.c == BRANCH_WEST {
            Some(Direction::West)
        } else if self.c == BRANCH_SOUTH {
            Some(Direction::South)
        } else if self.c == BRANCH_NORTH {
            Some(Direction::North)
        } else {
            None
        }
    }
}

/// Taking the inverse twice leads back to the original glyph, for every
/// glyph but halt, which has no inverse.
pub proof fn lemma_inv_involution(c: u8)
    requires
        c != HALT,
    ensures
        spec_inv(spec_inv(c)) == c,
{
}

} // verus!
