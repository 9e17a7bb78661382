//! The playfield: a rectangular, immutable grid of glyphs, loaded from
//! source text. Rows shorter than the widest row are padded on the right
//! with the no-operation glyph. The grid also locates the natural start
//! cell: one step east of the last halt glyph in row-major order.

use vstd::prelude::*;

use crate::instruction::{glyph_printable, Instruction, HALT, NOP};
use vstd::string::StringSliceAdditionalSpecFns;

verus! {

pub const NEWLINE: u8 = 0x0a;
pub const CARRIAGE_RETURN: u8 = 0x0d;

/// A source line with one trailing carriage return removed, as happens to
/// lines that were terminated by a carriage return and line feed pair.
pub open spec fn strip_cr(line: Seq<u8>) -> Seq<u8> {
    if line.len() > 0 && line.last() == CARRIAGE_RETURN {
        line.drop_last()
    } else {
        line
    }
}

/// The index of the first line feed in `b`, or `b.len()` if there is none.
pub open spec fn find_nl(b: Seq<u8>) -> nat
    decreases b.len(),
{
    if b.len() == 0 {
        0
    } else if b[0] == NEWLINE {
        0
    } else {
        (1 + find_nl(b.drop_first())) as nat
    }
}

/// The source text split at line feeds. A line terminated by a carriage
/// return and line feed pair loses the carriage return; a final line
/// without a terminator is kept as it stands.
pub open spec fn split_lines(b: Seq<u8>) -> Seq<Seq<u8>>
    decreases b.len(),
{
    if b.len() == 0 {
        Seq::empty()
    } else {
        let i = find_nl(b);
        if i >= b.len() {
            seq![b]
        } else {
            seq![strip_cr(b.subrange(0, i as int))] + split_lines(
                b.subrange(i as int + 1, b.len() as int),
            )
        }
    }
}

/// Every byte of the line is a printable ASCII glyph.
pub open spec fn line_ok(l: Seq<u8>) -> bool {
    forall|i: int| 0 <= i < l.len() ==> glyph_printable(#[trigger] l[i])
}

/// Every line consists of printable ASCII glyphs only.
pub open spec fn lines_ok(ls: Seq<Seq<u8>>) -> bool {
    forall|r: int| 0 <= r < ls.len() ==> line_ok(#[trigger] ls[r])
}

/// The byte at `(row, col)` is the first one, in row-major order, that is
/// not a printable ASCII glyph.
pub open spec fn first_bad_at(ls: Seq<Seq<u8>>, row: int, col: int) -> bool {
    &&& 0 <= row < ls.len()
    &&& 0 <= col < ls[row].len()
    &&& !glyph_printable(ls[row][col])
    &&& forall|r: int| 0 <= r < row ==> line_ok(#[trigger] ls[r])
    &&& forall|c: int| 0 <= c < col ==> glyph_printable(#[trigger] ls[row][c])
}

/// The length of the longest line.
pub open spec fn max_width(ls: Seq<Seq<u8>>) -> int
    decreases ls.len(),
{
    if ls.len() == 0 {
        0
    } else if ls.last().len() > max_width(ls.drop_last()) {
        ls.last().len() as int
    } else {
        max_width(ls.drop_last())
    }
}

/// A line padded on the right with the no-operation glyph to width `w`.
pub open spec fn pad_line(l: Seq<u8>, w: int) -> Seq<u8> {
    l + Seq::new((w - l.len()) as nat, |j: int| NOP)
}

/// All lines padded to width `w`.
pub open spec fn padded(ls: Seq<Seq<u8>>, w: int) -> Seq<Seq<u8>> {
    ls.map_values(|l: Seq<u8>| pad_line(l, w))
}

/// The sequence of byte rows a vector of byte vectors stands for.
pub open spec fn byte_rows_view(s: Seq<Vec<u8>>) -> Seq<Seq<u8>> {
    s.map_values(|v: Vec<u8>| v@)
}

/// `find_nl` returns the position of the first line feed: no byte before
/// `k` is one, and `k` either is one or lies at the end.
proof fn lemma_find_nl_at(b: Seq<u8>, k: int)
    requires
        0 <= k <= b.len(),
        forall|t: int| 0 <= t < k ==> b[t] != NEWLINE,
        k < b.len() ==> b[k] == NEWLINE,
    ensures
        find_nl(b) == k,
    decreases b.len(),
{
    if b.len() == 0 {
    } else if b[0] == NEWLINE {
        assert(k == 0);
    } else {
        assert(k > 0);
        lemma_find_nl_at(b.drop_first(), k - 1);
    }
}

/// One unfolding of `split_lines` at a line start `i`, where `j` is the
/// position of the next line feed, or the end of the text.
proof fn lemma_split_lines_step(b: Seq<u8>, i: int, j: int)
    requires
        0 <= i <= j <= b.len(),
        forall|t: int| i <= t < j ==> b[t] != NEWLINE,
        j < b.len() ==> b[j] == NEWLINE,
    ensures
        j < b.len() ==> split_lines(b.subrange(i, b.len() as int)) == seq![
            strip_cr(b.subrange(i, j)),
        ] + split_lines(b.subrange(j + 1, b.len() as int)),
        j == b.len() && i < j ==> split_lines(b.subrange(i, b.len() as int)) == seq![
            b.subrange(i, b.len() as int),
        ],
{
    let rest = b.subrange(i, b.len() as int);
    assert forall|t: int| 0 <= t < j - i implies rest[t] != NEWLINE by {
        assert(rest[t] == b[i + t]);
    }
    lemma_find_nl_at(rest, j - i);
    if j < b.len() {
        assert(rest.subrange(0, j - i) =~= b.subrange(i, j));
        assert(rest.subrange(j - i + 1, rest.len() as int) =~= b.subrange(
            j + 1,
            b.len() as int,
        ));
    }
}

/// A rectangular grid with at least one cell, made of printable glyphs.
pub open spec fn grid_wf(g: Seq<Seq<u8>>) -> bool {
    &&& g.len() >= 1
    &&& g[0].len() >= 1
    &&& forall|r: int| 0 <= r < g.len() ==> (#[trigger] g[r]).len() == g[0].len()
    &&& forall|r: int, c: int|
        0 <= r < g.len() && 0 <= c < g[0].len() ==> glyph_printable(#[trigger] g[r][c])
}

/// There is a halt glyph at row `r`, column `c`.
pub open spec fn is_halt_at(g: Seq<Seq<u8>>, r: int, c: int) -> bool {
    &&& 0 <= r < g.len()
    &&& 0 <= c < g[r].len()
    &&& g[r][c] == HALT
}

/// The halt glyph at row `r`, column `c` is the last one in row-major
/// order.
pub open spec fn is_last_halt(g: Seq<Seq<u8>>, r: int, c: int) -> bool {
    &&& is_halt_at(g, r, c)
    &&& forall|r2: int, c2: int|
        #[trigger] is_halt_at(g, r2, c2) ==> r2 < r || (r2 == r && c2 <= c)
}

/// The natural start cell of a grid: one cell east of the last halt
/// glyph in row-major order, wrapping on that row, or the top-left
/// corner when no halt glyph exists.
pub open spec fn is_start_location(g: Seq<Seq<u8>>, x: int, y: int) -> bool {
    if exists|r: int, c: int| is_halt_at(g, r, c) {
        exists|r: int, c: int|
            is_last_halt(g, r, c) && x == (c + 1) % (g[0].len() as int) && y == r
    } else {
        x == 0 && y == 0
    }
}

/// The start location is unique: the last halt glyph in row-major order
/// is one of a kind, so only one cell satisfies the start description.
pub proof fn lemma_start_location_unique(g: Seq<Seq<u8>>, x1: int, y1: int, x2: int, y2: int)
    requires
        is_start_location(g, x1, y1),
        is_start_location(g, x2, y2),
    ensures
        x1 == x2 && y1 == y2,
{
}

/// Why a source text was rejected at load time: it contained a byte that
/// is not a printable ASCII glyph, reported with its zero-based row and
/// column, or it had no cell at all.
#[derive(Clone, Copy, PartialEq, Eq, Structural, Debug)]
pub enum LoadError {
    EmptyProgram,
    InvalidChar { row: usize, col: usize },
}

#[derive(Debug)]
pub struct Program {
    pub instructions: Vec<Vec<Instruction>>,
}

impl View for Program {
    type V = Seq<Seq<u8>>;

    open spec fn view(&self) -> Seq<Seq<u8>> {
        self.instructions@.map_values(|row: Vec<Instruction>| row@.map_values(|i: Instruction| i@))
    }
}

impl Program {
    pub open spec fn wf(&self) -> bool {
        grid_wf(self@)
    }

    pub open spec fn spec_rows(&self) -> int {
        self@.len() as int
    }

    pub open spec fn spec_cols(&self) -> int {
        if self@.len() == 0 {
            0
        } else {
            self@[0].len() as int
        }
    }

    /// An empty playfield, with no rows at all. It satisfies no
    /// well-formedness demand and cannot be run; loading source text is
    /// the way to a usable grid.
    pub fn new() -> (r: Self)
        ensures
            r@ == Seq::<Seq<u8>>::empty(),
    {
        let r = Program { instructions: Vec::new() };
        proof {
            assert(r@ =~= Seq::<Seq<u8>>::empty());
        }
        r
    }

    pub fn rows(&self) -> (r: usize)
        ensures
            r == self.spec_rows(),
    {
        self.instructions.len()
    }

    pub fn cols(&self) -> (r: usize)
        ensures
            r == self.spec_cols(),
    {
        if self.instructions.len() == 0 {
            0
        } else {
            self.instructions[0].len()
        }
    }

    /// The glyph at column `x`, row `y`, or nothing when the location
    /// lies outside the grid.
    pub fn instruction_at(&self, location: (usize, usize)) -> (r: Option<Instruction>)
        ensures
            match r {
                Some(i) => location.1 < self@.len() && location.0 < self@[location.1 as int].len()
                    && i@ == self@[location.1 as int][location.0 as int],
                None => !(location.1 < self@.len()
                    && location.0 < self@[location.1 as int].len()),
            },
    {
        let (x, y) = location;
        if y < self.instructions.len() {
            let row = &self.instructions[y];
            if x < row.len() {
                Some(row[x])
            } else {
                None
            }
        } else {
            None
        }
    }

    /// The start location of a run: one cell east of the last halt glyph
    /// in row-major order, wrapping on that row; the top-left corner when
    /// the grid holds no halt glyph at all.
    pub fn lookup(&self) -> (res: (usize, usize))
        requires
            self.wf(),
        ensures
            is_start_location(self@, res.0 as int, res.1 as int),
    {
        let rows = self.instructions.len();
        let mut last_halt: Option<(usize, usize)> = None;
        let mut y: usize = 0;
        while y < rows
            invariant
                rows == self@.len(),
                self.wf(),
                y <= rows,
                match last_halt {
                    None => forall|r: int, c: int|
                        0 <= r < y ==> !#[trigger] is_halt_at(self@, r, c),
                    Some((cx, cy)) => is_halt_at(self@, cy as int, cx as int) && cy < y
                        && forall|r: int, c: int|
                        0 <= r < y && #[trigger] is_halt_at(self@, r, c) ==> r < cy
                            || (r == cy && c <= cx),
                },
            decreases rows - y,
        {
            let row = &self.instructions[y];
            let mut x: usize = 0;
            while x < row.len()
                invariant
                    rows == self@.len(),
                    self.wf(),
                    y < rows,
                    row@ == self.instructions@[y as int]@,
                    x <= row@.len(),
                    row@.len() == self@[y as int].len(),
                    match last_halt {
                        None => (forall|r: int, c: int|
                            0 <= r < y ==> !#[trigger] is_halt_at(self@, r, c))
                            && forall|c: int|
                            0 <= c < x ==> !#[trigger] is_halt_at(self@, y as int, c),
                        Some((cx, cy)) => is_halt_at(self@, cy as int, cx as int) && (cy < y
                            || (cy == y && cx < x)) && (forall|r: int, c: int|
                            0 <= r < y && #[trigger] is_halt_at(self@, r, c) ==> r < cy
                                || (r == cy && c <= cx)) && forall|c: int|
                            0 <= c < x && #[trigger] is_halt_at(self@, y as int, c)
                                ==> cy == y && c <= cx,
                    },
                decreases row@.len() - x,
            {
                if row[x].c == HALT {
                    last_halt = Some((x, y));
                }
                x += 1;
            }
            proof {
                assert(x == row@.len());
                match last_halt {
                    None => {
                        assert forall|r: int, c: int| 0 <= r < y + 1 implies !is_halt_at(
                            self@,
                            r,
                            c,
                        ) by {
                            if r == y as int && is_halt_at(self@, r, c) {
                                assert(self@[r].len() == row@.len());
                                assert(0 <= c < x);
                            }
                        }
                    },
                    Some((cx, cy)) => {
                        assert forall|r: int, c: int|
                            0 <= r < y + 1 && #[trigger] is_halt_at(self@, r, c) implies r
                            < cy as int || (r == cy as int && c <= cx as int) by {
                            if r == y as int {
                                assert(self@[r].len() == row@.len());
                                assert(0 <= c < x);
                            }
                        }
                    },
                }
            }
            y += 1;
        }
        match last_halt {
            None => (0, 0),
            Some((cx, cy)) => {
                let cols = self.cols();
                proof {
                    assert(is_last_halt(self@, cy as int, cx as int));
                }
                ((cx + 1) % cols, cy)
            },
        }
    }
}

impl Program {
    /// Loads a playfield from source text. The text splits at line feeds,
    /// a carriage return before a line feed is dropped, every remaining
    /// byte must be a printable ASCII glyph, and short rows are padded on
    /// the right with the no-operation glyph to the width of the widest
    /// row. A byte outside printable ASCII is reported with its zero-based
    /// row and column; a text without a single cell is rejected as empty.
    pub fn from_str(s: &str) -> (r: Result<Program, LoadError>)
        ensures
            ({
                let ls = split_lines(s.spec_bytes());
                match r {
                    Ok(p) => lines_ok(ls) && ls.len() > 0 && max_width(ls) > 0 && p@
                        == padded(ls, max_width(ls)) && p.wf(),
                    Err(LoadError::InvalidChar { row, col }) => first_bad_at(
                        ls,
                        row as int,
                        col as int,
                    ),
                    Err(LoadError::EmptyProgram) => lines_ok(ls) && (ls.len() == 0
                        || max_width(ls) == 0),
                }
            }),
    {
        let b = s.as_bytes();
        let n = b.len();
        let ghost bs = b@;
        let mut lines_v: Vec<Vec<u8>> = Vec::new();
        let mut i: usize = 0;
        proof {
            assert(bs.subrange(0, n as int) =~= bs);
            assert(byte_rows_view(lines_v@) =~= Seq::<Seq<u8>>::empty());
            assert(Seq::<Seq<u8>>::empty() + split_lines(bs) =~= split_lines(bs));
        }
        while i < n
            invariant
                bs == b@,
                n == bs.len(),
                i <= n,
                split_lines(bs) == byte_rows_view(lines_v@) + split_lines(
                    bs.subrange(i as int, n as int),
                ),
            decreases n - i,
        {
            let mut cur: Vec<u8> = Vec::new();
            let mut j: usize = i;
            while j < n && b[j] != NEWLINE
                invariant
                    bs == b@,
                    n == bs.len(),
                    i <= j <= n,
                    cur@ == bs.subrange(i as int, j as int),
                    forall|t: int| i <= t < j ==> bs[t] != NEWLINE,
                decreases n - j,
            {
                cur.push(b[j]);
                proof {
                    assert(cur@ =~= bs.subrange(i as int, j as int + 1));
                }
                j += 1;
            }
            proof {
                lemma_split_lines_step(bs, i as int, j as int);
            }
            if j < n {
                if cur.len() > 0 && cur[cur.len() - 1] == CARRIAGE_RETURN {
                    cur.pop();
                }
                proof {
                    assert(cur@ == strip_cr(bs.subrange(i as int, j as int)));
                    assert(byte_rows_view(lines_v@.push(cur)) =~= byte_rows_view(lines_v@)
                        + seq![cur@]);
                    assert((byte_rows_view(lines_v@) + seq![cur@]) + split_lines(
                        bs.subrange(j as int + 1, n as int),
                    ) =~= byte_rows_view(lines_v@) + (seq![cur@] + split_lines(
                        bs.subrange(j as int + 1, n as int),
                    )));
                }
                lines_v.push(cur);
                i = j + 1;
            } else {
                proof {
                    assert(cur@ == bs.subrange(i as int, n as int));
                    assert(byte_rows_view(lines_v@.push(cur)) =~= byte_rows_view(lines_v@)
                        + seq![cur@]);
                    assert(split_lines(bs.subrange(n as int, n as int))
                        =~= Seq::<Seq<u8>>::empty());
                    assert((byte_rows_view(lines_v@) + seq![cur@]) + split_lines(
                        bs.subrange(n as int, n as int),
                    ) =~= byte_rows_view(lines_v@) + seq![cur@]);
                }
                lines_v.push(cur);
                i = n;
            }
        }
        proof {
            assert(split_lines(bs.subrange(n as int, n as int)) =~= Seq::<Seq<u8>>::empty());
            assert(byte_rows_view(lines_v@) + Seq::<Seq<u8>>::empty() =~= byte_rows_view(
                lines_v@,
            ));
        }
        let ghost ls = split_lines(bs);
        let nrows = lines_v.len();
        let mut width: usize = 0;
        let mut r: usize = 0;
        while r < nrows
            invariant
                ls == byte_rows_view(lines_v@),
                nrows == lines_v@.len(),
                r <= nrows,
                width == max_width(ls.subrange(0, r as int)),
                forall|t: int| 0 <= t < r ==> (#[trigger] ls[t]).len() <= width,
            decreases nrows - r,
        {
            proof {
                assert(ls.subrange(0, r as int + 1).drop_last() =~= ls.subrange(0, r as int));
                assert(ls.subrange(0, r as int + 1).last() == ls[r as int]);
            }
            if lines_v[r].len() > width {
                width = lines_v[r].len();
            }
            r += 1;
        }
        proof {
            assert(ls.subrange(0, nrows as int) =~= ls);
        }
        let mut grid: Vec<Vec<Instruction>> = Vec::new();
        let mut r: usize = 0;
        while r < nrows
            invariant
                ls == byte_rows_view(lines_v@),
                ls == split_lines(s.spec_bytes()),
                nrows == lines_v@.len(),
                r <= nrows,
                width as int == max_width(ls),
                forall|t: int| 0 <= t < ls.len() ==> (#[trigger] ls[t]).len() <= width,
                forall|t: int| 0 <= t < r ==> line_ok(#[trigger] ls[t]),
                grid@.map_values(
                    |row: Vec<Instruction>| row@.map_values(|ins: Instruction| ins@),
                ) == padded(ls.subrange(0, r as int), width as int),
            decreases nrows - r,
        {
            let line = &lines_v[r];
            let mut row: Vec<Instruction> = Vec::new();
            let mut c: usize = 0;
            while c < line.len()
                invariant
                    ls == byte_rows_view(lines_v@),
                    ls == split_lines(s.spec_bytes()),
                    nrows == lines_v@.len(),
                    r < nrows,
                    line@ == ls[r as int],
                    c <= line@.len(),
                    forall|t: int| 0 <= t < r ==> line_ok(#[trigger] ls[t]),
                    row@.len() == c,
                    forall|t: int|
                        0 <= t < c ==> (#[trigger] row@[t])@ == line@[t]
                            && glyph_printable(row@[t]@),
                decreases line@.len() - c,
            {
                let byte = line[c];
                if !(0x20 <= byte && byte <= 0x7e) {
                    proof {
                        assert forall|t: int| 0 <= t < c implies glyph_printable(
                            #[trigger] ls[r as int][t],
                        ) by {
                            assert(row@[t]@ == line@[t]);
                        }
                        assert(first_bad_at(ls, r as int, c as int));
                    }
                    return Err(LoadError::InvalidChar { row: r, col: c });
                }
                row.push(Instruction { c: byte });
                c += 1;
            }
            while row.len() < width
                invariant
                    line@ == ls[r as int],
                    row@.len() >= line@.len(),
                    row@.len() <= width || row@.len() == line@.len(),
                    forall|t: int|
                        0 <= t < line@.len() ==> (#[trigger] row@[t])@ == line@[t]
                            && glyph_printable(row@[t]@),
                    forall|t: int|
                        line@.len() <= t < row@.len() ==> (#[trigger] row@[t])@ == NOP,
                decreases width - row@.len(),
            {
                row.push(Instruction { c: NOP });
            }
            proof {
                assert forall|t: int| 0 <= t < line@.len() implies glyph_printable(
                    #[trigger] line@[t],
                ) by {
                    assert(row@[t]@ == line@[t]);
                }
                assert(line_ok(ls[r as int]));
                assert(row@.map_values(|ins: Instruction| ins@) =~= pad_line(
                    ls[r as int],
                    width as int,
                ));
                assert(grid@.push(row).map_values(
                    |rw: Vec<Instruction>| rw@.map_values(|ins: Instruction| ins@),
                ) =~= grid@.map_values(
                    |rw: Vec<Instruction>| rw@.map_values(|ins: Instruction| ins@),
                ).push(row@.map_values(|ins: Instruction| ins@)));
                assert(padded(ls.subrange(0, r as int + 1), width as int) =~= padded(
                    ls.subrange(0, r as int),
                    width as int,
                ).push(pad_line(ls[r as int], width as int)));
            }
            grid.push(row);
            r += 1;
        }
        if nrows == 0 || width == 0 {
            return Err(LoadError::EmptyProgram);
        }
        let p = Program { instructions: grid };
        proof {
            assert(ls.subrange(0, nrows as int) =~= ls);
            assert(p@ == padded(ls, max_width(ls)));
            assert forall|rr: int| 0 <= rr < p@.len() implies (#[trigger] p@[rr]).len()
                == p@[0].len() by {
                assert(p@[rr] == pad_line(ls[rr], width as int));
                assert(p@[0] == pad_line(ls[0], width as int));
            }
            assert forall|rr: int, cc: int|
                0 <= rr < p@.len() && 0 <= cc < p@[0].len() implies glyph_printable(
                #[trigger] p@[rr][cc],
            ) by {
                assert(p@[rr] == pad_line(ls[rr], width as int));
                assert(line_ok(ls[rr]));
            }
            assert(p.wf());
        }
        Ok(p)
    }
}

} // verus!
