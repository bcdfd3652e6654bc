//! A writer that turns text into cell writes on the VGA text console,
//! moving a cursor across the screen.
//!
//! The writer decides; it touches no memory. It hands back the cell writes
//! to perform, in order, and whether it had to stop: at a write off the
//! screen, or at a line break past the last representable row.

use vstd::prelude::*;
use super::{Position, VGAChar, VGAColor, VgaLayout, cell_index};

verus! {

/// One write to the text buffer: `cell` at buffer index `offset`.
#[derive(Clone, Copy, Debug, PartialEq, Eq, Structural)]
pub struct CellWrite {
    pub offset: usize,
    pub cell: VGAChar,
}

impl View for CellWrite {
    type V = (usize, (u8, u8));

    open spec fn view(&self) -> (usize, (u8, u8)) {
        (self.offset, self.cell@)
    }
}

/// Why a writer stopped.
#[derive(Clone, Copy, Debug, PartialEq, Eq, Structural)]
pub enum WriteFault {
    /// A character was to be written at a position off the screen.
    OutOfBounds,
    /// A line break would move the cursor past the last representable row.
    LineOverflow,
}

/// The outcome of writing text: the cell writes to perform, in order, and
/// the fault that stopped the writer, if one did.
pub struct WritePlan {
    pub cells: Vec<CellWrite>,
    pub fault: Option<WriteFault>,
}

/// The views of a sequence of cell writes.
pub open spec fn cells_view(cells: Seq<CellWrite>) -> Seq<(usize, (u8, u8))> {
    cells.map_values(|w: CellWrite| w@)
}

/// The cursor after a character has been written at `p`: one column to the
/// right, or the start of the next row past the last column.
pub open spec fn after_advance(size: Position, p: Position) -> Position {
    if p.x + 1 >= size.x {
        Position { x: 0, y: (p.y + 1) as u32 }
    } else {
        Position { x: (p.x + 1) as u32, y: p.y }
    }
}

/// Writing `ascii` in attribute `code` `n` times from cursor `p`: the final
/// cursor, the cell writes, and the fault that stopped it, if any.
pub open spec fn put_run(size: Position, code: u8, p: Position, ascii: u8, n: nat) -> (
    Position,
    Seq<(usize, (u8, u8))>,
    Option<WriteFault>,
)
    decreases n,
{
    if n == 0 {
        (p, seq![], None)
    } else {
        let (q, w, f) = put_run(size, code, p, ascii, (n - 1) as nat);
        if f is Some {
            (q, w, f)
        } else {
            match cell_index(size, q) {
                None => (q, w, Some(WriteFault::OutOfBounds)),
                Some(i) => (after_advance(size, q), w.push((i, (ascii, code))), None),
            }
        }
    }
}

/// The effect of one byte of text from cursor `p`: a line feed moves to
/// the start of the next row, a carriage return to the start of the row, a
/// tab writes four spaces, a printable ASCII byte is written as itself and
/// any other byte as `?`.
pub open spec fn byte_effect(size: Position, code: u8, p: Position, byte: u8) -> (
    Position,
    Seq<(usize, (u8, u8))>,
    Option<WriteFault>,
) {
    if byte == 0x0a {
        if p.y == u32::MAX {
            (p, seq![], Some(WriteFault::LineOverflow))
        } else {
            (Position { x: 0, y: (p.y + 1) as u32 }, seq![], None)
        }
    } else if byte == 0x0d {
        (Position { x: 0, y: p.y }, seq![], None)
    } else if byte == 0x09 {
        put_run(size, code, p, 0x20, 4)
    } else if 0x20 <= byte <= 0x7e {
        put_run(size, code, p, byte, 1)
    } else {
        put_run(size, code, p, 0x3f, 1)
    }
}

/// The effect of `bytes` from cursor `p`, byte by byte, up to the first
/// fault.
pub open spec fn text_effect(size: Position, code: u8, p: Position, bytes: Seq<u8>) -> (
    Position,
    Seq<(usize, (u8, u8))>,
    Option<WriteFault>,
)
    decreases bytes.len(),
{
    if bytes.len() == 0 {
        (p, seq![], None)
    } else {
        let (q, w, f) = text_effect(size, code, p, bytes.drop_last());
        if f is Some {
            (q, w, f)
        } else {
            let (q2, w2, f2) = byte_effect(size, code, q, bytes.last());
            (q2, w + w2, f2)
        }
    }
}

/// Writing `n + 1` copies is writing `n` and then one more.
proof fn lemma_put_run_extend(size: Position, code: u8, p: Position, ascii: u8, n: nat)
    requires
        put_run(size, code, p, ascii, n).2 is None,
    ensures
        ({
            let (q, w, f) = put_run(size, code, p, ascii, n);
            let (q1, w1, f1) = put_run(size, code, q, ascii, 1);
            put_run(size, code, p, ascii, n + 1) == (q1, w + w1, f1)
        }),
{
    reveal_with_fuel(put_run, 2);
    let (q, w, f) = put_run(size, code, p, ascii, n);
    assert(put_run(size, code, q, ascii, 0) == (q, Seq::<(usize, (u8, u8))>::empty(), None::<WriteFault>));
    match cell_index(size, q) {
        None => {
            assert(w + seq![] =~= w);
        },
        Some(i) => {
            assert(w.push((i, (ascii, code))) =~= w + seq![].push((i, (ascii, code))));
        },
    }
}

/// Once the writer has stopped, further bytes change nothing.
pub proof fn lemma_text_effect_stops(size: Position, code: u8, p: Position, bytes: Seq<u8>, k: int)
    requires
        0 <= k <= bytes.len(),
        text_effect(size, code, p, bytes.take(k)).2 is Some,
    ensures
        text_effect(size, code, p, bytes) == text_effect(size, code, p, bytes.take(k)),
    decreases bytes.len(),
{
    if bytes.len() == k {
        assert(bytes.take(k) =~= bytes);
    } else {
        assert(bytes.drop_last().take(k) =~= bytes.take(k));
        lemma_text_effect_stops(size, code, p, bytes.drop_last(), k);
    }
}

/// Once a run of writes has stopped, longer runs stop at the same place.
proof fn lemma_put_run_stays(size: Position, code: u8, p: Position, ascii: u8, k: nat, m: nat)
    requires
        k <= m,
        put_run(size, code, p, ascii, k).2 is Some,
    ensures
        put_run(size, code, p, ascii, m) == put_run(size, code, p, ascii, k),
    decreases m - k,
{
    if k < m {
        lemma_put_run_stays(size, code, p, ascii, k, (m - 1) as nat);
    }
}

/// A cursor on the text screen that writes in one color.
pub struct VGAWriter {
    layout: VgaLayout,
    position: Position,
    color: VGAColor,
}

impl VGAWriter {
    /// The size of the screen written to.
    pub closed spec fn screen(&self) -> Position {
        self.layout@
    }

    /// The cursor.
    pub closed spec fn cursor(&self) -> Position {
        self.position
    }

    /// The color written in.
    pub closed spec fn pen(&self) -> VGAColor {
        self.color
    }

    /// A writer on `layout` with its cursor at `position`, writing in
    /// `color`.
    pub fn new(layout: VgaLayout, position: Position, color: VGAColor) -> (w: Self)
        ensures
            w.screen() == layout@,
            w.cursor() == position,
            w.pen() == color,
    {
        Self { layout, position, color }
    }

    /// Moves the cursor to the start of the next row; `false`, with the
    /// cursor unchanged, when there is no next row.
    fn next_line(&mut self) -> (ok: bool)
        ensures
            final(self).screen() == old(self).screen(),
            final(self).pen() == old(self).pen(),
            ok == (old(self).cursor().y < u32::MAX),
            ok ==> final(self).cursor() == (Position { x: 0, y: (old(self).cursor().y + 1) as u32 }),
            !ok ==> final(self).cursor() == old(self).cursor(),
    {
        if self.position.y == u32::MAX {
            return false;
        }
        self.position.x = 0;
        self.position.y = self.position.y + 1;
        true
    }

    /// Moves the cursor past the character just written.
    fn advance(&mut self)
        requires
            old(self).cursor().x < old(self).screen().x,
            old(self).cursor().y < old(self).screen().y,
        ensures
            final(self).screen() == old(self).screen(),
            final(self).pen() == old(self).pen(),
            final(self).cursor() == after_advance(old(self).screen(), old(self).cursor()),
    {
        self.position.x = self.position.x + 1;
        if self.position.x >= self.layout.size.x {
            let ok = self.next_line();
        }
    }

    /// Writes `ascii` at the cursor and advances; `false`, with nothing
    /// written, when the cursor is off the screen.
    fn write_ascii(&mut self, ascii: u8, cells: &mut Vec<CellWrite>) -> (ok: bool)
        ensures
            final(self).screen() == old(self).screen(),
            final(self).pen() == old(self).pen(),
            ({
                let (q, w, f) = put_run(old(self).screen(), old(self).pen().code_spec(), old(self).cursor(), ascii, 1);
                &&& final(self).cursor() == q
                &&& cells_view(final(cells)@) == cells_view(old(cells)@) + w
                &&& ok == (f is None)
            }),
    {
        let ghost before = cells@;
        proof {
            reveal_with_fuel(put_run, 2);
            assert(seq![].push((0usize, (ascii, 0u8))) =~= seq![(0usize, (ascii, 0u8))]);
        }
        match self.layout.cell_offset(self.position) {
            None => {
                assert(cells_view(cells@) =~= cells_view(before) + seq![]);
                false
            },
            Some(offset) => {
                let cell = VGAChar::new(ascii, self.color);
                cells.push(CellWrite { offset, cell });
                self.advance();
                assert(cells_view(cells@) =~= cells_view(before) + seq![].push(
                    (offset, (ascii, self.color.code_spec())),
                ));
                true
            },
        }
    }

    /// Writes one byte of text: a line feed moves to the start of the next
    /// row, a carriage return to the start of the row, a tab writes four
    /// spaces, a printable ASCII byte is written as itself and any other
    /// byte as `?`. Returns the fault that stopped it, if any.
    fn write_byte(&mut self, byte: u8, cells: &mut Vec<CellWrite>) -> (fault: Option<WriteFault>)
        ensures
            final(self).screen() == old(self).screen(),
            final(self).pen() == old(self).pen(),
            ({
                let (q, w, f) = byte_effect(old(self).screen(), old(self).pen().code_spec(), old(self).cursor(), byte);
                &&& final(self).cursor() == q
                &&& cells_view(final(cells)@) == cells_view(old(cells)@) + w
                &&& fault == f
            }),
    {
        let ghost size = self.screen();
        let ghost code = self.pen().code_spec();
        let ghost start = self.cursor();
        let ghost before = cells@;
        match byte {
            0x0a => {
                assert(cells_view(before) + seq![] =~= cells_view(before));
                if self.next_line() {
                    None
                } else {
                    Some(WriteFault::LineOverflow)
                }
            },
            0x0d => {
                assert(cells_view(before) + seq![] =~= cells_view(before));
                self.position.x = 0;
                None
            },
            0x09 => {
                let mut k: usize = 0;
                assert(cells_view(before) + seq![] =~= cells_view(before));
                while k < 4
                    invariant
                        k <= 4,
                        size == old(self).screen(),
                        start == old(self).cursor(),
                        before == old(cells)@,
                        byte == 0x09,
                        self.screen() == size,
                        self.pen() == old(self).pen(),
                        code == self.pen().code_spec(),
                        ({
                            let (q, w, f) = put_run(size, code, start, 0x20, k as nat);
                            &&& f is None
                            &&& self.cursor() == q
                            &&& cells_view(cells@) == cells_view(before) + w
                        }),
                    decreases 4 - k,
                {
                    proof {
                        lemma_put_run_extend(size, code, start, 0x20, k as nat);
                    }
                    let ghost mid = cells_view(cells@);
                    let ok = self.write_ascii(0x20, cells);
                    proof {
                        let (q, w, f) = put_run(size, code, start, 0x20, k as nat);
                        let (q1, w1, f1) = put_run(size, code, q, 0x20, 1);
                        assert(cells_view(before) + (w + w1) =~= mid + w1);
                    }
                    if !ok {
                        proof {
                            assert forall|m: nat| k + 1 <= m <= 4 implies #[trigger] put_run(size, code, start, 0x20, m)
                                == put_run(size, code, start, 0x20, (k + 1) as nat) by {
                                lemma_put_run_stays(size, code, start, 0x20, (k + 1) as nat, m);
                            }
                        }
                        return Some(WriteFault::OutOfBounds);
                    }
                    k = k + 1;
                }
                None
            },
            0x20..=0x7e => {
                proof {
                    lemma_put_run_extend(size, code, start, byte, 0);
                    reveal_with_fuel(put_run, 2);
                }
                if self.write_ascii(byte, cells) {
                    None
                } else {
                    Some(WriteFault::OutOfBounds)
                }
            },
            _ => {
                proof {
                    lemma_put_run_extend(size, code, start, 0x3f, 0);
                    reveal_with_fuel(put_run, 2);
                }
                if self.write_ascii(0x3f, cells) {
                    None
                } else {
                    Some(WriteFault::OutOfBounds)
                }
            },
        }
    }

    /// Writes `bytes` from the cursor, byte by byte, and hands back the cell
    /// writes in order; stops at the first fault, which the plan reports.
    pub fn write_bytes(&mut self, bytes: &[u8]) -> (plan: WritePlan)
        ensures
            final(self).screen() == old(self).screen(),
            final(self).pen() == old(self).pen(),
            (final(self).cursor(), cells_view(plan.cells@), plan.fault) == text_effect(
                old(self).screen(),
                old(self).pen().code_spec(),
                old(self).cursor(),
                bytes@,
            ),
    {
        let ghost size = self.screen();
        let ghost code = self.pen().code_spec();
        let ghost start = self.cursor();
        let mut cells: Vec<CellWrite> = Vec::new();
        let mut i: usize = 0;
        assert(bytes@.take(0) =~= Seq::<u8>::empty());
        assert(cells_view(cells@) =~= Seq::<(usize, (u8, u8))>::empty());
        while i < bytes.len()
            invariant
                i <= bytes@.len(),
                size == old(self).screen(),
                start == old(self).cursor(),
                self.screen() == size,
                self.pen() == old(self).pen(),
                code == self.pen().code_spec(),
                (self.cursor(), cells_view(cells@), None::<WriteFault>) == text_effect(size, code, start, bytes@.take(i as int)),
            decreases bytes@.len() - i,
        {
            let fault = self.write_byte(bytes[i], &mut cells);
            assert(bytes@.take(i + 1).drop_last() =~= bytes@.take(i as int));
            assert(bytes@.take(i + 1).last() == bytes@[i as int]);
            if fault.is_some() {
                proof {
                    lemma_text_effect_stops(size, code, start, bytes@, i + 1);
                }
                return WritePlan { cells, fault };
            }
            i = i + 1;
        }
        assert(bytes@.take(bytes@.len() as int) =~= bytes@);
        WritePlan { cells, fault: None }
    }
}

} // verus!
