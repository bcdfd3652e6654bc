//! Properties of the text console's writer that hold for every text.

use vstd::prelude::*;
use super::{Position, cell_index, VGAColor, SCREEN_WIDTH, SCREEN_HEIGHT};
use super::writer::{after_advance, put_run, byte_effect, text_effect, WriteFault};

verus! {

/// Every write lands on the screen, in the writer's attribute, and shows a
/// printable ASCII character.
pub open spec fn writes_on_screen(size: Position, code: u8, w: Seq<(usize, (u8, u8))>) -> bool {
    forall|k: int|
        0 <= k < w.len() ==> {
            &&& (#[trigger] w[k]).0 < size.x * size.y
            &&& w[k].1.1 == code
            &&& 0x20 <= w[k].1.0 <= 0x7e
        }
}

proof fn lemma_put_run_on_screen(size: Position, code: u8, p: Position, ascii: u8, n: nat)
    requires
        size.x * size.y <= u32::MAX,
        0 < size.x,
        p.x < size.x,
        0x20 <= ascii <= 0x7e,
    ensures
        put_run(size, code, p, ascii, n).0.x < size.x,
        writes_on_screen(size, code, put_run(size, code, p, ascii, n).1),
    decreases n,
{
    if n > 0 {
        lemma_put_run_on_screen(size, code, p, ascii, (n - 1) as nat);
        let (q, w, f) = put_run(size, code, p, ascii, (n - 1) as nat);
        if f is None {
            if q.x < size.x && q.y < size.y {
                assert(q.y * size.x + q.x < size.x * size.y) by (nonlinear_arith)
                    requires
                        q.x < size.x,
                        q.y < size.y,
                ;
                let i = (q.y * size.x + q.x) as usize;
                assert(cell_index(size, q) == Some(i));
                let w2 = w.push((i, (ascii, code)));
                assert forall|k: int| 0 <= k < w2.len() implies {
                    &&& (#[trigger] w2[k]).0 < size.x * size.y
                    &&& w2[k].1.1 == code
                    &&& 0x20 <= w2[k].1.0 <= 0x7e
                } by {
                    if k < w.len() {
                        assert(w2[k] == w[k]);
                    }
                }
            }
        }
    }
}

/// From a cursor in a column of the screen, writing any text keeps the
/// cursor in a column of the screen, and every cell it writes lies on the
/// screen, carries the writer's attribute and shows a printable ASCII
/// character (bytes outside that range are shown as `?`).
pub proof fn lemma_text_stays_on_screen(size: Position, code: u8, p: Position, bytes: Seq<u8>)
    requires
        size.x * size.y <= u32::MAX,
        0 < size.x,
        p.x < size.x,
    ensures
        text_effect(size, code, p, bytes).0.x < size.x,
        writes_on_screen(size, code, text_effect(size, code, p, bytes).1),
    decreases bytes.len(),
{
    if bytes.len() > 0 {
        lemma_text_stays_on_screen(size, code, p, bytes.drop_last());
        let (q, w, f) = text_effect(size, code, p, bytes.drop_last());
        if f is None {
            let b = bytes.last();
            if b == 0x09 {
                lemma_put_run_on_screen(size, code, q, 0x20, 4);
            } else if 0x20 <= b <= 0x7e {
                lemma_put_run_on_screen(size, code, q, b, 1);
            } else if b != 0x0a && b != 0x0d {
                lemma_put_run_on_screen(size, code, q, 0x3f, 1);
            }
            let (q2, w2, f2) = byte_effect(size, code, q, b);
            let all = w + w2;
            assert forall|k: int| 0 <= k < all.len() implies {
                &&& (#[trigger] all[k]).0 < size.x * size.y
                &&& all[k].1.1 == code
                &&& 0x20 <= all[k].1.0 <= 0x7e
            } by {
                if k < w.len() {
                    assert(all[k] == w[k]);
                } else {
                    assert(all[k] == w2[k - w.len()]);
                }
            }
        }
    }
}

/// Printable ASCII text that fits in the rest of the cursor's row, on the
/// screen, is written left to right into consecutive cells from the
/// cursor, which ends just past it.
pub proof fn lemma_printable_line(size: Position, code: u8, p: Position, bytes: Seq<u8>)
    requires
        size.x * size.y <= u32::MAX,
        p.y < size.y,
        p.x + bytes.len() < size.x,
        forall|k: int| 0 <= k < bytes.len() ==> 0x20 <= #[trigger] bytes[k] <= 0x7e,
    ensures
        text_effect(size, code, p, bytes) == (
            Position { x: (p.x + bytes.len()) as u32, y: p.y },
            Seq::new(bytes.len(), |k: int| ((p.y * size.x + p.x + k) as usize, (bytes[k], code))),
            None::<super::writer::WriteFault>,
        ),
    decreases bytes.len(),
{
    let n = bytes.len();
    if n == 0 {
        assert(Seq::new(0, |k: int| ((p.y * size.x + p.x + k) as usize, (bytes[k], code))) =~= seq![]);
    } else {
        let prefix = bytes.drop_last();
        lemma_printable_line(size, code, p, prefix);
        let q = Position { x: (p.x + prefix.len()) as u32, y: p.y };
        let b = bytes.last();
        assert(0x20 <= b <= 0x7e) by {
            assert(b == bytes[n - 1]);
        }
        reveal_with_fuel(put_run, 2);
        assert(q.y * size.x + q.x < size.x * size.y) by (nonlinear_arith)
            requires
                q.x < size.x,
                q.y < size.y,
        ;
        assert(cell_index(size, q) == Some((q.y * size.x + q.x) as usize));
        assert(after_advance(size, q) == Position { x: (p.x + n) as u32, y: p.y });
        let expected = Seq::new(n, |k: int| ((p.y * size.x + p.x + k) as usize, (bytes[k], code)));
        let before = Seq::new(prefix.len(), |k: int| ((p.y * size.x + p.x + k) as usize, (prefix[k], code)));
        assert(before + seq![].push(((q.y * size.x + q.x) as usize, (b, code))) =~= expected);
    }
}

/// Buffer indices are row-major: the top left cell is index 0, the cell to
/// the right of a cell is the next index, and the cell below it is a whole
/// row further on; positions off the screen have no index.
pub proof fn lemma_cells_row_major(size: Position, x: u32, y: u32)
    requires
        size.x * size.y <= u32::MAX,
    ensures
        0 < size.x && 0 < size.y ==> cell_index(size, Position { x: 0, y: 0 }) == Some(0usize),
        x + 1 < size.x && y < size.y ==> cell_index(size, Position { x: (x + 1) as u32, y }).unwrap()
            == cell_index(size, Position { x, y }).unwrap() + 1,
        x < size.x && y + 1 < size.y ==> cell_index(size, Position { x, y: (y + 1) as u32 }).unwrap()
            == cell_index(size, Position { x, y }).unwrap() + size.x,
        x >= size.x || y >= size.y ==> cell_index(size, Position { x, y }) is None,
{
    if x < size.x && y + 1 < size.y {
        assert((y + 1) * size.x + x < size.x * size.y) by (nonlinear_arith)
            requires
                x < size.x,
                y + 1 < size.y,
        ;
        assert((y + 1) * size.x + x == y * size.x + x + size.x) by (nonlinear_arith);
    }
    if x + 1 < size.x && y < size.y {
        assert(y * size.x + x + 1 < size.x * size.y) by (nonlinear_arith)
            requires
                x + 1 < size.x,
                y < size.y,
        ;
    }
}

/// The effect of text followed by one more byte: the effect of the text,
/// then, unless the writer already stopped, that byte's effect from where
/// the text left the cursor.
proof fn lemma_text_push(size: Position, code: u8, p: Position, bytes: Seq<u8>, b: u8)
    ensures
        ({
            let (q, w, f) = text_effect(size, code, p, bytes);
            let (q2, w2, f2) = byte_effect(size, code, q, b);
            text_effect(size, code, p, bytes.push(b)) == if f is Some {
                (q, w, f)
            } else {
                (q2, w + w2, f2)
            }
        }),
{
    assert(bytes.push(b).drop_last() =~= bytes);
    assert(bytes.push(b).last() == b);
}

/// A carriage return after any text that the writer finished moves the
/// cursor to column 0 of the row it is on, whatever the column, and writes
/// nothing.
pub proof fn lemma_carriage_return(size: Position, code: u8, p: Position, bytes: Seq<u8>)
    requires
        text_effect(size, code, p, bytes).2 is None,
    ensures
        ({
            let (q, w, f) = text_effect(size, code, p, bytes);
            text_effect(size, code, p, bytes.push(0x0d)) == (Position { x: 0, y: q.y }, w, None::<WriteFault>)
        }),
{
    lemma_text_push(size, code, p, bytes, 0x0d);
    let w = text_effect(size, code, p, bytes).1;
    assert(w + seq![] =~= w);
}

/// A line feed after any text that the writer finished moves the cursor to
/// column 0 of the next row, whatever the column (0 included), and writes
/// nothing; on the last representable row it stops the writer instead.
pub proof fn lemma_line_feed(size: Position, code: u8, p: Position, bytes: Seq<u8>)
    requires
        text_effect(size, code, p, bytes).2 is None,
    ensures
        ({
            let (q, w, f) = text_effect(size, code, p, bytes);
            &&& q.y < u32::MAX ==> text_effect(size, code, p, bytes.push(0x0a)) == (
                Position { x: 0, y: (q.y + 1) as u32 },
                w,
                None::<WriteFault>,
            )
            &&& q.y == u32::MAX ==> text_effect(size, code, p, bytes.push(0x0a)) == (
                q,
                w,
                Some(WriteFault::LineOverflow),
            )
        }),
{
    lemma_text_push(size, code, p, bytes, 0x0a);
    let w = text_effect(size, code, p, bytes).1;
    assert(w + seq![] =~= w);
}

/// After any text that the writer finished, a byte `b` other than a line
/// feed, carriage return or tab writes one cell at the cursor: `b` itself
/// when it is printable ASCII, `?` otherwise, in the writer's attribute. The
/// cursor then moves one column right, or to the start of the next row from
/// the last column. With the cursor off the screen the writer stops and
/// writes nothing.
pub proof fn lemma_character(size: Position, code: u8, p: Position, bytes: Seq<u8>, b: u8)
    requires
        size.x * size.y <= u32::MAX,
        text_effect(size, code, p, bytes).2 is None,
        b != 0x09 && b != 0x0a && b != 0x0d,
    ensures
        ({
            let (q, w, f) = text_effect(size, code, p, bytes);
            let shown: u8 = if 0x20 <= b <= 0x7e { b } else { 0x3f };
            let next = if q.x + 1 < size.x {
                Position { x: (q.x + 1) as u32, y: q.y }
            } else {
                Position { x: 0, y: (q.y + 1) as u32 }
            };
            &&& q.x < size.x && q.y < size.y ==> text_effect(size, code, p, bytes.push(b)) == (
                next,
                w.push(((q.y * size.x + q.x) as usize, (shown, code))),
                None::<WriteFault>,
            )
            &&& !(q.x < size.x && q.y < size.y) ==> text_effect(size, code, p, bytes.push(b)) == (
                q,
                w,
                Some(WriteFault::OutOfBounds),
            )
        }),
{
    lemma_text_push(size, code, p, bytes, b);
    reveal_with_fuel(put_run, 2);
    let (q, w, f) = text_effect(size, code, p, bytes);
    let shown: u8 = if 0x20 <= b <= 0x7e { b } else { 0x3f };
    assert(put_run(size, code, q, shown, 0) == (q, Seq::<(usize, (u8, u8))>::empty(), None::<WriteFault>));
    if q.x < size.x && q.y < size.y {
        let i = (q.y * size.x + q.x) as usize;
        assert(w + seq![].push((i, (shown, code))) =~= w.push((i, (shown, code))));
    } else {
        assert(w + seq![] =~= w);
    }
}

/// After any text that the writer finished, a tab with room for four more
/// cells on the cursor's row writes four spaces in the writer's attribute
/// into the four cells from the cursor and moves the cursor four columns
/// right.
pub proof fn lemma_tab(size: Position, code: u8, p: Position, bytes: Seq<u8>)
    requires
        size.x * size.y <= u32::MAX,
        text_effect(size, code, p, bytes).2 is None,
        text_effect(size, code, p, bytes).0.x + 4 < size.x,
        text_effect(size, code, p, bytes).0.y < size.y,
    ensures
        ({
            let (q, w, f) = text_effect(size, code, p, bytes);
            text_effect(size, code, p, bytes.push(0x09)) == (
                Position { x: (q.x + 4) as u32, y: q.y },
                w + Seq::new(4, |k: int| ((q.y * size.x + q.x + k) as usize, (0x20u8, code))),
                None::<WriteFault>,
            )
        }),
{
    lemma_text_push(size, code, p, bytes, 0x09);
    let (q, w, f) = text_effect(size, code, p, bytes);
    lemma_printable_line(size, code, q, seq![0x20u8, 0x20, 0x20, 0x20]);
    lemma_spaces_are_a_line(size, code, q);
}

/// Four spaces written by a tab are the line of four spaces.
proof fn lemma_spaces_are_a_line(size: Position, code: u8, q: Position)
    ensures
        put_run(size, code, q, 0x20, 4) == text_effect(size, code, q, seq![0x20u8, 0x20, 0x20, 0x20]),
{
    let spaces = seq![0x20u8, 0x20, 0x20, 0x20];
    assert forall|n: nat| n <= 4 implies #[trigger] put_run(size, code, q, 0x20, n) == text_effect(
        size,
        code,
        q,
        spaces.take(n as int),
    ) by {
        lemma_spaces_prefix(size, code, q, n);
    }
    assert(spaces.take(4) =~= spaces);
}

proof fn lemma_spaces_prefix(size: Position, code: u8, q: Position, n: nat)
    requires
        n <= 4,
    ensures
        put_run(size, code, q, 0x20, n) == text_effect(size, code, q, seq![0x20u8, 0x20, 0x20, 0x20].take(n as int)),
    decreases n,
{
    let spaces = seq![0x20u8, 0x20, 0x20, 0x20];
    if n == 0 {
        assert(spaces.take(0) =~= Seq::<u8>::empty());
    } else {
        lemma_spaces_prefix(size, code, q, (n - 1) as nat);
        let prefix = spaces.take(n - 1);
        assert(spaces.take(n as int) =~= prefix.push(0x20));
        lemma_text_push(size, code, q, prefix, 0x20);
        reveal_with_fuel(put_run, 2);
        let (r, w, f) = put_run(size, code, q, 0x20, (n - 1) as nat);
        assert(put_run(size, code, r, 0x20, 0) == (r, Seq::<(usize, (u8, u8))>::empty(), None::<WriteFault>));
        match cell_index(size, r) {
            None => {
                assert(w + seq![] =~= w);
            },
            Some(i) => {
                assert(w + seq![].push((i, (0x20u8, code))) =~= w.push((i, (0x20u8, code))));
            },
        }
    }
}

/// The console's fixed facts: the text screen is 80 columns by 25 rows, and
/// the attribute codes are the VGA palette's: black 0x0, red 0x4, white
/// 0xf, all different.
pub proof fn lemma_console_constants()
    ensures
        SCREEN_WIDTH == 80,
        SCREEN_HEIGHT == 25,
        VGAColor::Black.code_spec() == 0x0,
        VGAColor::Red.code_spec() == 0x4,
        VGAColor::White.code_spec() == 0xf,
        forall|a: VGAColor, b: VGAColor| a.code_spec() == b.code_spec() ==> a == b,
{
}

} // verus!
