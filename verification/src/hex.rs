//! Hex composer: the frame producer for files that hold invalid UTF-8.
//!
//! Each row shows 16 bytes as two groups of eight uppercase hex pairs, padded
//! with spaces where bytes are missing, followed by ` |` and an ASCII gutter
//! where printable bytes appear literally and all others as `.`.

use vstd::prelude::*;

verus! {

use crate::proto::{Frame, Line};

/// The uppercase hex digit for a value below 16.
pub open spec fn hex_digit(n: u8) -> char {
    if n < 10 {
        (48 + n) as char
    } else {
        (55 + n) as char
    }
}

/// One cell of the hex area: the byte's two digits (or two spaces past the
/// end), a separating space after every cell but the last, and one extra
/// space after the eighth.
pub open spec fn hex_cell(data: Seq<u8>, start: int, i: int) -> Seq<char> {
    (if start + i < data.len() {
        seq![hex_digit(data[start + i] / 16), hex_digit(data[start + i] % 16)]
    } else {
        seq![' ', ' ']
    }) + (if i != 15 {
        seq![' ']
    } else {
        Seq::<char>::empty()
    }) + (if i == 7 {
        seq![' ']
    } else {
        Seq::<char>::empty()
    })
}

/// The hex area cells from `i` up.
pub open spec fn hex_area(data: Seq<u8>, start: int, i: int) -> Seq<char>
    decreases 16 - i,
{
    if i >= 16 {
        Seq::<char>::empty()
    } else {
        hex_cell(data, start, i) + hex_area(data, start, i + 1)
    }
}

/// The ASCII gutter for `data[j..end)`: printable bytes appear literally and
/// all others as a dot.
pub open spec fn gutter(data: Seq<u8>, j: int, end: int) -> Seq<char>
    decreases end - j,
{
    if j >= end {
        Seq::<char>::empty()
    } else {
        seq![
            if 0x20 <= data[j] <= 0x7e {
                data[j] as char
            } else {
                '.'
            },
        ] + gutter(data, j + 1, end)
    }
}

/// The full text of hex row `row`.
pub open spec fn hex_line_chars(data: Seq<u8>, row: int) -> Seq<char> {
    let start = 16 * row;
    let end = if data.len() < start + 16 {
        data.len() as int
    } else {
        start + 16
    };
    hex_area(data, start, 0) + seq![' ', '|'] + gutter(data, start, end)
}

/// The number of hex rows the data fills.
pub open spec fn hex_rows(data: Seq<u8>) -> int {
    (data.len() as int + 15) / 16
}

/// Compose a hex view frame for the given bytes.
pub fn compose_hex(
    data: &[u8],
    first_row: usize,
    cols: u16,
    rows: u16,
    doc_v: u64,
    status_left: &str,
    status_right: &str,
) -> (r: Frame)
    requires
        first_row + rows <= usize::MAX,
        data@.len() + 16 <= usize::MAX,
    ensures
        r.id@ == "hex"@,
        r.kind@ == "hex"@,
        r.doc_v == doc_v,
        r.first_line == first_row as u64,
        r.cols == cols,
        r.rows == rows,
        r.status_left@ == status_left@,
        r.status_right@ == status_right@,
        r.cursors@.len() == 0,
        r.lines@.len() == if (first_row as int) < hex_rows(data@) {
            vstd::math::min(rows as int, hex_rows(data@) - first_row)
        } else {
            0
        },
        forall|li: int|
            0 <= li < r.lines@.len() ==> (#[trigger] r.lines@[li]).text@ == hex_line_chars(
                data@,
                first_row + li,
            ) && r.lines@[li].spans@.len() == 0,
{
    let n = data.len();
    let total_rows = (n + 15) / 16;
    let shown: usize = if first_row >= total_rows {
        0
    } else if total_rows - first_row < rows as usize {
        total_rows - first_row
    } else {
        rows as usize
    };
    let mut lines: Vec<Line> = Vec::new();
    let mut off: usize = 0;
    while off < shown
        invariant
            off <= shown,
            n == data@.len(),
            n + 16 <= usize::MAX,
            total_rows == hex_rows(data@),
            shown > 0 ==> first_row + shown <= total_rows,
            lines@.len() == off,
            forall|li: int|
                0 <= li < lines@.len() ==> (#[trigger] lines@[li]).text@ == hex_line_chars(
                    data@,
                    first_row + li,
                ) && lines@[li].spans@.len() == 0,
        decreases shown - off,
    {
        let row = first_row + off;
        proof {
            assert(row < total_rows);
            assert(16 * row < n + 16) by (nonlinear_arith)
                requires
                    row < (n + 16 - 1) / 16,
                    n >= 0,
            ;
        }
        let start: usize = 16 * row;
        let end: usize = if n < start + 16 {
            n
        } else {
            start + 16
        };
        let mut chars: Vec<char> = Vec::new();
        let mut i: usize = 0;
        proof {
            assert(hex_area(data@, start as int, 0) + Seq::<char>::empty() =~= hex_area(
                data@,
                start as int,
                0,
            ));
        }
        while i < 16
            invariant
                i <= 16,
                n == data@.len(),
                start + 16 <= usize::MAX,
                start == 16 * (first_row + off),
                chars@ + hex_area(data@, start as int, i as int) == hex_area(
                    data@,
                    start as int,
                    0,
                ),
            decreases 16 - i,
        {
            let ghost before = chars@;
            if start + i < n {
                let b = *vstd::slice::slice_index_get(data, start + i);
                let hi = b / 16;
                let lo = b % 16;
                chars.push(
                    if hi < 10 {
                        (48 + hi) as char
                    } else {
                        (55 + hi) as char
                    },
                );
                chars.push(
                    if lo < 10 {
                        (48 + lo) as char
                    } else {
                        (55 + lo) as char
                    },
                );
            } else {
                chars.push(' ');
                chars.push(' ');
            }
            if i != 15 {
                chars.push(' ');
            }
            if i == 7 {
                chars.push(' ');
            }
            proof {
                assert(chars@ =~= before + hex_cell(data@, start as int, i as int));
                assert(before + (hex_cell(data@, start as int, i as int) + hex_area(
                    data@,
                    start as int,
                    i as int + 1,
                )) =~= (before + hex_cell(data@, start as int, i as int)) + hex_area(
                    data@,
                    start as int,
                    i as int + 1,
                ));
            }
            i = i + 1;
        }
        chars.push(' ');
        chars.push('|');
        let ghost mid = chars@;
        proof {
            assert(mid =~= hex_area(data@, start as int, 0) + seq![' ', '|']);
        }
        let mut j: usize = start;
        while j < end
            invariant
                start <= j <= end <= n,
                n == data@.len(),
                chars@ + gutter(data@, j as int, end as int) == mid + gutter(
                    data@,
                    start as int,
                    end as int,
                ),
            decreases end - j,
        {
            let ghost before = chars@;
            let b = *vstd::slice::slice_index_get(data, j);
            if 0x20u8 <= b && b <= 0x7eu8 {
                chars.push(b as char);
            } else {
                chars.push('.');
            }
            proof {
                assert(chars@ =~= before + seq![
                    if 0x20 <= data@[j as int] <= 0x7e {
                        data@[j as int] as char
                    } else {
                        '.'
                    },
                ]);
                assert(before + (seq![
                    if 0x20 <= data@[j as int] <= 0x7e {
                        data@[j as int] as char
                    } else {
                        '.'
                    },
                ] + gutter(data@, j as int + 1, end as int)) =~= chars@ + gutter(
                    data@,
                    j as int + 1,
                    end as int,
                ));
            }
            j = j + 1;
        }
        let text = crate::strutil::chars_to_string(&chars);
        proof {
            assert(gutter(data@, end as int, end as int) =~= Seq::<char>::empty());
            assert(chars@ =~= mid + gutter(data@, start as int, end as int));
            assert(end as int == if data@.len() < 16 * (row as int) + 16 {
                data@.len() as int
            } else {
                16 * (row as int) + 16
            });
            assert(text@ == hex_line_chars(data@, row as int));
        }
        lines.push(Line { text, spans: Vec::new() });
        off = off + 1;
    }
    let hex_id = hex_name();
    Frame {
        id: hex_id.clone(),
        kind: hex_name(),
        doc_v,
        first_line: first_row as u64,
        cols,
        rows,
        lines,
        cursors: Vec::new(),
        status_left: status_left.to_owned(),
        status_right: status_right.to_owned(),
    }
}

/// The frame id and kind of hex frames.
fn hex_name() -> (r: String)
    ensures
        r@ == "hex"@,
{
    let s = "hex";
    s.to_owned()
}

} // verus!
