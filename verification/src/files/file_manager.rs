//! Content checks for loaded files: binary detection and the textual
//! fallback for undecodable bytes.

use vstd::prelude::*;

verus! {

use vstd::utf8::{valid_utf8, decode_utf8};
use crate::hex::hex_digit;
use crate::strutil::{try_decode, chars_to_string};

/// File manager utility functions.
#[derive(Debug)]
pub struct FileManager;

/// The hex pairs of the bytes, each followed by a space.
pub open spec fn hex_pairs(b: Seq<u8>, i: int) -> Seq<char>
    decreases b.len() - i,
{
    if i < 0 || i >= b.len() {
        Seq::<char>::empty()
    } else {
        seq![hex_digit(b[i] / 16), hex_digit(b[i] % 16), ' '] + hex_pairs(b, i + 1)
    }
}

/// The hex rendering of the bytes: pairs separated by spaces.
pub open spec fn hex_dump(b: Seq<u8>) -> Seq<char> {
    if b.len() == 0 {
        Seq::<char>::empty()
    } else {
        hex_pairs(b, 0).drop_last()
    }
}

impl FileManager {
    /// Determine if a slice of bytes likely represents binary data: it holds
    /// a zero byte.
    pub fn is_binary(data: &[u8]) -> (r: bool)
        ensures
            r == exists|i: int| 0 <= i < data@.len() && data@[i] == 0u8,
    {
        let n = data.len();
        let mut i: usize = 0;
        while i < n
            invariant
                i <= n,
                n == data@.len(),
                forall|q: int| 0 <= q < i ==> data@[q] != 0u8,
            decreases n - i,
        {
            if *vstd::slice::slice_index_get(data, i) == 0u8 {
                return true;
            }
            i = i + 1;
        }
        false
    }

    /// Decode bytes to text, or render them as uppercase hex pairs when they
    /// are not valid UTF-8.
    pub fn to_utf8_or_hex(data: &[u8]) -> (r: String)
        ensures
            valid_utf8(data@) ==> r@ == decode_utf8(data@),
            !valid_utf8(data@) ==> r@ == hex_dump(data@),
    {
        match try_decode(data) {
            Some(s) => s,
            None => {
                let n = data.len();
                let mut chars: Vec<char> = Vec::new();
                let mut i: usize = 0;
                proof {
                    assert(chars@ + hex_pairs(data@, 0) =~= hex_pairs(data@, 0));
                }
                while i < n
                    invariant
                        i <= n,
                        n == data@.len(),
                        chars@ + hex_pairs(data@, i as int) == hex_pairs(data@, 0),
                        chars@.len() == 3 * i,
                    decreases n - i,
                {
                    let ghost before = chars@;
                    let b = *vstd::slice::slice_index_get(data, i);
                    let hi = b / 16;
                    let lo = b % 16;
                    chars.push(
                        if hi < 10 {
                            (48 + hi) as char
                        } else {
                            (55 + hi) as char
                        },
                    );
                    chars.push(
                        if lo < 10 {
                            (48 + lo) as char
                        } else {
                            (55 + lo) as char
                        },
                    );
                    chars.push(' ');
                    proof {
                        assert(chars@ =~= before + seq![
                            hex_digit(data@[i as int] / 16),
                            hex_digit(data@[i as int] % 16),
                            ' ',
                        ]);
                        assert(before + (seq![
                            hex_digit(data@[i as int] / 16),
                            hex_digit(data@[i as int] % 16),
                            ' ',
                        ] + hex_pairs(data@, i as int + 1)) =~= chars@ + hex_pairs(
                            data@,
                            i as int + 1,
                        ));
                    }
                    i = i + 1;
                }
                if chars.len() > 0 {
                    chars.pop();
                }
                proof {
                    assert(hex_pairs(data@, n as int) =~= Seq::<char>::empty());
                    if n > 0 {
                        assert(chars@ =~= hex_pairs(data@, 0).drop_last());
                    } else {
                        assert(chars@ =~= Seq::<char>::empty());
                    }
                }
                chars_to_string(&chars)
            },
        }
    }
}

} // verus!
