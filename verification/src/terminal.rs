use vstd::prelude::*;
use vstd::string::StringExecFns;

use crate::strings::clone_string;

verus! {

/// `a - b`, floored at zero.
pub open spec fn sat_sub(a: int, b: int) -> int {
    if a >= b {
        a - b
    } else {
        0
    }
}

/// `s` repeated `n` times.
pub open spec fn repeat_seq(s: Seq<char>, n: int) -> Seq<char>
    decreases n,
{
    if n <= 0 {
        Seq::empty()
    } else {
        repeat_seq(s, n - 1) + s
    }
}

/// Repeats a glyph `n` times.
fn repeat_str(s: &str, n: usize) -> (r: String)
    ensures
        r@ == repeat_seq(s@, n as int),
{
    let mut out = String::new();
    let mut i: usize = 0;
    while i < n
        invariant
            i <= n,
            out@ == repeat_seq(s@, i as int),
        decreases n - i,
    {
        out.append(s);
        i += 1;
    }
    out
}

/// One frame of the sliding-bar animation: a window of `extent` filled
/// glyphs at position `pos`, clipped to a bar of `width` cells, padded with
/// the empty glyph on both sides.
pub open spec fn template_line(
    width: int,
    extent: int,
    pos: int,
    on: Seq<char>,
    off: Seq<char>,
) -> Seq<char> {
    let pad_start = sat_sub(pos, extent);
    let within = sat_sub(sat_sub(extent, sat_sub(extent, pos)), sat_sub(pos + extent, width + extent));
    let pad_end = sat_sub(width + extent, pos + extent);
    repeat_seq(off, pad_start) + repeat_seq(on, within) + repeat_seq(off, pad_end)
}

/// The frames of the sliding-bar animation, one per window position, the
/// window entering from the left and leaving at the right.
pub fn generate_template(width: usize, extent: usize, ch1: &str, ch2: &str) -> (r: Vec<String>)
    requires
        width + extent + extent < usize::MAX,
    ensures
        r@.len() == width + extent + 1,
        forall|k: int| #![auto]
            0 <= k < r@.len() ==> r@[k]@ == template_line(
                width as int,
                extent as int,
                k,
                ch1@,
                ch2@,
            ),
{
    let count = width + extent;
    let mut out: Vec<String> = Vec::new();
    let mut pos: usize = 0;
    while pos < count + 1
        invariant
            count == width + extent,
            width + extent + extent < usize::MAX,
            pos <= count + 1,
            out@.len() == pos,
            forall|k: int| #![auto]
                0 <= k < pos ==> out@[k]@ == template_line(
                    width as int,
                    extent as int,
                    k,
                    ch1@,
                    ch2@,
                ),
        decreases count + 1 - pos,
    {
        let pad_start = if pos > extent {
            pos - extent
        } else {
            0
        };
        let s1 = if extent > pos {
            extent - pos
        } else {
            0
        };
        let s2 = if extent > s1 {
            extent - s1
        } else {
            0
        };
        let s3 = if pos + extent > count {
            pos + extent - count
        } else {
            0
        };
        let within = if s2 > s3 {
            s2 - s3
        } else {
            0
        };
        let pad_end = if count > pos + extent {
            count - (pos + extent)
        } else {
            0
        };
        let mut line = repeat_str(ch2, pad_start);
        let mid = repeat_str(ch1, within);
        let tail = repeat_str(ch2, pad_end);
        line.append(mid.as_str());
        line.append(tail.as_str());
        out.push(line);
        pos += 1;
    }
    out
}

/// The full spinner animation: the sliding bar forward, then the same
/// frames mirrored, so the window appears to bounce.
pub fn spinner_frames(width: usize, extent: usize, ch1: &str, ch2: &str) -> (r: Vec<String>)
    requires
        width + extent + extent < usize::MAX,
        2 * (width + extent + 1) <= usize::MAX,
    ensures
        r@.len() == 2 * (width + extent + 1),
        forall|k: int| #![auto]
            0 <= k < width + extent + 1 ==> r@[k]@ == template_line(
                width as int,
                extent as int,
                k,
                ch1@,
                ch2@,
            ),
        forall|k: int| #![auto]
            width + extent + 1 <= k < r@.len() ==> r@[k]@ == template_line(
                width as int,
                extent as int,
                2 * (width + extent + 1) - 1 - k,
                ch1@,
                ch2@,
            ),
{
    let mut out = generate_template(width, extent, ch1, ch2);
    let base = out.len();
    let mut j: usize = 0;
    while j < base
        invariant
            base == width + extent + 1,
            j <= base,
            out@.len() == base + j,
            forall|k: int| #![auto]
                0 <= k < base ==> out@[k]@ == template_line(
                    width as int,
                    extent as int,
                    k,
                    ch1@,
                    ch2@,
                ),
            forall|k: int| #![auto]
                base <= k < base + j ==> out@[k]@ == template_line(
                    width as int,
                    extent as int,
                    2 * base - 1 - k,
                    ch1@,
                    ch2@,
                ),
        decreases base - j,
    {
        let source = base - 1 - j;
        let frame = clone_string(&out[source]);
        out.push(frame);
        j += 1;
    }
    out
}

} // verus!
