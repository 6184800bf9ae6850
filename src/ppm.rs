//! The bytes of a binary pixel-map (P6) file and the name each frame's file
//! gets.
use vstd::prelude::*;
use crate::frame::{frame_len, FrameBuffer};

verus! {

/// ASCII decimal digits of `n`, most significant first, with no leading zero.
pub open spec fn decimal(n: nat) -> Seq<u8>
    decreases n,
{
    if n < 10 {
        seq![(48 + n) as u8]
    } else {
        decimal(n / 10).push((48 + n % 10) as u8)
    }
}

/// `n` in decimal, with `'0'`s in front up to `width` digits.
pub open spec fn zero_padded(n: nat, width: nat) -> Seq<u8> {
    let d = decimal(n);
    if d.len() >= width {
        d
    } else {
        Seq::new((width - d.len()) as nat, |i: int| 48u8) + d
    }
}

/// `"P6\n<size> <size>\n255\n"`.
pub open spec fn header(size: nat) -> Seq<u8> {
    seq![80u8, 54u8, 10u8] + decimal(size) + seq![32u8] + decimal(size) + seq![
        10u8,
        50u8,
        53u8,
        53u8,
        10u8,
    ]
}

/// `"frames/frame_<index, four digits at least>.ppm"`.
pub open spec fn file_name(index: nat) -> Seq<u8> {
    seq![102u8, 114u8, 97u8, 109u8, 101u8, 115u8, 47u8, 102u8, 114u8, 97u8, 109u8, 101u8, 95u8]
        + zero_padded(index, 4) + seq![46u8, 112u8, 112u8, 109u8]
}

/// Appends the decimal digits of `n` to `out`.
pub fn push_decimal(out: &mut Vec<u8>, n: usize)
    ensures
        final(out)@ == old(out)@ + decimal(n as nat),
    decreases n,
{
    if n >= 10 {
        push_decimal(out, n / 10);
    }
    out.push((48 + n % 10) as u8);
    proof {
        if n < 10 {
            assert(decimal(n as nat) =~= seq![(48 + n) as u8]);
        }
    }
}

/// Number of decimal digits of `n`.
pub fn decimal_len(n: usize) -> (r: usize)
    ensures
        r == decimal(n as nat).len(),
        1 <= r <= n + 1,
    decreases n,
{
    if n < 10 {
        1
    } else {
        1 + decimal_len(n / 10)
    }
}

/// Appends `n` in decimal, zero-padded to at least `width` digits.
pub fn push_zero_padded(out: &mut Vec<u8>, n: usize, width: usize)
    ensures
        final(out)@ == old(out)@ + zero_padded(n as nat, width as nat),
{
    let d = decimal_len(n);
    let ghost start = out@;
    if d < width {
        let pad = width - d;
        let mut i: usize = 0;
        while i < pad
            invariant
                i <= pad,
                out@ == start + Seq::new(i as nat, |j: int| 48u8),
            decreases pad - i,
        {
            out.push(48u8);
            i = i + 1;
            assert(out@ =~= start + Seq::new(i as nat, |j: int| 48u8));
        }
    }
    push_decimal(out, n);
    assert(final(out)@ =~= old(out)@ + zero_padded(n as nat, width as nat));
}

/// The file header for a frame of side `size`: `"P6\n<size> <size>\n255\n"`.
pub fn ppm_header(size: usize) -> (r: Vec<u8>)
    ensures
        r@ == header(size as nat),
{
    let mut out: Vec<u8> = Vec::new();
    out.push(80u8);
    out.push(54u8);
    out.push(10u8);
    push_decimal(&mut out, size);
    out.push(32u8);
    push_decimal(&mut out, size);
    out.push(10u8);
    out.push(50u8);
    out.push(53u8);
    out.push(53u8);
    out.push(10u8);
    assert(out@ =~= header(size as nat));
    out
}

/// The path of frame `index`'s file: `"frames/frame_0007.ppm"` for 7.
pub fn frame_file_name(index: usize) -> (r: Vec<u8>)
    ensures
        r@ == file_name(index as nat),
{
    let mut out: Vec<u8> = Vec::new();
    out.push(102u8);
    out.push(114u8);
    out.push(97u8);
    out.push(109u8);
    out.push(101u8);
    out.push(115u8);
    out.push(47u8);
    out.push(102u8);
    out.push(114u8);
    out.push(97u8);
    out.push(109u8);
    out.push(101u8);
    out.push(95u8);
    push_zero_padded(&mut out, index, 4);
    out.push(46u8);
    out.push(112u8);
    out.push(112u8);
    out.push(109u8);
    assert(out@ =~= file_name(index as nat));
    out
}

/// The whole file of a frame: its header, then its bytes with nothing after.
pub fn ppm_image(frame: &FrameBuffer) -> (r: Vec<u8>)
    requires
        frame.wf(),
    ensures
        r@ == header(frame.spec_size()) + frame@,
        r@.len() == header(frame.spec_size()).len() + frame_len(frame.spec_size()),
{
    let mut out = ppm_header(frame.size());
    let bytes = frame.as_bytes();
    let n = frame.len();
    let ghost h = out@;
    let mut i: usize = 0;
    while i < n
        invariant
            i <= n,
            n == bytes@.len(),
            out@ == h + bytes@.subrange(0, i as int),
        decreases n - i,
    {
        out.push(bytes[i]);
        i = i + 1;
        assert(out@ =~= h + bytes@.subrange(0, i as int));
    }
    assert(bytes@.subrange(0, n as int) =~= bytes@);
    out
}

} // verus!
