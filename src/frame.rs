use vstd::prelude::*;

use crate::grid::{channel_byte, LEDCalculator, RGB};

verus! {

/// The byte that opens every frame on the serial link.
pub const FRAME_MARKER: u8 = 0x77;

/// Red, green and blue of each color in order, as low bytes.
pub open spec fn color_bytes(colors: Seq<RGB>) -> Seq<u8> {
    Seq::new(3 * colors.len(), |k: int| channel_byte(colors[k / 3], k % 3))
}

/// A payload behind the frame marker.
pub open spec fn framed(payload: Seq<u8>) -> Seq<u8> {
    seq![FRAME_MARKER] + payload
}

/// The wire frame for a sequence of colors: the marker, then one triple per color.
pub fn encode_frame(colors: &Vec<RGB>) -> (r: Vec<u8>)
    ensures
        r@ == framed(color_bytes(colors@)),
        r@.len() == 1 + 3 * colors@.len(),
{
    let mut buf: Vec<u8> = Vec::new();
    buf.push(FRAME_MARKER);
    let mut i: usize = 0;
    while i < colors.len()
        invariant
            i <= colors@.len(),
            buf@ == framed(color_bytes(colors@).subrange(0, 3 * i as int)),
        decreases colors@.len() - i,
    {
        let c = colors[i];
        buf.push((c.r % 256) as u8);
        buf.push((c.g % 256) as u8);
        buf.push((c.b % 256) as u8);
        proof {
            let all = color_bytes(colors@);
            assert(all[3 * i as int] == channel_byte(c, 0));
            assert(all[3 * i as int + 1] == channel_byte(c, 1));
            assert(all[3 * i as int + 2] == channel_byte(c, 2));
            assert(buf@ =~= framed(all.subrange(0, 3 * (i + 1) as int)));
        }
        i = i + 1;
    }
    assert(color_bytes(colors@).subrange(0, 3 * colors@.len() as int) =~= color_bytes(colors@));
    buf
}

/// The wire frame for `count` LEDs sampled around the border of an averaged grid.
pub fn perimeter_frame(calc: &LEDCalculator, count: usize) -> (r: Vec<u8>)
    requires
        calc.wf(),
    ensures
        r@ == framed(calc.led_bytes(count as nat)),
        r@.len() == 1 + 3 * count,
{
    let mut buf: Vec<u8> = Vec::new();
    buf.push(FRAME_MARKER);
    calc.write(count, &mut buf);
    assert(buf@ =~= framed(calc.led_bytes(count as nat)));
    buf
}

} // verus!
