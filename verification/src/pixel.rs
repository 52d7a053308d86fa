//! The pixel decoder: raw wire bytes plus a numeric pixel-format descriptor
//! are turned into RGB triples. Multi-byte samples are reassembled honoring
//! the declared byte order; each channel is extracted by shift-and-mask and,
//! when its maximum is not 255, linearly rescaled to the 0..=255 range.

use vstd::prelude::*;
use vstd::arithmetic::div_mod::{lemma_div_is_ordered, lemma_div_multiples_vanish};

verus! {

/// One pixel of the local framebuffer.
#[derive(Clone, Copy, Debug, PartialEq, Eq, Structural)]
pub struct Rgb {
    pub r: u8,
    pub g: u8,
    pub b: u8,
}

impl Rgb {
    /// The fallback color a freshly allocated framebuffer is filled with.
    pub open spec fn spec_black() -> Rgb {
        Rgb { r: 0, g: 0, b: 0 }
    }

    /// The fallback color a freshly allocated framebuffer is filled with.
    pub fn black() -> (c: Rgb)
        ensures
            c == Rgb::spec_black(),
    {
        Rgb { r: 0, g: 0, b: 0 }
    }
}

/// The numeric pixel encoding negotiated with the remote session: sample
/// width, byte order, and per-channel bit shift and maximum value.
#[derive(Clone, Copy, Debug, PartialEq, Eq, Structural)]
pub struct PixelFormat {
    pub bits_per_pixel: u8,
    pub big_endian: bool,
    pub red_max: u16,
    pub green_max: u16,
    pub blue_max: u16,
    pub red_shift: u8,
    pub green_shift: u8,
    pub blue_shift: u8,
}

impl PixelFormat {
    /// Only 1-, 2- and 4-byte samples are decodable.
    pub open spec fn spec_supported(self) -> bool {
        self.bits_per_pixel == 8 || self.bits_per_pixel == 16 || self.bits_per_pixel == 32
    }

    /// Bytes occupied by one pixel sample on the wire.
    pub open spec fn spec_bytes_per_pixel(self) -> int {
        self.bits_per_pixel as int / 8
    }

    /// Only 1-, 2- and 4-byte samples are decodable.
    pub fn supported(&self) -> (b: bool)
        ensures
            b == self.spec_supported(),
    {
        self.bits_per_pixel == 8 || self.bits_per_pixel == 16 || self.bits_per_pixel == 32
    }

    /// Bytes occupied by one pixel sample on the wire.
    pub fn bytes_per_pixel(&self) -> (n: u8)
        ensures
            n == self.spec_bytes_per_pixel(),
    {
        self.bits_per_pixel / 8
    }
}

/// The sample starting at byte `off`, reassembled from `n` bytes in the
/// declared byte order.
pub open spec fn spec_sample(bytes: Seq<u8>, off: int, n: int, big_endian: bool) -> u32 {
    if n == 1 {
        bytes[off] as u32
    } else if n == 2 {
        if big_endian {
            ((bytes[off] as u32) << 8) | (bytes[off + 1] as u32)
        } else {
            ((bytes[off + 1] as u32) << 8) | (bytes[off] as u32)
        }
    } else {
        if big_endian {
            ((bytes[off] as u32) << 24) | ((bytes[off + 1] as u32) << 16) | ((bytes[off
                + 2] as u32) << 8) | (bytes[off + 3] as u32)
        } else {
            ((bytes[off + 3] as u32) << 24) | ((bytes[off + 2] as u32) << 16) | ((bytes[off
                + 1] as u32) << 8) | (bytes[off] as u32)
        }
    }
}

/// The raw channel value: the sample shifted right and masked. A shift of
/// 32 or more moves every sample bit out, so the raw value is 0.
pub open spec fn spec_raw_channel(sample: u32, shift: u8, max: u16) -> u32 {
    if shift < 32 {
        (sample >> (shift as u32)) & (max as u32)
    } else {
        0
    }
}

/// Linear rescale of a raw channel value to the 0..=255 range, truncating.
/// A maximum of 255 passes the value through; a maximum of 0 is degenerate
/// and yields 0.
pub open spec fn spec_rescale(raw: u32, max: u16) -> u8 {
    if max == 255 {
        raw as u8
    } else if max > 0 {
        ((raw as int) * 255 / (max as int)) as u8
    } else {
        0
    }
}

/// One decoded 8-bit channel of a sample.
pub open spec fn spec_channel(sample: u32, shift: u8, max: u16) -> u8 {
    spec_rescale(spec_raw_channel(sample, shift, max), max)
}

/// The RGB triple a sample decodes to under a format.
pub open spec fn spec_decode(sample: u32, fmt: PixelFormat) -> Rgb {
    Rgb {
        r: spec_channel(sample, fmt.red_shift, fmt.red_max),
        g: spec_channel(sample, fmt.green_shift, fmt.green_max),
        b: spec_channel(sample, fmt.blue_shift, fmt.blue_max),
    }
}

/// Masking keeps a value at or below the mask.
pub proof fn lemma_and_mask_le(x: u32, m: u32)
    by (bit_vector)
    ensures
        x & m <= m,
{
}

/// Reassembles the sample starting at `off` from `n` bytes in the declared
/// byte order.
pub fn read_sample(bytes: &Vec<u8>, off: usize, n: u8, big_endian: bool) -> (s: u32)
    requires
        n == 1 || n == 2 || n == 4,
        off + n <= bytes@.len(),
    ensures
        s == spec_sample(bytes@, off as int, n as int, big_endian),
{
    let len = bytes.len();
    proof {
        assert(off + n <= len);
    }
    if n == 1 {
        bytes[off] as u32
    } else if n == 2 {
        if big_endian {
            ((bytes[off] as u32) << 8) | (bytes[off + 1] as u32)
        } else {
            ((bytes[off + 1] as u32) << 8) | (bytes[off] as u32)
        }
    } else {
        if big_endian {
            ((bytes[off] as u32) << 24) | ((bytes[off + 1] as u32) << 16) | ((bytes[off
                + 2] as u32) << 8) | (bytes[off + 3] as u32)
        } else {
            ((bytes[off + 3] as u32) << 24) | ((bytes[off + 2] as u32) << 16) | ((bytes[off
                + 1] as u32) << 8) | (bytes[off] as u32)
        }
    }
}

/// Extracts one channel from a sample and rescales it to 0..=255.
pub fn channel(sample: u32, shift: u8, max: u16) -> (c: u8)
    ensures
        c == spec_channel(sample, shift, max),
{
    let raw: u32 = if shift < 32 {
        let r = (sample >> (shift as u32)) & (max as u32);
        proof {
            lemma_and_mask_le(sample >> (shift as u32), max as u32);
        }
        r
    } else {
        0
    };
    if max == 255 {
        raw as u8
    } else if max > 0 {
        proof {
            lemma_rescale_le_255(max, raw);
        }
        (raw * 255 / (max as u32)) as u8
    } else {
        0
    }
}

/// Decodes one sample into an RGB triple under a format.
pub fn decode(sample: u32, fmt: &PixelFormat) -> (c: Rgb)
    ensures
        c == spec_decode(sample, *fmt),
{
    Rgb {
        r: channel(sample, fmt.red_shift, fmt.red_max),
        g: channel(sample, fmt.green_shift, fmt.green_max),
        b: channel(sample, fmt.blue_shift, fmt.blue_max),
    }
}

/// With channel maximum 255 at shift 0, decoding reproduces the exact
/// low-order input byte of the sample, for every supported sample width and
/// both byte orders: the byte at the lowest wire offset for little-endian
/// data is the low byte, for big-endian data it is the highest-offset byte.
pub proof fn lemma_identity_channel(bytes: Seq<u8>, off: int, n: int, big_endian: bool)
    requires
        n == 1 || n == 2 || n == 4,
        0 <= off,
        off + n <= bytes.len(),
    ensures
        spec_channel(spec_sample(bytes, off, n, big_endian), 0, 255) == if big_endian {
            bytes[off + n - 1]
        } else {
            bytes[off]
        },
{
    let s = spec_sample(bytes, off, n, big_endian);
    if n == 1 {
        let b0 = bytes[off];
        assert(((b0 as u32) >> 0u32) & 255 == b0) by (bit_vector);
    } else if n == 2 {
        let hi = if big_endian { bytes[off] } else { bytes[off + 1] };
        let lo = if big_endian { bytes[off + 1] } else { bytes[off] };
        assert(((((hi as u32) << 8) | (lo as u32)) >> 0u32) & 255 == lo) by (bit_vector);
    } else {
        let b3 = if big_endian { bytes[off] } else { bytes[off + 3] };
        let b2 = if big_endian { bytes[off + 1] } else { bytes[off + 2] };
        let b1 = if big_endian { bytes[off + 2] } else { bytes[off + 1] };
        let b0 = if big_endian { bytes[off + 3] } else { bytes[off] };
        assert(((((b3 as u32) << 24) | ((b2 as u32) << 16) | ((b1 as u32) << 8) | (b0 as u32))
            >> 0u32) & 255 == b0) by (bit_vector);
    }
    assert(spec_rescale(s & 255, 255) == (s & 255) as u8);
}

/// Rescaling maps the endpoints exactly: a raw value of 0 yields channel 0,
/// and a raw value equal to the (positive) maximum yields channel 255.
pub proof fn lemma_rescale_endpoints(max: u16)
    ensures
        spec_rescale(0, max) == 0,
        max > 0 ==> spec_rescale(max as u32, max) == 255,
{
    if max > 0 && max != 255 {
        assert((max as int) * 255 == (max as int) * 255);
        lemma_div_multiples_vanish(255, max as int);
        assert((max as int) * 255 / (max as int) == 255);
    }
}

/// Rescaling is monotonic on raw values bounded by the channel maximum.
pub proof fn lemma_rescale_monotonic(max: u16, raw1: u32, raw2: u32)
    requires
        raw1 <= raw2 <= max,
    ensures
        spec_rescale(raw1, max) <= spec_rescale(raw2, max),
{
    if max == 255 {
        assert(spec_rescale(raw1, max) == raw1 && spec_rescale(raw2, max) == raw2);
    } else if max > 0 {
        lemma_div_is_ordered((raw1 as int) * 255, (raw2 as int) * 255, max as int);
        lemma_rescale_le_255(max, raw1);
        lemma_rescale_le_255(max, raw2);
    }
}

/// A rescaled channel never exceeds 255, so truncation to `u8` is exact.
pub proof fn lemma_rescale_le_255(max: u16, raw: u32)
    requires
        raw <= max,
        max > 0,
    ensures
        (raw as int) * 255 / (max as int) <= 255,
        spec_rescale(raw, max) == (raw as int) * 255 / (max as int),
{
    lemma_div_is_ordered((raw as int) * 255, (max as int) * 255, max as int);
    lemma_div_multiples_vanish(255, max as int);
    assert((max as int) * 255 == (max as int) * 255);
    assert((max as int) * 255 / (max as int) == 255);
    if max == 255 {
        lemma_div_multiples_vanish(raw as int, 255);
        assert(255 * (raw as int) == (raw as int) * 255);
        assert((raw as int) * 255 / 255 == raw as int);
    }
}

} // verus!
