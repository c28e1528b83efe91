//! Wire packets: the config announcement, the compressed delta frame, the
//! full-image fallback, the session greeting, and the framebuffer address
//! parser.

use vstd::prelude::*;
use vstd::arithmetic::div_mod::lemma_fundamental_div_mod;
use crate::devices::Device;
use crate::delta::append_bytes;
use crate::wire::{push_be32, spec_be32};

verus! {

/// What the DEFLATE compressor produces, at its default level, for a byte
/// string; the result depends on the input bytes alone.
pub uninterp spec fn deflate_of(data: Seq<u8>) -> Seq<u8>;

/// Relies on flate2's `DeflateEncoder` at `Compression::default()` writing
/// into a `Vec`: the whole input is compressed, writes into a `Vec` cannot
/// fail, and the output is a function of the input bytes alone.
#[verifier::external_body]
fn deflate_compress(data: &Vec<u8>) -> (r: Vec<u8>)
    ensures
        r@ == deflate_of(data@),
{
    let mut enc = flate2::write::DeflateEncoder::new(Vec::new(), flate2::Compression::default());
    std::io::Write::write_all(&mut enc, data.as_slice()).unwrap();
    enc.finish().unwrap()
}

/// What the PNG encoder produces for an 8-bit RGBA image of the given
/// dimensions; the result depends on the dimensions and pixel bytes alone.
pub uninterp spec fn png_of(width: u32, height: u32, rgba: Seq<u8>) -> Seq<u8>;

/// Relies on png's `Encoder` writing an RGBA 8-bit image into a `Vec`: with
/// nonzero dimensions and exactly `width * height * 4` data bytes both
/// `write_header` and `write_image_data` succeed, and the output is a
/// function of the dimensions and pixel bytes alone.
#[verifier::external_body]
fn png_encode_rgba(width: u32, height: u32, rgba: &Vec<u8>) -> (r: Vec<u8>)
    requires
        0 < width,
        0 < height,
        width * height * 4 < 0x8000_0000,
        rgba@.len() == width * height * 4,
    ensures
        r@ == png_of(width, height, rgba@),
{
    let mut out: Vec<u8> = Vec::new();
    let mut enc = png::Encoder::new(&mut out, width, height);
    enc.set_color(png::ColorType::Rgba);
    enc.set_depth(png::BitDepth::Eight);
    let mut writer = enc.write_header().unwrap();
    writer.write_image_data(rgba.as_slice()).unwrap();
    drop(writer);
    out
}

/// Wire form of the config packet: tag 0, then width and height big-endian.
pub open spec fn spec_config_packet(width: int, height: int) -> Seq<u8> {
    seq![0u8] + spec_be32(width) + spec_be32(height)
}

/// Wire form of a delta frame: tag 1, the big-endian uncompressed length of
/// the serialized runs, then their DEFLATE compression.
pub open spec fn spec_delta_packet(deltas: Seq<u8>) -> Seq<u8> {
    seq![1u8] + spec_be32(deltas.len() as int) + deflate_of(deltas)
}

/// Wire form of a full-image fallback packet: tag 3, then the PNG bytes.
pub open spec fn spec_png_packet(width: u32, height: u32, rgba: Seq<u8>) -> Seq<u8> {
    seq![3u8] + png_of(width, height, rgba)
}

/// Builds the config packet announcing the device's resolution.
pub fn get_config_packet(device: &Device) -> (r: Vec<u8>)
    ensures
        r@ == spec_config_packet(device.width as int, device.height as int),
{
    let mut config: Vec<u8> = Vec::new();
    config.push(0);
    push_be32(&mut config, device.width);
    push_be32(&mut config, device.height);
    assert(config@ =~= spec_config_packet(device.width as int, device.height as int));
    config
}

/// Frames serialized delta runs for the wire.  The four length bytes always
/// hold exactly the uncompressed length of the compressed payload.
pub fn build_delta_packet(deltas: &Vec<u8>) -> (r: Vec<u8>)
    requires
        deltas@.len() <= u32::MAX,
    ensures
        r@ == spec_delta_packet(deltas@),
{
    let compressed = deflate_compress(deltas);
    let mut out: Vec<u8> = Vec::new();
    out.push(1);
    push_be32(&mut out, deltas.len() as u32);
    append_bytes(&mut out, &compressed);
    assert(out@ =~= spec_delta_packet(deltas@));
    out
}

/// Builds the full-image fallback packet from a baseline RGBA frame.
pub fn get_current_screen_as_png(device: &Device, rgba: &Vec<u8>) -> (r: Vec<u8>)
    requires
        device.wf(),
        rgba@.len() == device.rgba_len(),
    ensures
        r@ == spec_png_packet(device.width, device.height, rgba@),
{
    proof {
        assert(device.width * device.height * 4 < 0x8000_0000) by (nonlinear_arith)
            requires
                0 < device.width <= 16384,
                0 < device.height <= 16384,
        ;
    }
    let png_bytes = png_encode_rgba(device.width, device.height, rgba);
    let mut out: Vec<u8> = Vec::new();
    out.push(3);
    append_bytes(&mut out, &png_bytes);
    assert(out@ =~= spec_png_packet(device.width, device.height, rgba@));
    out
}

/// The two greeting messages of a fresh session, in order: the config packet
/// always comes first, the baseline PNG always second.
pub fn session_greeting(device: &Device, baseline_rgba: &Vec<u8>) -> (r: Vec<Vec<u8>>)
    requires
        device.wf(),
        baseline_rgba@.len() == device.rgba_len(),
    ensures
        r@.len() == 2,
        r@[0]@ == spec_config_packet(device.width as int, device.height as int),
        r@[1]@ == spec_png_packet(device.width, device.height, baseline_rgba@),
{
    let mut msgs: Vec<Vec<u8>> = Vec::new();
    msgs.push(get_config_packet(device));
    msgs.push(get_current_screen_as_png(device, baseline_rgba));
    msgs
}

/// Value of one ASCII hex digit, or 16 for any other byte.
pub open spec fn spec_hex_digit(b: u8) -> int {
    if 48 <= b <= 57 {
        b - 48
    } else if 97 <= b <= 102 {
        b - 87
    } else if 65 <= b <= 70 {
        b - 55
    } else {
        16
    }
}

/// The byte is an ASCII hex digit.
pub open spec fn spec_is_hex_digit(b: u8) -> bool {
    spec_hex_digit(b) < 16
}

/// Value of a hex digit string, most significant digit first.
pub open spec fn spec_hex_value(s: Seq<u8>) -> int
    decreases s.len(),
{
    if s.len() == 0 {
        0
    } else {
        spec_hex_value(s.drop_last()) * 16 + spec_hex_digit(s.last())
    }
}

/// A framebuffer address string is well formed when `0x` precedes at least
/// one hex digit and nothing else follows.
pub open spec fn spec_fb_addr_wf(s: Seq<u8>) -> bool {
    s.len() > 2 && s[0] == 48 && s[1] == 120 && (forall|i: int|
        2 <= i < s.len() ==> spec_is_hex_digit(#[trigger] s[i]))
}

proof fn lemma_hex_value_nonneg(s: Seq<u8>)
    ensures
        spec_hex_value(s) >= 0,
    decreases s.len(),
{
    if s.len() > 0 {
        lemma_hex_value_nonneg(s.drop_last());
    }
}

proof fn lemma_hex_value_prefix_monotone(s: Seq<u8>, k: int)
    requires
        0 <= k <= s.len(),
    ensures
        spec_hex_value(s) >= spec_hex_value(s.take(k)),
    decreases s.len() - k,
{
    if k < s.len() {
        lemma_hex_value_nonneg(s.drop_last());
        assert(spec_hex_value(s) >= spec_hex_value(s.drop_last()));
        assert(s.drop_last().take(k) =~= s.take(k));
        lemma_hex_value_prefix_monotone(s.drop_last(), k);
    } else {
        assert(s.take(k) =~= s);
    }
}

/// Parses a `0x…` hexadecimal framebuffer address.  Returns the value exactly
/// when the string is well formed and the value fits 64 bits; `None` names
/// every other input.
pub fn parse_fb_address(s: &Vec<u8>) -> (r: Option<u64>)
    ensures
        match r {
            Some(v) => spec_fb_addr_wf(s@) && v as int == spec_hex_value(
                s@.subrange(2, s@.len() as int),
            ),
            None => !spec_fb_addr_wf(s@) || spec_hex_value(s@.subrange(2, s@.len() as int))
                > u64::MAX,
        },
{
    let len = s.len();
    if len <= 2 {
        return None;
    }
    if s[0] != 48 || s[1] != 120 {
        return None;
    }
    let ghost digits = s@.subrange(2, s@.len() as int);
    let mut acc: u64 = 0;
    let mut i: usize = 2;
    while i < len
        invariant
            len == s@.len(),
            digits == s@.subrange(2, len as int),
            2 <= i <= len,
            s@[0] == 48,
            s@[1] == 120,
            forall|j: int| 2 <= j < i ==> spec_is_hex_digit(#[trigger] s@[j]),
            acc as int == spec_hex_value(s@.subrange(2, i as int)),
        decreases len - i,
    {
        let b = s[i];
        let d: u64 = if 48 <= b && b <= 57 {
            (b - 48) as u64
        } else if 97 <= b && b <= 102 {
            (b - 87) as u64
        } else if 65 <= b && b <= 70 {
            (b - 55) as u64
        } else {
            assert(!spec_is_hex_digit(s@[i as int]));
            assert(!spec_fb_addr_wf(s@));
            return None;
        };
        assert(d as int == spec_hex_digit(s@[i as int]) && d < 16);
        if acc >= 0x1000_0000_0000_0000 {
            proof {
                let prefix = s@.subrange(2, i + 1);
                assert(prefix.drop_last() =~= s@.subrange(2, i as int));
                assert(prefix.last() == s@[i as int]);
                assert(spec_hex_value(prefix) == acc * 16 + d);
                assert(digits.take(i - 1) =~= prefix);
                lemma_hex_value_prefix_monotone(digits, i - 1);
                assert(spec_hex_value(digits) > u64::MAX);
            }
            return None;
        }
        acc = acc * 16 + d;
        proof {
            let prefix = s@.subrange(2, i + 1);
            assert(prefix.drop_last() =~= s@.subrange(2, i as int));
            assert(prefix.last() == s@[i as int]);
        }
        i = i + 1;
    }
    proof {
        assert(s@.subrange(2, i as int) =~= digits);
    }
    Some(acc)
}

} // verus!
