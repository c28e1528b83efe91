//! Device profiles: per-model screen geometry, pixel format, and digitizer
//! translation, together with model detection from the machine identity
//! string.

use vstd::prelude::*;
use vstd::arithmetic::div_mod::{
    lemma_div_is_ordered, lemma_div_is_ordered_by_denominator, lemma_div_pos_is_pos,
};

verus! {

/// How the raw framebuffer encodes one pixel.
#[derive(Clone, Copy, Debug)]
pub enum PixelFormat {
    /// Four bytes per pixel, blue-green-red-alpha order.
    Bgra,
    /// Two bytes per pixel, little-order 16-bit word holding 5-6-5 red-green-blue.
    Rgb565,
}

/// How raw digitizer coordinates map onto the screen.
#[derive(Clone, Copy, Debug)]
pub enum DigitizerOrientation {
    /// X and Y scale directly to percentages.
    Identity,
    /// The digitizer is rotated: screen X comes from inverted device Y, screen Y from device X.
    Rotated,
}

/// The supported tablet models.
#[derive(Clone, Copy, Debug)]
pub enum ReMarkableDevice {
    RM2,
    PaperPro,
    PaperProMove,
}

/// Static per-model descriptor.
///
/// Digitizer maxima are whole device units; coordinate normalization is
/// integer truncation of `(v * 100) / max`.
#[derive(Clone, Copy, Debug)]
pub struct Device {
    pub width: u32,
    pub height: u32,
    pub fb_size: usize,
    pub pixel_format: PixelFormat,
    pub digitizer_path: &'static str,
    pub digitizer_orientation: DigitizerOrientation,
    pub max_digitizer_width: u32,
    pub max_digitizer_height: u32,
}

/// Bytes one source pixel occupies in the raw framebuffer.
pub open spec fn bytes_per_source_pixel(f: PixelFormat) -> int {
    match f {
        PixelFormat::Bgra => 4,
        PixelFormat::Rgb565 => 2,
    }
}

impl Device {
    /// Well-formedness: the framebuffer size matches the geometry, the
    /// dimensions are small enough that every derived byte count fits 32 bits,
    /// and the digitizer maxima are genuine axis ranges.
    pub open spec fn wf(self) -> bool {
        &&& 0 < self.width <= 16384
        &&& 0 < self.height <= 16384
        &&& self.fb_size == self.width * self.height * bytes_per_source_pixel(self.pixel_format)
        &&& 100 < self.max_digitizer_width <= 65536
        &&& 100 < self.max_digitizer_height <= 65536
    }

    /// Length in bytes of one translated RGBA frame.
    pub open spec fn rgba_len(self) -> int {
        self.width * self.height * 4
    }
}

/// `(v * 100) / max`, truncated toward zero as both the reference mapping and
/// Rust's integer division do.
pub open spec fn spec_axis_scale(v: int, max: int) -> int {
    if v >= 0 {
        (v * 100) / max
    } else {
        -((-v * 100) / max)
    }
}

/// Distance is clamped to at most 1 before emission.
pub open spec fn spec_clamp_distance(d: int) -> int {
    if d < 1 {
        d
    } else {
        1
    }
}

/// The normalized `(nx, ny, nd)` triple the device's digitizer mapping
/// produces from raw axis values.
pub open spec fn spec_digitizer_translate(dev: Device, x: int, y: int, d: int) -> (int, int, int) {
    match dev.digitizer_orientation {
        DigitizerOrientation::Identity => (
            spec_axis_scale(x, dev.max_digitizer_width as int),
            spec_axis_scale(y, dev.max_digitizer_height as int),
            spec_clamp_distance(d),
        ),
        DigitizerOrientation::Rotated => (
            spec_axis_scale(dev.max_digitizer_height - y, dev.max_digitizer_height as int),
            spec_axis_scale(x, dev.max_digitizer_width as int),
            spec_clamp_distance(d),
        ),
    }
}

/// Scales one axis value to a 0-100 percentage by truncating division.
fn scale_axis(v: i64, max: u32) -> (r: i32)
    requires
        100 < max,
        -0x8001_0000 <= v <= 0x8001_0000,
    ensures
        r as int == spec_axis_scale(v as int, max as int),
{
    proof {
        lemma_axis_scale_bound(if v >= 0 { v as int } else { -(v as int) }, max as int);
    }
    if v >= 0 {
        let t: i64 = v * 100 / (max as i64);
        t as i32
    } else {
        let t: i64 = (-v) * 100 / (max as i64);
        proof {
            assert(t == ((-(v as int)) * 100) / (max as int));
        }
        (-t) as i32
    }
}

/// The truncated scaling of a magnitude below `0x8001_0000` stays within `i32`.
proof fn lemma_axis_scale_bound(a: int, max: int)
    requires
        0 <= a <= 0x8001_0000,
        100 < max,
    ensures
        0 <= (a * 100) / max < 0x8000_0000,
{
    lemma_div_pos_is_pos(a * 100, max);
    lemma_div_is_ordered_by_denominator(a * 100, 101, max);
    lemma_div_is_ordered(a * 100, 0x8001_0000int * 100, 101);
    assert(0x8001_0000int * 100 / 101 < 0x8000_0000) by (nonlinear_arith);
}

/// Identity digitizer mapping: direct scaling of X and Y, distance clamped.
pub fn rmpp_digitizer_translator(device: &Device, x: i32, y: i32, d: i32) -> (r: (i32, i32, i32))
    requires
        device.wf(),
    ensures
        r.0 as int == spec_axis_scale(x as int, device.max_digitizer_width as int),
        r.1 as int == spec_axis_scale(y as int, device.max_digitizer_height as int),
        r.2 as int == spec_clamp_distance(d as int),
{
    let nx = scale_axis(x as i64, device.max_digitizer_width);
    let ny = scale_axis(y as i64, device.max_digitizer_height);
    let nd = if d < 1 { d } else { 1 };
    (nx, ny, nd)
}

/// Rotated digitizer mapping: screen X from inverted device Y, screen Y from
/// device X, distance clamped.
pub fn rm2_digitizer_translator(device: &Device, x: i32, y: i32, d: i32) -> (r: (i32, i32, i32))
    requires
        device.wf(),
    ensures
        r.0 as int == spec_axis_scale(
            device.max_digitizer_height - y,
            device.max_digitizer_height as int,
        ),
        r.1 as int == spec_axis_scale(x as int, device.max_digitizer_width as int),
        r.2 as int == spec_clamp_distance(d as int),
{
    let inv: i64 = device.max_digitizer_height as i64 - y as i64;
    let nx = scale_axis(inv, device.max_digitizer_height);
    let ny = scale_axis(x as i64, device.max_digitizer_width);
    let nd = if d < 1 { d } else { 1 };
    (nx, ny, nd)
}

/// Applies the device's digitizer mapping.
pub fn digitizer_translate(device: &Device, x: i32, y: i32, d: i32) -> (r: (i32, i32, i32))
    requires
        device.wf(),
    ensures
        (r.0 as int, r.1 as int, r.2 as int) == spec_digitizer_translate(
            *device,
            x as int,
            y as int,
            d as int,
        ),
{
    match device.digitizer_orientation {
        DigitizerOrientation::Identity => rmpp_digitizer_translator(device, x, y, d),
        DigitizerOrientation::Rotated => rm2_digitizer_translator(device, x, y, d),
    }
}

/// Channel-reordered view of a BGRA byte sequence: each aligned 4-byte pixel
/// `[b, g, r, a]` becomes `[r, g, b, a]`.
pub open spec fn spec_bgra_to_rgba(s: Seq<u8>) -> Seq<u8> {
    Seq::new(
        s.len(),
        |i: int|
            if i % 4 == 0 {
                s[i + 2]
            } else if i % 4 == 2 {
                s[i - 2]
            } else {
                s[i]
            },
    )
}

/// RGBA expansion of an RGB565 byte sequence: each aligned 2-byte pixel is a
/// little-order 16-bit word whose 5-6-5 fields widen to 8-bit channels with an
/// opaque alpha.
pub open spec fn spec_rgb565_to_rgba(s: Seq<u8>) -> Seq<u8> {
    Seq::new(
        s.len() / 2 * 4,
        |i: int|
            {
                let p = i / 4;
                let w = s[2 * p + 1] * 256 + s[2 * p];
                if i % 4 == 0 {
                    (((w / 2048) % 32) * 8) as u8
                } else if i % 4 == 1 {
                    (((w / 32) % 64) * 4) as u8
                } else if i % 4 == 2 {
                    ((w % 32) * 8) as u8
                } else {
                    0xFFu8
                }
            },
    )
}

/// The canonical RGBA frame the device's pixel format produces from a raw
/// framebuffer.
pub open spec fn spec_translate_frame(dev: Device, raw: Seq<u8>) -> Seq<u8> {
    match dev.pixel_format {
        PixelFormat::Bgra => spec_bgra_to_rgba(raw),
        PixelFormat::Rgb565 => spec_rgb565_to_rgba(raw),
    }
}

/// A well-formed raw frame translates to exactly `width * height * 4` bytes.
pub proof fn lemma_translate_frame_len(dev: Device, raw: Seq<u8>)
    requires
        dev.wf(),
        raw.len() == dev.fb_size,
    ensures
        spec_translate_frame(dev, raw).len() == dev.rgba_len(),
{
    match dev.pixel_format {
        PixelFormat::Bgra => {},
        PixelFormat::Rgb565 => {
            let n = dev.width * dev.height;
            assert(raw.len() == n * 2);
            assert(n * 2 / 2 == n) by (nonlinear_arith);
        },
    }
}

/// Translating the same channel reordering twice restores the original bytes:
/// the BGRA translator is a self-inverse permutation of channel order.
pub proof fn lemma_bgra_translator_self_inverse(s: Seq<u8>)
    requires
        s.len() % 4 == 0,
    ensures
        spec_bgra_to_rgba(spec_bgra_to_rgba(s)) == s,
{
    let t = spec_bgra_to_rgba(s);
    let u = spec_bgra_to_rgba(t);
    assert forall|i: int| 0 <= i < s.len() implies u[i] == s[i] by {
        if i % 4 == 0 {
            assert((i + 2) % 4 == 2);
            assert(u[i] == t[i + 2]);
        } else if i % 4 == 2 {
            assert((i - 2) % 4 == 0);
            assert(u[i] == t[i - 2]);
        }
    }
    assert(u =~= s);
}

/// Reorders a raw BGRA framebuffer into canonical RGBA, pixel by pixel.
pub fn rgba_image_data_translator(device: &Device, in_data: &Vec<u8>, out_data: &mut Vec<u8>)
    requires
        device.wf(),
        device.pixel_format is Bgra,
        in_data@.len() == device.fb_size,
        old(out_data)@.len() == device.rgba_len(),
    ensures
        final(out_data)@ == spec_bgra_to_rgba(in_data@),
{
    proof {
        assert(device.width * device.height <= 16384 * 16384) by (nonlinear_arith)
            requires
                0 < device.width <= 16384,
                0 < device.height <= 16384,
        ;
    }
    let n_px: usize = (device.width as usize) * (device.height as usize);
    let ghost src = in_data@;
    let mut i: usize = 0;
    while i < n_px
        invariant
            i <= n_px,
            n_px <= 0x1000_0000,
            in_data@ == src,
            src.len() == 4 * n_px,
            out_data@.len() == 4 * n_px,
            forall|j: int| 0 <= j < 4 * i ==> out_data@[j] == spec_bgra_to_rgba(src)[j],
        decreases n_px - i,
    {
        let a = in_data[4 * i + 2];
        let b = in_data[4 * i + 1];
        let c = in_data[4 * i];
        let d = in_data[4 * i + 3];
        out_data[4 * i] = a;
        out_data[4 * i + 1] = b;
        out_data[4 * i + 2] = c;
        out_data[4 * i + 3] = d;
        proof {
            let k = 4 * i as int;
            assert(k % 4 == 0 && (k + 1) % 4 == 1 && (k + 2) % 4 == 2 && (k + 3) % 4 == 3);
        }
        i = i + 1;
    }
    assert(out_data@ =~= spec_bgra_to_rgba(src));
}

/// Expands a raw RGB565 framebuffer into canonical RGBA, pixel by pixel.
pub fn rgb565_image_data_translator(device: &Device, in_data: &Vec<u8>, out_data: &mut Vec<u8>)
    requires
        device.wf(),
        device.pixel_format is Rgb565,
        in_data@.len() == device.fb_size,
        old(out_data)@.len() == device.rgba_len(),
    ensures
        final(out_data)@ == spec_rgb565_to_rgba(in_data@),
{
    proof {
        assert(device.width * device.height <= 16384 * 16384) by (nonlinear_arith)
            requires
                0 < device.width <= 16384,
                0 < device.height <= 16384,
        ;
        lemma_translate_frame_len(*device, in_data@);
    }
    let n_px: usize = (device.width as usize) * (device.height as usize);
    let ghost src = in_data@;
    let mut i: usize = 0;
    while i < n_px
        invariant
            i <= n_px,
            n_px <= 0x1000_0000,
            in_data@ == src,
            src.len() == 2 * n_px,
            out_data@.len() == 4 * n_px,
            spec_rgb565_to_rgba(src).len() == 4 * n_px,
            forall|j: int| 0 <= j < 4 * i ==> out_data@[j] == spec_rgb565_to_rgba(src)[j],
        decreases n_px - i,
    {
        let hi = in_data[2 * i + 1] as u16;
        let lo = in_data[2 * i] as u16;
        let word: u16 = hi * 256 + lo;
        let r = ((word / 2048) % 32 * 8) as u8;
        let g = ((word / 32) % 64 * 4) as u8;
        let b = ((word % 32) * 8) as u8;
        out_data[4 * i] = r;
        out_data[4 * i + 1] = g;
        out_data[4 * i + 2] = b;
        out_data[4 * i + 3] = 0xFF;
        proof {
            let k = 4 * i as int;
            assert(k % 4 == 0 && (k + 1) % 4 == 1 && (k + 2) % 4 == 2 && (k + 3) % 4 == 3);
            assert(k / 4 == i as int && (k + 1) / 4 == i as int && (k + 2) / 4 == i as int && (k
                + 3) / 4 == i as int);
        }
        i = i + 1;
    }
    assert(out_data@ =~= spec_rgb565_to_rgba(src));
}

/// Translates a raw framebuffer through the device's pixel format.
pub fn translate_image_data(device: &Device, in_data: &Vec<u8>, out_data: &mut Vec<u8>)
    requires
        device.wf(),
        in_data@.len() == device.fb_size,
        old(out_data)@.len() == device.rgba_len(),
    ensures
        final(out_data)@ == spec_translate_frame(*device, in_data@),
        final(out_data)@.len() == device.rgba_len(),
{
    proof {
        lemma_translate_frame_len(*device, in_data@);
    }
    match device.pixel_format {
        PixelFormat::Bgra => rgba_image_data_translator(device, in_data, out_data),
        PixelFormat::Rgb565 => rgb565_image_data_translator(device, in_data, out_data),
    }
}

/// The static profile of each supported model.
pub fn get_device_info(kind: ReMarkableDevice) -> (r: Device)
    ensures
        r.wf(),
        match kind {
            ReMarkableDevice::PaperPro => {
                &&& r.width == 1632
                &&& r.height == 2154
                &&& r.fb_size == 1632 * 2154 * 4
                &&& r.pixel_format is Bgra
                &&& r.digitizer_path@ == "/dev/input/event2"@
                &&& r.digitizer_orientation is Identity
                &&& r.max_digitizer_width == 11180
                &&& r.max_digitizer_height == 15340
            },
            ReMarkableDevice::PaperProMove => {
                &&& r.width == 960
                &&& r.height == 1696
                &&& r.fb_size == 960 * 1696 * 4
                &&& r.pixel_format is Bgra
                &&& r.digitizer_path@ == "/dev/input/event2"@
                &&& r.digitizer_orientation is Identity
                &&& r.max_digitizer_width == 6760
                &&& r.max_digitizer_height == 11960
            },
            ReMarkableDevice::RM2 => {
                &&& r.width == 1404
                &&& r.height == 1872
                &&& r.fb_size == 1872 * 1404 * 2
                &&& r.pixel_format is Rgb565
                &&& r.digitizer_path@ == "/dev/input/event1"@
                &&& r.digitizer_orientation is Rotated
                &&& r.max_digitizer_width == 20967
                &&& r.max_digitizer_height == 15725
            },
        },
{
    match kind {
        ReMarkableDevice::PaperPro => Device {
            fb_size: 1632 * 2154 * 4,
            height: 2154,
            width: 1632,
            pixel_format: PixelFormat::Bgra,
            digitizer_path: "/dev/input/event2",
            digitizer_orientation: DigitizerOrientation::Identity,
            max_digitizer_width: 11180,
            max_digitizer_height: 15340,
        },
        ReMarkableDevice::PaperProMove => Device {
            fb_size: 960 * 1696 * 4,
            height: 1696,
            width: 960,
            pixel_format: PixelFormat::Bgra,
            digitizer_path: "/dev/input/event2",
            digitizer_orientation: DigitizerOrientation::Identity,
            max_digitizer_width: 6760,
            max_digitizer_height: 11960,
        },
        ReMarkableDevice::RM2 => Device {
            fb_size: 1872 * 1404 * 2,
            height: 1872,
            width: 1404,
            pixel_format: PixelFormat::Rgb565,
            digitizer_path: "/dev/input/event1",
            digitizer_orientation: DigitizerOrientation::Rotated,
            max_digitizer_width: 20967,
            max_digitizer_height: 15725,
        },
    }
}

/// ASCII lowercase of one byte; other bytes pass through unchanged.
pub open spec fn spec_lower_byte(b: u8) -> u8 {
    if 65 <= b <= 90 {
        (b + 32) as u8
    } else {
        b
    }
}

/// ASCII lowercase of a byte sequence.
pub open spec fn spec_lower(s: Seq<u8>) -> Seq<u8> {
    Seq::new(s.len(), |i: int| spec_lower_byte(s[i]))
}

/// `needle` occurs in `hay` starting at position `i`.
pub open spec fn spec_contains_at(hay: Seq<u8>, needle: Seq<u8>, i: int) -> bool {
    0 <= i && i + needle.len() <= hay.len() && hay.subrange(i, i + needle.len()) == needle
}

/// `needle` occurs somewhere in `hay`.
pub open spec fn spec_contains(hay: Seq<u8>, needle: Seq<u8>) -> bool {
    exists|i: int| spec_contains_at(hay, needle, i)
}

/// The identity marker of the small BGRA model, `"chiappa"`.
pub open spec fn chiappa_marker() -> Seq<u8> {
    seq![99u8, 104u8, 105u8, 97u8, 112u8, 112u8, 97u8]
}

/// The identity marker of the large BGRA model, `"ferrari"`.
pub open spec fn ferrari_marker() -> Seq<u8> {
    seq![102u8, 101u8, 114u8, 114u8, 97u8, 114u8, 105u8]
}

/// The identity marker of the RGB565 model, `"2.0"`.
pub open spec fn rm2_marker() -> Seq<u8> {
    seq![50u8, 46u8, 48u8]
}

/// Which model a machine identity string names: the first of the three
/// markers found in its ASCII-lowercased bytes decides, and an identity
/// naming none of them is unsupported.
pub open spec fn spec_detect_device(machine: Seq<u8>) -> Option<ReMarkableDevice> {
    let m = spec_lower(machine);
    if spec_contains(m, chiappa_marker()) {
        Some(ReMarkableDevice::PaperProMove)
    } else if spec_contains(m, ferrari_marker()) {
        Some(ReMarkableDevice::PaperPro)
    } else if spec_contains(m, rm2_marker()) {
        Some(ReMarkableDevice::RM2)
    } else {
        None
    }
}

/// ASCII-lowercases a byte string.
fn lower_bytes(s: &Vec<u8>) -> (r: Vec<u8>)
    ensures
        r@ == spec_lower(s@),
{
    let mut out: Vec<u8> = Vec::new();
    let mut i: usize = 0;
    while i < s.len()
        invariant
            i <= s@.len(),
            out@.len() == i,
            forall|j: int| 0 <= j < i ==> out@[j] == spec_lower_byte(s@[j]),
        decreases s@.len() - i,
    {
        let b = s[i];
        if 65 <= b && b <= 90 {
            out.push(b + 32);
        } else {
            out.push(b);
        }
        i = i + 1;
    }
    assert(out@ =~= spec_lower(s@));
    out
}

/// Byte-level substring search.
fn bytes_contains(hay: &Vec<u8>, needle: &Vec<u8>) -> (r: bool)
    requires
        needle@.len() >= 1,
    ensures
        r == spec_contains(hay@, needle@),
{
    let n = needle.len();
    let h = hay.len();
    if n > h {
        assert(forall|i: int| !spec_contains_at(hay@, needle@, i));
        return false;
    }
    let mut i: usize = 0;
    while i <= h - n
        invariant
            h == hay@.len(),
            n == needle@.len(),
            1 <= n <= h,
            i <= h - n + 1,
            forall|k: int| 0 <= k < i ==> !spec_contains_at(hay@, needle@, k),
        decreases h - n + 1 - i,
    {
        let mut j: usize = 0;
        while j < n && hay[i + j] == needle[j]
            invariant
                h == hay@.len(),
                n == needle@.len(),
                i + n <= h,
                j <= n,
                forall|t: int| 0 <= t < j ==> hay@[i + t] == needle@[t],
            decreases n - j,
        {
            j = j + 1;
        }
        if j == n {
            assert(hay@.subrange(i as int, i + n) =~= needle@);
            assert(spec_contains_at(hay@, needle@, i as int));
            return true;
        }
        assert(!spec_contains_at(hay@, needle@, i as int)) by {
            if spec_contains_at(hay@, needle@, i as int) {
                assert(hay@.subrange(i as int, i + n)[j as int] == needle@[j as int]);
            }
        }
        i = i + 1;
    }
    assert forall|k: int| !spec_contains_at(hay@, needle@, k) by {
        if spec_contains_at(hay@, needle@, k) {
            assert(0 <= k < i);
        }
    }
    false
}

/// Decides the device model from the machine identity bytes, as
/// `spec_detect_device` describes.
pub fn detect_device(machine: &Vec<u8>) -> (r: Option<ReMarkableDevice>)
    ensures
        r == spec_detect_device(machine@),
{
    let lowered = lower_bytes(machine);
    let mut chiappa: Vec<u8> = Vec::new();
    chiappa.push(99);
    chiappa.push(104);
    chiappa.push(105);
    chiappa.push(97);
    chiappa.push(112);
    chiappa.push(112);
    chiappa.push(97);
    assert(chiappa@ =~= chiappa_marker());
    if bytes_contains(&lowered, &chiappa) {
        return Some(ReMarkableDevice::PaperProMove);
    }
    let mut ferrari: Vec<u8> = Vec::new();
    ferrari.push(102);
    ferrari.push(101);
    ferrari.push(114);
    ferrari.push(114);
    ferrari.push(97);
    ferrari.push(114);
    ferrari.push(105);
    assert(ferrari@ =~= ferrari_marker());
    if bytes_contains(&lowered, &ferrari) {
        return Some(ReMarkableDevice::PaperPro);
    }
    let mut rm2: Vec<u8> = Vec::new();
    rm2.push(50);
    rm2.push(46);
    rm2.push(48);
    assert(rm2@ =~= rm2_marker());
    if bytes_contains(&lowered, &rm2) {
        return Some(ReMarkableDevice::RM2);
    }
    None
}

} // verus!
