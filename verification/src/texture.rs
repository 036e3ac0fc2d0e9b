//! Texture processing: GPU formats, mip chain sizes, block-compression
//! layout and the on-disk cache of processed chains.
//!
//! A cache file is `AQTX`, then width, height and level count as
//! little-endian 32-bit words, then the chain's bytes. A file is only
//! accepted when its data is exactly the chain its header announces.
use vstd::prelude::*;
use vstd::arithmetic::div_mod::lemma_fundamental_div_mod_converse;
use block_compression::{encode, BC7Settings, CompressionVariant};

verus! {

/// What a texture holds, which decides its GPU format and compression.
#[derive(Clone, Copy, PartialEq, Eq, Debug, Hash, Structural)]
pub enum TexKind {
    /// sRGB colour (BC7).
    Color,
    /// Linear data in RGB: occlusion / roughness / metallic (BC7).
    Data,
    /// Tangent-space normal map (BC5: X and Y).
    Normal,
    /// A height map, stored inverted (BC4).
    Depth,
}

/// The GPU formats a processed texture can have.
#[derive(Clone, Copy, PartialEq, Eq, Debug, Structural)]
pub enum TexFormat {
    Bc7RgbaUnormSrgb,
    Bc7RgbaUnorm,
    Bc5RgUnorm,
    Bc4RUnorm,
    Rgba8UnormSrgb,
    Rgba8Unorm,
}

/// The block compressions used for the textures.
#[derive(Clone, Copy, PartialEq, Eq, Debug, Structural)]
pub enum Compression {
    /// BC7 with the opaque "ultra fast" settings.
    Bc7,
    Bc5,
    Bc4,
}

impl TexFormat {
    /// Side of a block in texels: 4 for the compressed formats, 1 otherwise.
    pub open spec fn block_side(self) -> u32 {
        match self {
            TexFormat::Rgba8UnormSrgb | TexFormat::Rgba8Unorm => 1,
            _ => 4,
        }
    }

    /// Bytes of one block.
    pub open spec fn block_bytes(self) -> u32 {
        match self {
            TexFormat::Bc7RgbaUnormSrgb | TexFormat::Bc7RgbaUnorm | TexFormat::Bc5RgUnorm => 16,
            TexFormat::Bc4RUnorm => 8,
            TexFormat::Rgba8UnormSrgb | TexFormat::Rgba8Unorm => 4,
        }
    }

    /// Width and height of a block in texels.
    pub fn block_dimensions(&self) -> (d: (u32, u32))
        ensures
            d == (self.block_side(), self.block_side()),
    {
        match self {
            TexFormat::Rgba8UnormSrgb | TexFormat::Rgba8Unorm => (1, 1),
            _ => (4, 4),
        }
    }

    /// Bytes of one block.
    pub fn block_copy_size(&self) -> (n: u32)
        ensures
            n == self.block_bytes(),
    {
        match self {
            TexFormat::Bc7RgbaUnormSrgb | TexFormat::Bc7RgbaUnorm | TexFormat::Bc5RgUnorm => 16,
            TexFormat::Bc4RUnorm => 8,
            TexFormat::Rgba8UnormSrgb | TexFormat::Rgba8Unorm => 4,
        }
    }
}

impl Compression {
    /// Bytes of one compressed 4x4 block.
    pub open spec fn block_bytes(self) -> u32 {
        match self {
            Compression::Bc7 | Compression::Bc5 => 16,
            Compression::Bc4 => 8,
        }
    }
}

/// The GPU format of a texture of `kind`, block-compressed when `bc`.
pub open spec fn spec_format_of(kind: TexKind, bc: bool) -> TexFormat {
    match (kind, bc) {
        (TexKind::Color, true) => TexFormat::Bc7RgbaUnormSrgb,
        (TexKind::Data, true) => TexFormat::Bc7RgbaUnorm,
        (TexKind::Normal, true) => TexFormat::Bc5RgUnorm,
        (TexKind::Depth, true) => TexFormat::Bc4RUnorm,
        (TexKind::Color, false) => TexFormat::Rgba8UnormSrgb,
        _ => TexFormat::Rgba8Unorm,
    }
}

/// The compression of a texture of `kind`.
pub open spec fn spec_variant_of(kind: TexKind) -> Compression {
    match kind {
        TexKind::Color | TexKind::Data => Compression::Bc7,
        TexKind::Normal => Compression::Bc5,
        TexKind::Depth => Compression::Bc4,
    }
}

/// The GPU format of a texture of `kind`, block-compressed when `bc`.
pub fn format_of(kind: TexKind, bc: bool) -> (f: TexFormat)
    ensures
        f == spec_format_of(kind, bc),
{
    match (kind, bc) {
        (TexKind::Color, true) => TexFormat::Bc7RgbaUnormSrgb,
        (TexKind::Data, true) => TexFormat::Bc7RgbaUnorm,
        (TexKind::Normal, true) => TexFormat::Bc5RgUnorm,
        (TexKind::Depth, true) => TexFormat::Bc4RUnorm,
        (TexKind::Color, false) => TexFormat::Rgba8UnormSrgb,
        _ => TexFormat::Rgba8Unorm,
    }
}

/// The compression of a texture of `kind`.
pub fn variant_of(kind: TexKind) -> (c: Compression)
    ensures
        c == spec_variant_of(kind),
{
    match kind {
        TexKind::Color | TexKind::Data => Compression::Bc7,
        TexKind::Normal => Compression::Bc5,
        TexKind::Depth => Compression::Bc4,
    }
}

/// A compressed format stores exactly what its compression produces: blocks
/// of 4x4 texels, of the compression's size.
pub proof fn lemma_compressed_format_matches_variant(kind: TexKind)
    ensures
        spec_format_of(kind, true).block_side() == 4,
        spec_format_of(kind, true).block_bytes() == spec_variant_of(kind).block_bytes(),
        spec_format_of(kind, false).block_side() == 1,
        spec_format_of(kind, false).block_bytes() == 4,
{
}

// ---------------------------------------------------------------------------
// Mip chain sizes
// ---------------------------------------------------------------------------

/// `x` halved (rounding down) `n` times: `x >> n`.
pub open spec fn halve(x: int, n: nat) -> int
    decreases n,
{
    if n == 0 {
        x
    } else {
        halve(x, (n - 1) as nat) / 2
    }
}

/// Size of mip level `l` along an axis of `x` texels: `max(x >> l, 1)`.
pub open spec fn level_side(x: int, l: nat) -> int {
    if halve(x, l) < 1 {
        1
    } else {
        halve(x, l)
    }
}

/// Halving never grows a non-negative size, nor makes it negative.
pub proof fn lemma_halve_bounds(x: int, n: nat)
    requires
        0 <= x,
    ensures
        0 <= halve(x, n) <= x,
    decreases n,
{
    if n > 0 {
        lemma_halve_bounds(x, (n - 1) as nat);
    }
}

/// `x`, or 1 if it is smaller.
pub open spec fn at_least_one(x: int) -> int {
    if x < 1 {
        1
    } else {
        x
    }
}

/// The sizes of a full mip chain from `(w, h)`: each level is half the
/// previous one (at least 1), down to 1x1.
pub open spec fn mip_sizes(w: int, h: int) -> Seq<(int, int)>
    decreases at_least_one(w) + at_least_one(h),
{
    if w <= 1 && h <= 1 {
        seq![(w, h)]
    } else {
        let nw = if w / 2 < 1 { 1 } else { w / 2 };
        let nh = if h / 2 < 1 { 1 } else { h / 2 };
        seq![(w, h)] + mip_sizes(nw, nh)
    }
}

/// Sizes of the mip chain of a `w` x `h` image, level 0 (`(w, h)`) first,
/// down to 1x1.
pub fn mip_chain_sizes(w: u32, h: u32) -> (sizes: Vec<(u32, u32)>)
    ensures
        sizes@.len() == mip_sizes(w as int, h as int).len(),
        forall|l: int|
            0 <= l < sizes@.len() ==> (#[trigger] sizes@[l]).0 as int == mip_sizes(
                w as int,
                h as int,
            )[l].0 && sizes@[l].1 as int == mip_sizes(w as int, h as int)[l].1,
{
    let mut out: Vec<(u32, u32)> = Vec::new();
    let mut pw: u32 = w;
    let mut ph: u32 = h;
    out.push((pw, ph));
    proof {
        lemma_mip_sizes_unfold(pw as int, ph as int);
    }
    while pw > 1 || ph > 1
        invariant
            out@.len() >= 1,
            out@.last() == (pw, ph),
            mip_sizes(w as int, h as int) =~= seq_int_pairs(out@.drop_last()) + mip_sizes(
                pw as int,
                ph as int,
            ),
        decreases at_least_one(pw as int) + at_least_one(ph as int),
    {
        let nw: u32 = if pw / 2 < 1 { 1 } else { pw / 2 };
        let nh: u32 = if ph / 2 < 1 { 1 } else { ph / 2 };
        proof {
            lemma_mip_sizes_unfold(pw as int, ph as int);
            assert(seq_int_pairs(out@.push((nw, nh)).drop_last()) =~= seq_int_pairs(out@.drop_last())
                + seq![(pw as int, ph as int)]) by {
                assert(out@.push((nw, nh)).drop_last() =~= out@);
                assert(out@ =~= out@.drop_last().push((pw, ph)));
                lemma_seq_int_pairs_push(out@.drop_last(), (pw, ph));
            }
        }
        out.push((nw, nh));
        pw = nw;
        ph = nh;
    }
    proof {
        lemma_mip_sizes_unfold(pw as int, ph as int);
        assert(out@ =~= out@.drop_last().push((pw, ph)));
        lemma_seq_int_pairs_push(out@.drop_last(), (pw, ph));
        assert(mip_sizes(w as int, h as int) =~= seq_int_pairs(out@));
    }
    out
}

/// A sequence of size pairs seen as integer pairs.
pub open spec fn seq_int_pairs(s: Seq<(u32, u32)>) -> Seq<(int, int)> {
    s.map_values(|p: (u32, u32)| (p.0 as int, p.1 as int))
}

proof fn lemma_seq_int_pairs_push(s: Seq<(u32, u32)>, p: (u32, u32))
    ensures
        seq_int_pairs(s.push(p)) =~= seq_int_pairs(s) + seq![(p.0 as int, p.1 as int)],
{
}

proof fn lemma_mip_sizes_unfold(w: int, h: int)
    ensures
        w <= 1 && h <= 1 ==> mip_sizes(w, h) == seq![(w, h)],
        !(w <= 1 && h <= 1) ==> mip_sizes(w, h) == seq![(w, h)] + mip_sizes(
            if w / 2 < 1 {
                1
            } else {
                w / 2
            },
            if h / 2 < 1 {
                1
            } else {
                h / 2
            },
        ),
{
}

/// Halving then shifting is shifting one more time.
pub proof fn lemma_halve_shift(x: int, k: nat)
    requires
        0 <= x,
    ensures
        halve(x / 2, k) == halve(x, k + 1),
    decreases k,
{
    assert(halve(x, k + 1) == halve(x, k) / 2);
    if k > 0 {
        lemma_halve_shift(x, (k - 1) as nat);
        assert(halve(x / 2, k) == halve(x / 2, (k - 1) as nat) / 2);
    } else {
        assert(halve(x, 0) == x);
        assert(halve(x / 2, 0) == x / 2);
    }
}

/// Level `l` of a mip chain built by repeated halving has the size that
/// `max(w >> l, 1)` gives: the chain a writer builds is the chain a reader
/// expects.
pub proof fn lemma_mip_sizes_are_shifts(w: int, h: int, l: nat)
    requires
        1 <= w,
        1 <= h,
        l < mip_sizes(w, h).len(),
    ensures
        mip_sizes(w, h)[l as int] == (level_side(w, l), level_side(h, l)),
    decreases at_least_one(w) + at_least_one(h),
{
    lemma_mip_sizes_unfold(w, h);
    if l > 0 {
        let nw = if w / 2 < 1 { 1 } else { w / 2 };
        let nh = if h / 2 < 1 { 1 } else { h / 2 };
        lemma_mip_sizes_are_shifts(nw, nh, (l - 1) as nat);
        lemma_level_side_step(w, (l - 1) as nat);
        lemma_level_side_step(h, (l - 1) as nat);
    }
}

/// `level_side` of the halved size is `level_side` one level further.
proof fn lemma_level_side_step(x: int, k: nat)
    requires
        1 <= x,
    ensures
        level_side(if x / 2 < 1 { 1 } else { x / 2 }, k) == level_side(x, k + 1),
{
    lemma_halve_shift(x, k);
    if x / 2 < 1 {
        assert(x == 1);
        lemma_halve_one(k);
        lemma_halve_one(k + 1);
    }
}

proof fn lemma_halve_one(k: nat)
    ensures
        halve(1, k) <= 1,
        k > 0 ==> halve(1, k) == 0,
    decreases k,
{
    if k > 0 {
        lemma_halve_one((k - 1) as nat);
    }
}

// ---------------------------------------------------------------------------
// Bytes of a chain
// ---------------------------------------------------------------------------

/// Bytes of one `lw` x `lh` level in `format`.
pub open spec fn level_bytes(format: TexFormat, lw: int, lh: int) -> int {
    if format.block_side() == 1 {
        lw * lh * 4
    } else {
        ((lw + 3) / 4) * ((lh + 3) / 4) * format.block_bytes()
    }
}

/// Bytes of the first `levels` levels of the chain of a `w` x `h` image in
/// `format`, level `l` being `max(w >> l, 1)` x `max(h >> l, 1)`.
pub open spec fn chain_bytes(format: TexFormat, w: int, h: int, levels: nat) -> int
    decreases levels,
{
    if levels == 0 {
        0
    } else {
        chain_bytes(format, w, h, (levels - 1) as nat) + level_bytes(
            format,
            level_side(w, (levels - 1) as nat),
            level_side(h, (levels - 1) as nat),
        )
    }
}

proof fn lemma_level_bytes_nonneg(format: TexFormat, lw: int, lh: int)
    requires
        0 <= lw,
        0 <= lh,
    ensures
        0 <= level_bytes(format, lw, lh),
{
    assert(0 <= lw * lh) by (nonlinear_arith)
        requires
            0 <= lw,
            0 <= lh,
    ;
    assert(0 <= ((lw + 3) / 4) * ((lh + 3) / 4)) by (nonlinear_arith)
        requires
            0 <= lw,
            0 <= lh,
    ;
    assert(0 <= ((lw + 3) / 4) * ((lh + 3) / 4) * format.block_bytes()) by (nonlinear_arith)
        requires
            0 <= ((lw + 3) / 4) * ((lh + 3) / 4),
    ;
}

proof fn lemma_level_side_bounds(x: int, l: nat)
    requires
        0 <= x,
    ensures
        1 <= level_side(x, l) <= at_least_one(x),
{
    lemma_halve_bounds(x, l);
}

/// A chain never shrinks as levels are added.
proof fn lemma_chain_bytes_monotone(format: TexFormat, w: int, h: int, a: nat, b: nat)
    requires
        0 <= w,
        0 <= h,
        a <= b,
    ensures
        chain_bytes(format, w, h, a) <= chain_bytes(format, w, h, b),
    decreases b,
{
    if a < b {
        lemma_chain_bytes_monotone(format, w, h, a, (b - 1) as nat);
        lemma_level_side_bounds(w, (b - 1) as nat);
        lemma_level_side_bounds(h, (b - 1) as nat);
        lemma_level_bytes_nonneg(
            format,
            level_side(w, (b - 1) as nat),
            level_side(h, (b - 1) as nat),
        );
    }
}

/// Bytes of one `lw` x `lh` level in `format`.
fn level_byte_count(format: TexFormat, lw: u32, lh: u32) -> (n: u128)
    ensures
        n == level_bytes(format, lw as int, lh as int),
{
    let (bx, _) = format.block_dimensions();
    if bx == 1 {
        assert((lw as int) * (lh as int) * 4 <= 0x4_0000_0000_0000_0000) by (nonlinear_arith)
            requires
                lw <= 0xffff_ffff,
                lh <= 0xffff_ffff,
        ;
        lw as u128 * lh as u128 * 4
    } else {
        let cw: u128 = (lw as u128 + 3) / 4;
        let ch: u128 = (lh as u128 + 3) / 4;
        let bytes: u128 = format.block_copy_size() as u128;
        assert(cw * ch <= 0x1000_0000_0000_0000) by (nonlinear_arith)
            requires
                cw <= 0x4000_0000,
                ch <= 0x4000_0000,
        ;
        assert(cw * ch * bytes <= 0x1_0000_0000_0000_0000_0000) by (nonlinear_arith)
            requires
                cw <= 0x4000_0000,
                ch <= 0x4000_0000,
                bytes <= 16,
        ;
        cw * ch * bytes
    }
}

/// Whether `data_len` bytes are exactly the first `levels` levels of the
/// chain of a `w` x `h` image in `format`.
pub fn chain_fits(format: TexFormat, w: u32, h: u32, levels: u32, data_len: usize) -> (ok: bool)
    ensures
        ok == (data_len as int == chain_bytes(format, w as int, h as int, levels as nat)),
{
    let mut acc: u128 = 0;
    let mut cw: u32 = w;
    let mut ch: u32 = h;
    let mut l: u32 = 0;
    while l < levels
        invariant
            l <= levels,
            cw as int == halve(w as int, l as nat),
            ch as int == halve(h as int, l as nat),
            acc as int == chain_bytes(format, w as int, h as int, l as nat),
            acc <= data_len,
        decreases levels - l,
    {
        proof {
            lemma_halve_bounds(w as int, l as nat);
            lemma_halve_bounds(h as int, l as nat);
        }
        let lw: u32 = if cw < 1 { 1 } else { cw };
        let lh: u32 = if ch < 1 { 1 } else { ch };
        let n = level_byte_count(format, lw, lh);
        assert(n <= 0x1_0000_0000_0000_0000_0000) by {
            assert((lw as int) * (lh as int) * 4 <= 0x4_0000_0000_0000_0000) by (nonlinear_arith)
                requires
                    lw <= 0xffff_ffff,
                    lh <= 0xffff_ffff,
            ;
            assert(((lw as int + 3) / 4) * ((lh as int + 3) / 4) * 16 <= 0x1_0000_0000_0000_0000_0000)
                by (nonlinear_arith)
                requires
                    lw <= 0xffff_ffff,
                    lh <= 0xffff_ffff,
            ;
            assert(((lw as int + 3) / 4) * ((lh as int + 3) / 4) * (format.block_bytes() as int)
                <= ((lw as int + 3) / 4) * ((lh as int + 3) / 4) * 16) by (nonlinear_arith)
                requires
                    format.block_bytes() <= 16,
                    0 <= ((lw as int + 3) / 4) * ((lh as int + 3) / 4),
            ;
        }
        acc = acc + n;
        proof {
            assert(halve(w as int, (l + 1) as nat) == halve(w as int, l as nat) / 2);
            assert(halve(h as int, (l + 1) as nat) == halve(h as int, l as nat) / 2);
        }
        if acc > data_len as u128 {
            proof {
                lemma_chain_bytes_monotone(format, w as int, h as int, (l + 1) as nat, levels as nat);
            }
            return false;
        }
        cw = cw / 2;
        ch = ch / 2;
        l = l + 1;
    }
    acc == data_len as u128
}

// ---------------------------------------------------------------------------
// The cache file
// ---------------------------------------------------------------------------

/// The four bytes that open a cache file: `AQTX`.
pub open spec fn cache_magic() -> Seq<u8> {
    seq![0x41u8, 0x51u8, 0x54u8, 0x58u8]
}

/// `v` as four little-endian bytes.
pub open spec fn le_bytes(v: u32) -> Seq<u8> {
    seq![(v & 0xff) as u8, ((v >> 8) & 0xff) as u8, ((v >> 16) & 0xff) as u8, ((v >> 24) & 0xff) as u8]
}

/// The little-endian word made of four bytes.
pub open spec fn le_word(b0: u8, b1: u8, b2: u8, b3: u8) -> u32 {
    (b0 as u32) | ((b1 as u32) << 8u32) | ((b2 as u32) << 16u32) | ((b3 as u32) << 24u32)
}

/// Header word `k` (width, height, levels) of a cache file.
pub open spec fn header_word(bytes: Seq<u8>, k: int) -> u32 {
    le_word(bytes[4 + 4 * k], bytes[5 + 4 * k], bytes[6 + 4 * k], bytes[7 + 4 * k])
}

/// The bytes of a cache file holding a `w` x `h` chain of `levels` levels.
pub open spec fn spec_cache_file(w: u32, h: u32, levels: u32, data: Seq<u8>) -> Seq<u8> {
    cache_magic() + le_bytes(w) + le_bytes(h) + le_bytes(levels) + data
}

/// What a cache file holds for `format`: (width, height, levels, data), if
/// it opens with the magic and its data is exactly the announced chain.
pub open spec fn spec_parse_cache(bytes: Seq<u8>, format: TexFormat) -> Option<
    (u32, u32, u32, Seq<u8>),
> {
    if bytes.len() < 16 || bytes.subrange(0, 4) != cache_magic() {
        None
    } else {
        let w = header_word(bytes, 0);
        let h = header_word(bytes, 1);
        let levels = header_word(bytes, 2);
        let data = bytes.subrange(16, bytes.len() as int);
        if data.len() == chain_bytes(format, w as int, h as int, levels as nat) {
            Some((w, h, levels, data))
        } else {
            None
        }
    }
}

/// A processed chain read back from the cache.
pub struct CachedImage {
    pub width: u32,
    pub height: u32,
    pub levels: u32,
    pub data: Vec<u8>,
}

proof fn lemma_le_roundtrip(v: u32)
    ensures
        le_word(le_bytes(v)[0], le_bytes(v)[1], le_bytes(v)[2], le_bytes(v)[3]) == v,
{
    assert((((v & 0xff) as u8) as u32) | (((((v >> 8) & 0xff) as u8) as u32) << 8u32) | (((((v
        >> 16) & 0xff) as u8) as u32) << 16u32) | (((((v >> 24) & 0xff) as u8) as u32) << 24u32)
        == v) by (bit_vector);
}

proof fn lemma_le_bytes_of_word(b0: u8, b1: u8, b2: u8, b3: u8)
    ensures
        le_bytes(le_word(b0, b1, b2, b3)) == seq![b0, b1, b2, b3],
{
    let v = le_word(b0, b1, b2, b3);
    assert(((v & 0xff) as u8) == b0 && (((v >> 8) & 0xff) as u8) == b1 && (((v >> 16) & 0xff)
        as u8) == b2 && (((v >> 24) & 0xff) as u8) == b3) by (bit_vector)
        requires
            v == (b0 as u32) | ((b1 as u32) << 8u32) | ((b2 as u32) << 16u32) | ((b3 as u32)
                << 24u32),
    ;
    assert(le_bytes(v) =~= seq![b0, b1, b2, b3]);
}

/// A cache file written for a chain reads back as that chain, and a file that
/// reads as a chain is exactly what writing that chain produces.
pub proof fn lemma_cache_roundtrip(
    w: u32,
    h: u32,
    levels: u32,
    data: Seq<u8>,
    format: TexFormat,
    bytes: Seq<u8>,
)
    ensures
        data.len() == chain_bytes(format, w as int, h as int, levels as nat) ==> spec_parse_cache(
            spec_cache_file(w, h, levels, data),
            format,
        ) == Some((w, h, levels, data)),
        spec_parse_cache(bytes, format) matches Some(x) ==> spec_cache_file(x.0, x.1, x.2, x.3)
            == bytes,
{
    let f = spec_cache_file(w, h, levels, data);
    lemma_le_roundtrip(w);
    lemma_le_roundtrip(h);
    lemma_le_roundtrip(levels);
    assert(f.subrange(0, 4) =~= cache_magic());
    assert(f.subrange(16, f.len() as int) =~= data);
    assert(header_word(f, 0) == w);
    assert(header_word(f, 1) == h);
    assert(header_word(f, 2) == levels);
    if let Some(x) = spec_parse_cache(bytes, format) {
        lemma_le_bytes_of_word(bytes[4], bytes[5], bytes[6], bytes[7]);
        lemma_le_bytes_of_word(bytes[8], bytes[9], bytes[10], bytes[11]);
        lemma_le_bytes_of_word(bytes[12], bytes[13], bytes[14], bytes[15]);
        assert(spec_cache_file(x.0, x.1, x.2, x.3) =~= bytes);
    }
}

fn push_le_u32(out: &mut Vec<u8>, v: u32)
    ensures
        final(out)@ == old(out)@ + le_bytes(v),
{
    out.push((v & 0xff) as u8);
    out.push(((v >> 8) & 0xff) as u8);
    out.push(((v >> 16) & 0xff) as u8);
    out.push(((v >> 24) & 0xff) as u8);
    assert(final(out)@ =~= old(out)@ + le_bytes(v));
}

/// The bytes of a cache file for a `w` x `h` chain of `levels` levels.
pub fn serialize_cache(w: u32, h: u32, levels: u32, data: &[u8]) -> (bytes: Vec<u8>)
    ensures
        bytes@ == spec_cache_file(w, h, levels, data@),
{
    let mut out: Vec<u8> = Vec::new();
    out.push(0x41u8);
    out.push(0x51u8);
    out.push(0x54u8);
    out.push(0x58u8);
    assert(out@ =~= cache_magic());
    push_le_u32(&mut out, w);
    push_le_u32(&mut out, h);
    push_le_u32(&mut out, levels);
    let ghost prefix = out@;
    let mut i: usize = 0;
    while i < data.len()
        invariant
            i <= data@.len(),
            out@ =~= prefix + data@.subrange(0, i as int),
        decreases data@.len() - i,
    {
        out.push(data[i]);
        i = i + 1;
    }
    assert(data@.subrange(0, data@.len() as int) =~= data@);
    out
}

fn read_le_u32(bytes: &[u8], i: usize) -> (v: u32)
    requires
        i + 4 <= bytes@.len(),
    ensures
        v == le_word(bytes@[i as int], bytes@[i + 1], bytes@[i + 2], bytes@[i + 3]),
{
    (bytes[i] as u32) | ((bytes[i + 1] as u32) << 8u32) | ((bytes[i + 2] as u32) << 16u32) | ((
    bytes[i + 3] as u32) << 24u32)
}

/// Reads a cache file for `format`: `None` unless it opens with the magic and
/// its data is exactly the chain its header announces.
pub fn parse_cache(bytes: &[u8], format: TexFormat) -> (image: Option<CachedImage>)
    ensures
        match image {
            Some(img) => spec_parse_cache(bytes@, format) == Some(
                (img.width, img.height, img.levels, img.data@),
            ),
            None => spec_parse_cache(bytes@, format) is None,
        },
{
    if bytes.len() < 16 {
        return None;
    }
    if !(bytes[0] == 0x41u8 && bytes[1] == 0x51u8 && bytes[2] == 0x54u8 && bytes[3] == 0x58u8) {
        proof {
            if bytes@.subrange(0, 4) == cache_magic() {
                assert(bytes@.subrange(0, 4)[0] == bytes@[0]);
                assert(bytes@.subrange(0, 4)[1] == bytes@[1]);
                assert(bytes@.subrange(0, 4)[2] == bytes@[2]);
                assert(bytes@.subrange(0, 4)[3] == bytes@[3]);
            }
        }
        return None;
    }
    assert(bytes@.subrange(0, 4) =~= cache_magic());
    let w = read_le_u32(bytes, 4);
    let h = read_le_u32(bytes, 8);
    let levels = read_le_u32(bytes, 12);
    let data_len = bytes.len() - 16;
    if !chain_fits(format, w, h, levels, data_len) {
        return None;
    }
    let mut data: Vec<u8> = Vec::new();
    let mut i: usize = 16;
    while i < bytes.len()
        invariant
            16 <= i <= bytes@.len(),
            data@ =~= bytes@.subrange(16, i as int),
        decreases bytes@.len() - i,
    {
        data.push(bytes[i]);
        i = i + 1;
    }
    Some(CachedImage { width: w, height: h, levels, data })
}

// ---------------------------------------------------------------------------
// Height maps, padding, block compression
// ---------------------------------------------------------------------------

/// The RGB channels of every whole RGBA pixel inverted (`255 - v`): a height
/// map becomes the depth map the parallax shader wants. Alpha and any bytes
/// after the last whole pixel are unchanged.
pub fn invert_height(px: &mut Vec<u8>)
    ensures
        final(px)@.len() == old(px)@.len(),
        forall|i: int|
            0 <= i < old(px)@.len() ==> #[trigger] final(px)@[i] == if i < (old(px)@.len() / 4) * 4
                && i % 4 < 3 {
                (255 - old(px)@[i]) as u8
            } else {
                old(px)@[i]
            },
{
    let n = px.len() / 4;
    let mut k: usize = 0;
    while k < n
        invariant
            n == old(px)@.len() / 4,
            old(px)@.len() <= usize::MAX,
            k <= n,
            px@.len() == old(px)@.len(),
            forall|i: int|
                0 <= i < old(px)@.len() ==> #[trigger] px@[i] == if i < k * 4 && i % 4 < 3 {
                    (255 - old(px)@[i]) as u8
                } else {
                    old(px)@[i]
                },
        decreases n - k,
    {
        let ghost len = px@.len();
        assert(k * 4 + 3 < len) by (nonlinear_arith)
            requires
                k < n,
                n == len / 4,
        ;
        let base = k * 4;
        let a = px[base];
        px.set(base, 255 - a);
        let b = px[base + 1];
        px.set(base + 1, 255 - b);
        let c = px[base + 2];
        px.set(base + 2, 255 - c);
        k = k + 1;
    }
}

/// `x` rounded up to a multiple of 4.
pub open spec fn round_up4(x: int) -> int {
    ((x + 3) / 4) * 4
}

/// `x` rounded up to a multiple of 4.
pub fn round_up_to4(x: u32) -> (r: u32)
    requires
        round_up4(x as int) <= u32::MAX,
    ensures
        r as int == round_up4(x as int),
        x <= r,
{
    proof {
        lemma_div_ceil(x as int, 4);
    }
    let q: u32 = x / 4 + if x % 4 == 0 { 0 } else { 1 };
    q * 4
}

proof fn lemma_round_up4_bounds(w: int, h: int)
    requires
        1 <= w,
        1 <= h,
    ensures
        w <= round_up4(w),
        h <= round_up4(h),
        round_up4(w) <= round_up4(w) * round_up4(h) * 4,
        round_up4(h) <= round_up4(w) * round_up4(h) * 4,
        w * h * 4 <= round_up4(w) * round_up4(h) * 4,
{
    let a = round_up4(w);
    let b = round_up4(h);
    assert(w <= a && h <= b);
    assert(a <= a * b * 4 && b <= a * b * 4 && w * h * 4 <= a * b * 4) by (nonlinear_arith)
        requires
            1 <= w <= a,
            1 <= h <= b,
    ;
}

/// The texel of a `w` x `h` image that lands at texel `p` (row-major, `bw`
/// per row) of its copy padded to whole 4x4 blocks: the edge is repeated.
pub open spec fn pad_source(p: int, bw: int, w: int, h: int) -> int {
    let y = p / bw;
    let x = p % bw;
    (if y < h - 1 { y } else { h - 1 }) * w + (if x < w - 1 { x } else { w - 1 })
}

/// The RGBA texels of a `w` x `h` image padded to whole 4x4 blocks, the edge
/// texels repeated (tiny mips: 2x2, 1x1).
pub fn pad_to_blocks(rgba: &[u8], w: u32, h: u32) -> (padded: Vec<u8>)
    requires
        1 <= w,
        1 <= h,
        rgba@.len() == w * h * 4,
        round_up4(w as int) * round_up4(h as int) * 4 <= u32::MAX,
    ensures
        padded@.len() == round_up4(w as int) * round_up4(h as int) * 4,
        forall|p: int, c: int|
            0 <= p < round_up4(w as int) * round_up4(h as int) && 0 <= c < 4 ==> #[trigger] padded@[p
                * 4 + c] == rgba@[pad_source(p, round_up4(w as int), w as int, h as int) * 4 + c],
{
    proof {
        lemma_round_up4_bounds(w as int, h as int);
    }
    let bw: u32 = round_up_to4(w);
    let bh: u32 = round_up_to4(h);
    assert(bw as int * bh as int * 4 <= u32::MAX);
    assert(w <= bw && h <= bh);
    let mut out: Vec<u8> = Vec::new();
    let mut y: u32 = 0;
    while y < bh
        invariant
            bw as int == round_up4(w as int),
            bh as int == round_up4(h as int),
            w <= bw,
            h <= bh,
            1 <= w,
            1 <= h,
            rgba@.len() == w * h * 4,
            bw as int * bh as int * 4 <= u32::MAX,
            y <= bh,
            out@.len() == y as int * bw as int * 4,
            forall|p: int, c: int|
                0 <= p < y as int * bw as int && 0 <= c < 4 ==> #[trigger] out@[p * 4 + c] == rgba@[
                    pad_source(p, bw as int, w as int, h as int) * 4 + c],
        decreases bh - y,
    {
        let sy: u32 = if y < h - 1 { y } else { h - 1 };
        let mut x: u32 = 0;
        while x < bw
            invariant
                bw as int == round_up4(w as int),
                bh as int == round_up4(h as int),
                w <= bw,
                h <= bh,
                1 <= w,
                1 <= h,
                rgba@.len() == w * h * 4,
                bw as int * bh as int * 4 <= u32::MAX,
                y < bh,
                sy as int == (if y < h - 1 { y as int } else { h - 1 }),
                x <= bw,
                out@.len() == (y as int * bw as int + x as int) * 4,
                forall|p: int, c: int|
                    0 <= p < y as int * bw as int + x as int && 0 <= c < 4 ==> #[trigger] out@[p * 4
                        + c] == rgba@[pad_source(p, bw as int, w as int, h as int) * 4 + c],
            decreases bw - x,
        {
            let sx: u32 = if x < w - 1 { x } else { w - 1 };
            assert(sy as int * w as int + sx as int <= (h as int - 1) * w as int + w as int - 1)
                by (nonlinear_arith)
                requires
                    sy <= h - 1,
                    sx <= w - 1,
                    1 <= w,
            ;
            assert((h as int - 1) * w as int + w as int - 1 == w as int * h as int - 1)
                by (nonlinear_arith);
            assert(w as int * h as int * 4 <= bw as int * bh as int * 4) by (nonlinear_arith)
                requires
                    w <= bw,
                    h <= bh,
            ;
            assert(sy as int * w as int <= w as int * h as int) by (nonlinear_arith)
                requires
                    sy as int * w as int + sx as int <= w as int * h as int - 1,
                    0 <= sx,
            ;
            let s: usize = ((sy as usize) * (w as usize) + sx as usize) * 4;
            proof {
                let p = y as int * bw as int + x as int;
                lemma_fundamental_div_mod_converse(p, bw as int, y as int, x as int);
                assert(pad_source(p, bw as int, w as int, h as int) == sy as int * w as int
                    + sx as int);
                assert(y as int * bw as int + bw as int <= bh as int * bw as int)
                    by (nonlinear_arith)
                    requires
                        y < bh,
                ;
            }
            let ghost before = out@;
            out.push(rgba[s]);
            out.push(rgba[s + 1]);
            out.push(rgba[s + 2]);
            out.push(rgba[s + 3]);
            proof {
                let p0 = y as int * bw as int + x as int;
                assert forall|p: int, c: int|
                    0 <= p < p0 + 1 && 0 <= c < 4 implies #[trigger] out@[p * 4 + c] == rgba@[pad_source(
                    p,
                    bw as int,
                    w as int,
                    h as int,
                ) * 4 + c] by {
                    if p < p0 {
                        assert(p * 4 + c < before.len());
                        assert(out@[p * 4 + c] == before[p * 4 + c]);
                    } else {
                        assert(p == p0);
                    }
                }
            }
            x = x + 1;
        }
        assert((y as int + 1) * bw as int == y as int * bw as int + bw as int) by (nonlinear_arith);
        y = y + 1;
    }
    assert(bh as int * bw as int == bw as int * bh as int) by (nonlinear_arith);
    out
}

/// What block-compressing a `width` x `height` RGBA image gives: a function
/// of the compression, the pixels and the size alone.
pub uninterp spec fn compressed_blocks(
    variant: Compression,
    rgba: Seq<u8>,
    width: u32,
    height: u32,
) -> Seq<u8>;

/// Block-compresses a `width` x `height` RGBA8 image (both multiples of 4)
/// with `block_compression::encode::compress_rgba8`, into `blocks`, which has
/// exactly the size of the blocks. Trusted: the crate's source writes every
/// block (of the compression's size) at its place in the buffer, so the whole
/// buffer is replaced by the compressed image, which is stated only through
/// `compressed_blocks`; its length stays the same.
#[verifier::external_body]
fn encode_blocks(
    variant: Compression,
    rgba: &[u8],
    blocks: &mut Vec<u8>,
    width: u32,
    height: u32,
    stride: u32,
)
    requires
        width % 4 == 0,
        height % 4 == 0,
        stride == width * 4,
        rgba@.len() == width * height * 4,
        old(blocks)@.len() == (width / 4) * (height / 4) * variant.block_bytes(),
    ensures
        final(blocks)@ == compressed_blocks(variant, rgba@, width, height),
        final(blocks)@.len() == old(blocks)@.len(),
{
    let v = match variant {
        Compression::Bc7 => CompressionVariant::BC7(BC7Settings::opaque_ultra_fast()),
        Compression::Bc5 => CompressionVariant::BC5,
        Compression::Bc4 => CompressionVariant::BC4,
    };
    encode::compress_rgba8(v, rgba, blocks.as_mut_slice(), width, height, stride);
}

/// Bytes of the blocks that cover a `width` x `height` image, from
/// `CompressionVariant::blocks_byte_size`. Trusted: the crate computes
/// `ceil(width / 4) * ceil(height / 4) * block size`, with 16-byte blocks for
/// BC7 and BC5 and 8-byte blocks for BC4.
#[verifier::external_body]
fn blocks_byte_size(variant: Compression, width: u32, height: u32) -> (n: usize)
    requires
        ((width + 3) / 4) * ((height + 3) / 4) * variant.block_bytes() <= usize::MAX,
    ensures
        n == ((width + 3) / 4) * ((height + 3) / 4) * variant.block_bytes(),
{
    let v = match variant {
        Compression::Bc7 => CompressionVariant::BC7(BC7Settings::opaque_ultra_fast()),
        Compression::Bc5 => CompressionVariant::BC5,
        Compression::Bc4 => CompressionVariant::BC4,
    };
    v.blocks_byte_size(width, height)
}

/// The compressed block rows `[first, rows)` of a padded image `bw` texels
/// wide, compressed `per` block rows at a time.
pub open spec fn compress_chunks(
    variant: Compression,
    data: Seq<u8>,
    bw: int,
    rows: int,
    per: int,
    first: int,
) -> Seq<u8>
    decreases rows - first,
{
    if first >= rows || per <= 0 || first < 0 {
        seq![]
    } else {
        let n = if per < rows - first { per } else { rows - first };
        compressed_blocks(
            variant,
            data.subrange(first * 4 * bw * 4, (first + n) * 4 * bw * 4),
            bw as u32,
            (n * 4) as u32,
        ) + compress_chunks(variant, data, bw, rows, per, first + n)
    }
}

/// The block rows of each chunk when `rows` block rows are shared out among
/// `threads` workers: `max(ceil(rows / threads), 1)`.
pub open spec fn rows_per_chunk(rows: int, threads: int) -> int {
    let c = (rows + threads - 1) / threads;
    if c < 1 {
        1
    } else {
        c
    }
}

/// Block rows per chunk when `rows` block rows are shared out among `threads`
/// workers.
pub fn chunk_rows(rows: u32, threads: u32) -> (per: u32)
    requires
        1 <= threads,
    ensures
        per as int == rows_per_chunk(rows as int, threads as int),
        1 <= per,
{
    proof {
        let r = rows as int;
        let t = threads as int;
        vstd::arithmetic::div_mod::lemma_fundamental_div_mod(r, t);
        vstd::arithmetic::div_mod::lemma_mod_pos_bound(r, t);
        if r % t != 0 {
            assert(r / t < r) by (nonlinear_arith)
                requires
                    r == t * (r / t) + r % t,
                    0 < r % t,
                    1 <= t,
                    0 <= r,
            ;
        }
    }
    let c: u32 = rows / threads + if rows % threads == 0 { 0 } else { 1 };
    assert(c as int == (rows as int + threads as int - 1) / threads as int) by {
        lemma_div_ceil(rows as int, threads as int);
    }
    if c < 1 {
        1
    } else {
        c
    }
}

proof fn lemma_div_ceil(a: int, d: int)
    requires
        0 <= a,
        1 <= d,
    ensures
        a / d + (if a % d == 0 { 0int } else { 1 }) == (a + d - 1) / d,
{
    let q = a / d;
    let r = a % d;
    vstd::arithmetic::div_mod::lemma_fundamental_div_mod(a, d);
    assert(a == q * d + r) by (nonlinear_arith)
        requires
            a == d * (a / d) + (a % d),
            q == a / d,
            r == a % d,
    ;
    assert((q + 1) * d == q * d + d) by (nonlinear_arith);
    if r == 0 {
        lemma_fundamental_div_mod_converse(a + d - 1, d, q, d - 1);
    } else {
        lemma_fundamental_div_mod_converse(a + d - 1, d, q + 1, r - 1);
    }
}

/// Compresses block rows `[first, first + n)` of a padded image `bw` texels
/// wide.
pub fn compress_rows(
    variant: Compression,
    padded: &[u8],
    bw: u32,
    first: u32,
    n: u32,
) -> (blocks: Vec<u8>)
    requires
        bw % 4 == 0,
        4 <= bw,
        1 <= n,
        (first + n) * 4 * bw * 4 <= padded@.len(),
        padded@.len() <= u32::MAX,
    ensures
        blocks@ == compressed_blocks(
            variant,
            padded@.subrange(first * 4 * bw * 4, (first + n) * 4 * bw * 4),
            bw,
            (n * 4) as u32,
        ),
        blocks@.len() == (bw / 4) * n * variant.block_bytes(),
{
    assert(first * 4 <= first * 4 * bw && first * 4 * bw <= first * 4 * bw * 4) by (nonlinear_arith)
        requires
            4 <= bw,
    ;
    assert(first * 4 * bw * 4 <= (first + n) * 4 * bw * 4) by (nonlinear_arith);
    assert((first + n) * 4 <= (first + n) * 4 * bw && (first + n) * 4 * bw <= (first + n) * 4 * bw
        * 4) by (nonlinear_arith)
        requires
            4 <= bw,
    ;
    let start: usize = (first as usize) * 4 * (bw as usize) * 4;
    let end: usize = ((first + n) as usize) * 4 * (bw as usize) * 4;
    assert(start <= end) by (nonlinear_arith)
        requires
            start == first * 4 * bw * 4,
            end == (first + n) * 4 * bw * 4,
    ;
    let part = vstd::slice::slice_subrange(padded, start, end);
    assert((n as int * 4) * (bw as int) * 4 == end - start) by (nonlinear_arith)
        requires
            start == first * 4 * bw * 4,
            end == (first + n) * 4 * bw * 4,
    ;
    assert((bw as int / 4) * n as int * 16 <= (first + n) * 4 * bw * 4) by (nonlinear_arith)
        requires
            4 <= bw,
            1 <= n,
    ;
    assert((bw as int / 4) * n as int * variant.block_bytes() <= (bw as int / 4) * n as int * 16)
        by (nonlinear_arith)
        requires
            variant.block_bytes() <= 16,
            4 <= bw,
    ;
    assert(bw as int * 4 <= (first + n) * 4 * bw * 4) by (nonlinear_arith)
        requires
            1 <= n,
    ;
    let hh: u32 = n * 4;
    let size = blocks_byte_size(variant, bw, hh);
    assert((bw as int + 3) / 4 == bw as int / 4);
    assert((hh as int + 3) / 4 == n as int);
    let mut blocks: Vec<u8> = Vec::new();
    let mut i: usize = 0;
    while i < size
        invariant
            i <= size,
            blocks@.len() == i,
        decreases size - i,
    {
        blocks.push(0u8);
        i = i + 1;
    }
    assert(part@.len() == bw as int * hh as int * 4) by {
        assert(bw as int * (n as int * 4) * 4 == (n as int * 4) * bw as int * 4) by (nonlinear_arith);
    }
    encode_blocks(variant, part, &mut blocks, bw, hh, bw * 4);
    blocks
}

/// Block-compresses one `w` x `h` level (padded to whole 4x4 blocks) and
/// appends it to `out`; the block rows are compressed in chunks, as if shared
/// out among `threads` workers.
pub fn compress(
    variant: Compression,
    rgba: &[u8],
    w: u32,
    h: u32,
    threads: u32,
    out: &mut Vec<u8>,
)
    requires
        1 <= w,
        1 <= h,
        1 <= threads,
        rgba@.len() == w * h * 4,
        round_up4(w as int) * round_up4(h as int) * 4 <= u32::MAX,
    ensures
        final(out)@ == old(out)@ + compress_chunks(
            variant,
            spec_padded(rgba@, w as int, h as int),
            round_up4(w as int),
            round_up4(h as int) / 4,
            rows_per_chunk(round_up4(h as int) / 4, threads as int),
            0,
        ),
        final(out)@.len() == old(out)@.len() + level_bytes(
            format_of_variant(variant),
            w as int,
            h as int,
        ),
{
    let padded = pad_to_blocks(rgba, w, h);
    proof {
        lemma_padded_spec(rgba@, w as int, h as int, padded@);
        lemma_round_up4_bounds(w as int, h as int);
    }
    let bw: u32 = round_up_to4(w);
    let bh: u32 = round_up_to4(h);
    let rows: u32 = bh / 4;
    let per = chunk_rows(rows, threads);
    let ghost data = padded@;
    let ghost start_out = out@;
    let mut first: u32 = 0;
    while first < rows
        invariant
            bw as int == round_up4(w as int),
            bh as int == round_up4(h as int),
            rows as int == bh / 4,
            bh % 4 == 0,
            bw % 4 == 0,
            4 <= bw,
            per as int == rows_per_chunk(rows as int, threads as int),
            1 <= per,
            data == padded@,
            padded@.len() == bw as int * bh as int * 4,
            padded@.len() <= u32::MAX,
            first <= rows,
            start_out + compress_chunks(variant, data, bw as int, rows as int, per as int, 0)
                == out@ + compress_chunks(variant, data, bw as int, rows as int, per as int, first as int),
            out@.len() == start_out.len() + (bw as int / 4) * first as int * variant.block_bytes(),
        decreases rows - first,
    {
        let n: u32 = if per < rows - first { per } else { rows - first };
        assert((first as int + n as int) * 4 * bw as int * 4 <= bw as int * bh as int * 4)
            by (nonlinear_arith)
            requires
                first + n <= rows,
                rows * 4 == bh,
                0 <= bw,
        ;
        let mut chunk = compress_rows(variant, padded.as_slice(), bw, first, n);
        let ghost before = out@;
        out.append(&mut chunk);
        proof {
            assert(compress_chunks(variant, data, bw as int, rows as int, per as int, first as int)
                == compressed_blocks(
                variant,
                data.subrange(first as int * 4 * bw as int * 4, (first as int + n as int) * 4 * bw as int * 4),
                bw,
                (n * 4) as u32,
            ) + compress_chunks(variant, data, bw as int, rows as int, per as int, first as int + n as int));
            assert(out@ == before + compressed_blocks(
                variant,
                data.subrange(first as int * 4 * bw as int * 4, (first as int + n as int) * 4 * bw as int * 4),
                bw,
                (n * 4) as u32,
            ));
            vstd::seq_lib::lemma_concat_associative(before, compressed_blocks(
                variant,
                data.subrange(first as int * 4 * bw as int * 4, (first as int + n as int) * 4 * bw as int * 4),
                bw,
                (n * 4) as u32,
            ), compress_chunks(variant, data, bw as int, rows as int, per as int, first as int + n as int));
            assert((bw as int / 4) * first as int * variant.block_bytes() + (bw as int / 4) * n as int
                * variant.block_bytes() == (bw as int / 4) * (first as int + n as int) * variant.block_bytes())
                by (nonlinear_arith);
        }
        first = first + n;
    }
    proof {
        assert(compress_chunks(variant, data, bw as int, rows as int, per as int, rows as int) =~= seq![]);
        assert(out@ =~= start_out + compress_chunks(variant, data, bw as int, rows as int, per as int, 0));
        assert((bw as int / 4) * rows as int == ((w as int + 3) / 4) * ((h as int + 3) / 4));
    }
}

/// The compressed format whose blocks a compression produces.
pub open spec fn format_of_variant(variant: Compression) -> TexFormat {
    match variant {
        Compression::Bc7 => TexFormat::Bc7RgbaUnorm,
        Compression::Bc5 => TexFormat::Bc5RgUnorm,
        Compression::Bc4 => TexFormat::Bc4RUnorm,
    }
}

/// The padded copy of a `w` x `h` RGBA image, as `pad_to_blocks` builds it.
pub open spec fn spec_padded(rgba: Seq<u8>, w: int, h: int) -> Seq<u8> {
    Seq::new(
        (round_up4(w) * round_up4(h) * 4) as nat,
        |i: int| rgba[pad_source(i / 4, round_up4(w), w, h) * 4 + i % 4],
    )
}

proof fn lemma_padded_spec(rgba: Seq<u8>, w: int, h: int, padded: Seq<u8>)
    requires
        padded.len() == round_up4(w) * round_up4(h) * 4,
        forall|p: int, c: int|
            0 <= p < round_up4(w) * round_up4(h) && 0 <= c < 4 ==> #[trigger] padded[p * 4 + c]
                == rgba[pad_source(p, round_up4(w), w, h) * 4 + c],
    ensures
        padded == spec_padded(rgba, w, h),
{
    assert forall|i: int| 0 <= i < padded.len() implies padded[i] == spec_padded(rgba, w, h)[i] by {
        vstd::arithmetic::div_mod::lemma_fundamental_div_mod(i, 4);
        assert(i == (i / 4) * 4 + i % 4);
        assert(0 <= i / 4 < round_up4(w) * round_up4(h));
        assert(padded[(i / 4) * 4 + i % 4] == rgba[pad_source(i / 4, round_up4(w), w, h) * 4 + i % 4]);
    }
    assert(padded =~= spec_padded(rgba, w, h));
}

// ---------------------------------------------------------------------------
// A whole chain
// ---------------------------------------------------------------------------

/// The bytes one `lw` x `lh` level of a texture of `kind` is stored as:
/// block-compressed (in chunks shared out among `threads`) when `bc`, else
/// as is.
pub open spec fn encoded_level(
    kind: TexKind,
    bc: bool,
    rgba: Seq<u8>,
    lw: int,
    lh: int,
    threads: int,
) -> Seq<u8> {
    if bc {
        compress_chunks(
            spec_variant_of(kind),
            spec_padded(rgba, lw, lh),
            round_up4(lw),
            round_up4(lh) / 4,
            rows_per_chunk(round_up4(lh) / 4, threads),
            0,
        )
    } else {
        rgba
    }
}

/// The bytes of the first `n` levels of a chain, one after the other.
pub open spec fn encoded_chain(
    kind: TexKind,
    bc: bool,
    levels: Seq<(Vec<u8>, (u32, u32))>,
    threads: int,
    n: nat,
) -> Seq<u8>
    decreases n,
{
    if n == 0 {
        seq![]
    } else {
        let l = levels[n - 1];
        encoded_chain(kind, bc, levels, threads, (n - 1) as nat) + encoded_level(
            kind,
            bc,
            l.0@,
            l.1.0 as int,
            l.1.1 as int,
            threads,
        )
    }
}

/// Bytes of the first `n` levels of the given sizes in `format`.
pub open spec fn levels_bytes(format: TexFormat, sizes: Seq<(int, int)>, n: nat) -> int
    decreases n,
{
    if n == 0 {
        0
    } else {
        levels_bytes(format, sizes, (n - 1) as nat) + level_bytes(
            format,
            sizes[n - 1].0,
            sizes[n - 1].1,
        )
    }
}

/// The sizes of the levels of a chain.
pub open spec fn level_sizes(levels: Seq<(Vec<u8>, (u32, u32))>) -> Seq<(int, int)> {
    levels.map_values(|l: (Vec<u8>, (u32, u32))| (l.1.0 as int, l.1.1 as int))
}

/// Whether each level holds the RGBA texels of its size, and can be padded
/// to whole blocks within 32-bit sizes.
pub open spec fn levels_well_sized(levels: Seq<(Vec<u8>, (u32, u32))>) -> bool {
    forall|l: int|
        #![trigger levels[l]]
        0 <= l < levels.len() ==> {
            &&& 1 <= levels[l].1.0
            &&& 1 <= levels[l].1.1
            &&& levels[l].0@.len() == levels[l].1.0 * levels[l].1.1 * 4
            &&& round_up4(levels[l].1.0 as int) * round_up4(levels[l].1.1 as int) * 4 <= u32::MAX
        }
}

/// The data of a processed chain: every level, level 0 first, block-compressed
/// with the compression of `kind` when `bc` (in chunks shared out among
/// `threads`), else as is.
pub fn encode_chain(
    kind: TexKind,
    bc: bool,
    levels: &Vec<(Vec<u8>, (u32, u32))>,
    threads: u32,
) -> (data: Vec<u8>)
    requires
        1 <= threads,
        levels_well_sized(levels@),
    ensures
        data@ == encoded_chain(kind, bc, levels@, threads as int, levels@.len()),
        data@.len() == levels_bytes(spec_format_of(kind, bc), level_sizes(levels@), levels@.len()),
{
    let variant = variant_of(kind);
    let mut out: Vec<u8> = Vec::new();
    let mut i: usize = 0;
    while i < levels.len()
        invariant
            1 <= threads,
            variant == spec_variant_of(kind),
            levels_well_sized(levels@),
            i <= levels@.len(),
            out@ == encoded_chain(kind, bc, levels@, threads as int, i as nat),
            out@.len() == levels_bytes(spec_format_of(kind, bc), level_sizes(levels@), i as nat),
        decreases levels@.len() - i,
    {
        let level = &levels[i];
        let lw = level.1.0;
        let lh = level.1.1;
        assert(levels@[i as int] == *level);
        let ghost before = out@;
        if bc {
            compress(variant, level.0.as_slice(), lw, lh, threads, &mut out);
            proof {
                lemma_compressed_format_matches_variant(kind);
                assert(level_bytes(format_of_variant(variant), lw as int, lh as int) == level_bytes(
                    spec_format_of(kind, true),
                    lw as int,
                    lh as int,
                ));
            }
        } else {
            let mut j: usize = 0;
            while j < level.0.len()
                invariant
                    j <= level.0@.len(),
                    out@ == before + level.0@.subrange(0, j as int),
                decreases level.0@.len() - j,
            {
                out.push(level.0[j]);
                proof {
                    assert(level.0@.subrange(0, j + 1) =~= level.0@.subrange(0, j as int).push(
                        level.0@[j as int],
                    ));
                }
                j = j + 1;
            }
            assert(level.0@.subrange(0, level.0@.len() as int) =~= level.0@);
        }
        proof {
            assert(level_sizes(levels@)[i as int] == (lw as int, lh as int));
        }
        i = i + 1;
    }
    out
}

/// A chain whose levels have the sizes of the full mip chain of a `w` x `h`
/// image holds exactly the bytes a cache header for that image and level
/// count announces: what the builder writes, the cache reader accepts.
pub proof fn lemma_built_chain_fits_cache(format: TexFormat, w: int, h: int, n: nat)
    requires
        1 <= w,
        1 <= h,
        n <= mip_sizes(w, h).len(),
    ensures
        levels_bytes(format, mip_sizes(w, h), n) == chain_bytes(format, w, h, n),
    decreases n,
{
    if n > 0 {
        lemma_built_chain_fits_cache(format, w, h, (n - 1) as nat);
        lemma_mip_sizes_are_shifts(w, h, (n - 1) as nat);
    }
}

/// Only colour textures are stored as sRGB; colour and linear data both get
/// BC7, normal maps BC5 (two channels) and height maps BC4 (one channel);
/// uncompressed, every texture is 8-bit RGBA.
pub proof fn lemma_formats_by_kind(kind: TexKind)
    ensures
        (spec_format_of(kind, true) == TexFormat::Bc7RgbaUnormSrgb || spec_format_of(kind, false)
            == TexFormat::Rgba8UnormSrgb) <==> kind == TexKind::Color,
        spec_format_of(TexKind::Data, true) == TexFormat::Bc7RgbaUnorm,
        spec_format_of(TexKind::Normal, true) == TexFormat::Bc5RgUnorm,
        spec_format_of(TexKind::Depth, true) == TexFormat::Bc4RUnorm,
        spec_format_of(TexKind::Color, true) == TexFormat::Bc7RgbaUnormSrgb,
        kind != TexKind::Color ==> spec_format_of(kind, false) == TexFormat::Rgba8Unorm,
        spec_variant_of(TexKind::Color) == spec_variant_of(TexKind::Data),
        spec_variant_of(kind) == Compression::Bc5 <==> kind == TexKind::Normal,
        spec_variant_of(kind) == Compression::Bc4 <==> kind == TexKind::Depth,
{
}

} // verus!
