use aquarium::texture::{
    chain_fits, chunk_rows, compress, encode_chain, format_of, invert_height, mip_chain_sizes,
    pad_to_blocks, parse_cache, round_up_to4, serialize_cache, variant_of, Compression, TexFormat,
    TexKind,
};

#[test]
fn formats_follow_kind_and_compression() {
    assert_eq!(format_of(TexKind::Color, true), TexFormat::Bc7RgbaUnormSrgb);
    assert_eq!(format_of(TexKind::Data, true), TexFormat::Bc7RgbaUnorm);
    assert_eq!(format_of(TexKind::Normal, true), TexFormat::Bc5RgUnorm);
    assert_eq!(format_of(TexKind::Depth, true), TexFormat::Bc4RUnorm);
    assert_eq!(format_of(TexKind::Color, false), TexFormat::Rgba8UnormSrgb);
    assert_eq!(format_of(TexKind::Normal, false), TexFormat::Rgba8Unorm);
    assert_eq!(format_of(TexKind::Depth, false), TexFormat::Rgba8Unorm);
    assert_eq!(variant_of(TexKind::Color), Compression::Bc7);
    assert_eq!(variant_of(TexKind::Data), Compression::Bc7);
    assert_eq!(variant_of(TexKind::Normal), Compression::Bc5);
    assert_eq!(variant_of(TexKind::Depth), Compression::Bc4);
}

#[test]
fn block_sizes() {
    assert_eq!(TexFormat::Bc7RgbaUnorm.block_dimensions(), (4, 4));
    assert_eq!(TexFormat::Bc7RgbaUnorm.block_copy_size(), 16);
    assert_eq!(TexFormat::Bc5RgUnorm.block_copy_size(), 16);
    assert_eq!(TexFormat::Bc4RUnorm.block_copy_size(), 8);
    assert_eq!(TexFormat::Rgba8Unorm.block_dimensions(), (1, 1));
    assert_eq!(TexFormat::Rgba8UnormSrgb.block_copy_size(), 4);
}

#[test]
fn mip_chain_halves_down_to_one() {
    assert_eq!(mip_chain_sizes(8, 2), vec![(8, 2), (4, 1), (2, 1), (1, 1)]);
    assert_eq!(mip_chain_sizes(1, 1), vec![(1, 1)]);
    assert_eq!(mip_chain_sizes(5, 3), vec![(5, 3), (2, 1), (1, 1)]);
    let sizes = mip_chain_sizes(1000, 600);
    assert_eq!(sizes.len(), 10);
    for (l, s) in sizes.iter().enumerate() {
        assert_eq!(*s, ((1000u32 >> l).max(1), (600u32 >> l).max(1)));
    }
}

#[test]
fn chain_byte_counts() {
    // 8x8, 4x4, 2x2, 1x1: each level at least one 16-byte block.
    assert!(chain_fits(TexFormat::Bc7RgbaUnorm, 8, 8, 4, 64 + 16 + 16 + 16));
    assert!(!chain_fits(TexFormat::Bc7RgbaUnorm, 8, 8, 4, 111));
    assert!(!chain_fits(TexFormat::Bc7RgbaUnorm, 8, 8, 4, 113));
    assert!(chain_fits(TexFormat::Bc4RUnorm, 8, 8, 2, 32 + 8));
    assert!(chain_fits(TexFormat::Rgba8Unorm, 8, 8, 4, 256 + 64 + 16 + 4));
    assert!(chain_fits(TexFormat::Rgba8Unorm, 8, 8, 0, 0));
    // Levels past the chain's end stay 1x1.
    assert!(chain_fits(TexFormat::Rgba8Unorm, 2, 2, 4, 16 + 4 + 4 + 4));
}

#[test]
fn cache_round_trip() {
    let data: Vec<u8> = (0..(16 + 4 + 4 + 4)).map(|i| i as u8).collect();
    let bytes = serialize_cache(2, 2, 4, &data);
    assert_eq!(&bytes[..4], b"AQTX");
    assert_eq!(&bytes[4..8], &[2, 0, 0, 0]);
    assert_eq!(&bytes[12..16], &[4, 0, 0, 0]);
    assert_eq!(bytes.len(), 16 + data.len());
    let img = parse_cache(&bytes, TexFormat::Rgba8Unorm).expect("accepted");
    assert_eq!((img.width, img.height, img.levels), (2, 2, 4));
    assert_eq!(img.data, data);
}

#[test]
fn cache_rejects_bad_files() {
    let data = vec![7u8; 16];
    let bytes = serialize_cache(2, 2, 1, &data);
    // Wrong format: BC7 wants 16 bytes for 2x2, RGBA 16 too, BC4 only 8.
    assert!(parse_cache(&bytes, TexFormat::Bc4RUnorm).is_none());
    assert!(parse_cache(&bytes, TexFormat::Bc7RgbaUnorm).is_some());
    let mut bad = bytes.clone();
    bad[0] = b'B';
    assert!(parse_cache(&bad, TexFormat::Rgba8Unorm).is_none());
    let short = &bytes[..bytes.len() - 1];
    assert!(parse_cache(short, TexFormat::Rgba8Unorm).is_none());
    assert!(parse_cache(&bytes[..10], TexFormat::Rgba8Unorm).is_none());
}

#[test]
fn height_becomes_depth() {
    let mut px = vec![10u8, 20, 30, 40, 0, 255, 1, 2, 7];
    invert_height(&mut px);
    assert_eq!(px, vec![245, 235, 225, 40, 255, 0, 254, 2, 7]);
}

#[test]
fn rounding_to_blocks() {
    assert_eq!(round_up_to4(0), 0);
    assert_eq!(round_up_to4(1), 4);
    assert_eq!(round_up_to4(5), 8);
    assert_eq!(round_up_to4(8), 8);
    assert_eq!(chunk_rows(5, 2), 3);
    assert_eq!(chunk_rows(0, 4), 1);
    assert_eq!(chunk_rows(8, 8), 1);
}

#[test]
fn padding_repeats_the_edge() {
    // 2x1 image: texel 0 = 1, texel 1 = 2 (in every channel).
    let rgba = vec![1u8, 1, 1, 1, 2, 2, 2, 2];
    let padded = pad_to_blocks(&rgba, 2, 1);
    assert_eq!(padded.len(), 4 * 4 * 4);
    for y in 0..4 {
        for x in 0..4 {
            let want = if x == 0 { 1 } else { 2 };
            assert_eq!(padded[(y * 4 + x) * 4], want);
        }
    }
}

#[test]
fn compress_gives_blocks_of_the_level() {
    let rgba: Vec<u8> = (0..5 * 5 * 4).map(|i| (i * 7 % 251) as u8).collect();
    let mut bc7 = Vec::new();
    compress(Compression::Bc7, &rgba, 5, 5, 2, &mut bc7);
    assert_eq!(bc7.len(), 2 * 2 * 16);
    let mut bc4 = vec![9u8];
    compress(Compression::Bc4, &rgba, 5, 5, 1, &mut bc4);
    assert_eq!(bc4.len(), 1 + 2 * 2 * 8);
    assert_eq!(bc4[0], 9);
    // Not the pixels themselves.
    assert_ne!(&bc7[..], &rgba[..bc7.len()]);
    // Chunking does not change the blocks.
    let mut one = Vec::new();
    compress(Compression::Bc7, &rgba, 5, 5, 1, &mut one);
    assert_eq!(one, bc7);
}

#[test]
fn compressing_a_flat_image_is_flat() {
    let rgba = vec![200u8; 8 * 8 * 4];
    let mut out = Vec::new();
    compress(Compression::Bc4, &rgba, 8, 8, 3, &mut out);
    assert_eq!(out.len(), 4 * 8);
    assert_eq!(&out[0..8], &out[8..16]);
    assert_eq!(&out[0..8], &out[24..32]);
}

#[test]
fn encoded_chain_fits_its_cache_header() {
    let levels: Vec<(Vec<u8>, (u32, u32))> = mip_chain_sizes(8, 4)
        .into_iter()
        .map(|(w, h)| (vec![128u8; (w * h * 4) as usize], (w, h)))
        .collect();
    let n = levels.len() as u32;
    let data = encode_chain(TexKind::Normal, true, &levels, 2);
    assert!(chain_fits(TexFormat::Bc5RgUnorm, 8, 4, n, data.len()));
    let raw = encode_chain(TexKind::Color, false, &levels, 2);
    assert!(chain_fits(TexFormat::Rgba8UnormSrgb, 8, 4, n, raw.len()));
    assert_eq!(&raw[..], &vec![128u8; raw.len()][..]);
    let file = serialize_cache(8, 4, n, &data);
    let back = parse_cache(&file, TexFormat::Bc5RgUnorm).expect("accepted");
    assert_eq!(back.data, data);
}
