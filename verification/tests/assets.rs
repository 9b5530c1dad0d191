use canary::assets::error::AssetError;
use canary::assets::mesh::{check_glb, GlbContainer};
use canary::assets::handle::AssetHandle;
use canary::assets::id::{AssetId, LOADER_VERSION};
use canary::assets::store::AssetStore;
use canary::assets::texture::{
    check_decode_budget, expand_to_rgba8, load_texture, load_texture_with_budget, FrameLayout, PngColor,
    PngDepth, DEFAULT_MAX_TEXTURE_BYTES,
};
use canary::ecs::entity::ComponentId;
use canary::ecs::world::World;

// ---------------------------------------------------------------------------
// Errors
// ---------------------------------------------------------------------------

#[test]
fn io_error_message_names_the_path() {
    let err = AssetError::io(
        "meshes/quad.glb",
        std::io::Error::new(std::io::ErrorKind::NotFound, "missing here"),
    );
    let rendered = err.message();
    assert!(rendered.contains("meshes/quad.glb"), "message must name the file, got: {rendered}");
    assert_eq!(err.path(), Some("meshes/quad.glb"), "path accessor must return the file");
}

#[test]
fn invalid_format_message_carries_path_and_reason() {
    let err = AssetError::invalid_format("tex/noise.png", "bad PNG signature");
    let rendered = err.message();
    assert!(rendered.contains("tex/noise.png"), "got: {rendered}");
    assert!(rendered.contains("bad PNG signature"), "got: {rendered}");
}

#[test]
fn unsupported_feature_is_distinct_from_invalid_format() {
    let err = AssetError::unsupported_feature("tex/deep.png", "16-bit sample depth");
    assert!(
        matches!(err, AssetError::UnsupportedFeature { .. }),
        "narrow loader must not blame the file, got: {err:?}"
    );
    assert!(err.message().contains("16-bit sample depth"));
}

#[test]
fn over_budget_reports_both_numbers() {
    let err = AssetError::over_budget("tex/huge.png", 65_536, 1_000_000);
    let rendered = err.message();
    assert!(rendered.contains("65536"), "got: {rendered}");
    assert!(rendered.contains("1000000"), "got: {rendered}");
}

#[test]
fn unknown_handle_has_no_path() {
    let err = AssetError::UnknownHandle { index: 3, generation: 1 };
    assert_eq!(err.path(), None, "handle errors name a slot, not a file");
    assert!(err.message().contains('3'));
}

#[test]
fn over_budget_message_is_exact() {
    let err = AssetError::over_budget("a.png", 15, 16);
    assert_eq!(err.message(), "asset file 'a.png' exceeds budget: 16 > limit 15");
    let err = AssetError::UnknownHandle { index: 0, generation: 1234567890 };
    assert_eq!(err.message(), "unknown asset handle: index 0, generation 1234567890");
}

// ---------------------------------------------------------------------------
// Content ids
// ---------------------------------------------------------------------------

#[test]
fn identical_bytes_yield_identical_ids() {
    let left = AssetId::new(b"quad positions");
    let right = AssetId::new(b"quad positions");
    assert_eq!(left, right, "content addressing must be deterministic");
}

#[test]
fn different_bytes_yield_different_ids() {
    let left = AssetId::new(b"quad");
    let right = AssetId::new(b"box");
    assert_ne!(left, right, "distinct content must not share an ID");
}

#[test]
fn hex_round_trip_recovers_the_id() {
    let id = AssetId::new(b"round trip me");
    let hex = id.to_hex();
    assert_eq!(hex.len(), 64, "SHA-256 must render as 64 hex chars");
    assert_eq!(AssetId::from_hex(&hex).expect("hex we just rendered must parse"), id, "hex must parse back to the same ID");
}

#[test]
fn from_hex_rejects_garbage_without_panicking() {
    assert!(AssetId::from_hex("not hex at all").is_err(), "short garbage must be Err");
    assert!(AssetId::from_hex(&"zz".repeat(32)).is_err(), "64 non-hex chars must be Err");
    assert!(AssetId::from_hex(&"ab".repeat(31)).is_err(), "62 hex chars must be Err");
}

#[test]
fn loader_version_bump_changes_the_id() {
    let under_v1 = AssetId::with_version(b"same bytes", "canary-assets-loader/1");
    let under_v2 = AssetId::with_version(b"same bytes", "canary-assets-loader/2");
    assert_ne!(under_v1, under_v2);
}

#[test]
fn current_version_matches_the_constant() {
    assert_eq!(AssetId::new(b"probe"), AssetId::with_version(b"probe", LOADER_VERSION));
}

#[test]
fn id_is_the_sha256_of_version_separator_and_bytes() {
    // SHA-256 of "canary-assets-loader/1\0" with empty content.
    let id = AssetId::new(b"");
    let hex = id.to_hex();
    assert_eq!(hex.len(), 64);
    assert!(hex.bytes().all(|b| b.is_ascii_hexdigit() && !b.is_ascii_uppercase()));
    // The framing is what is hashed: a separator byte moved into the
    // content changes the id.
    assert_ne!(AssetId::with_version(b"\0x", "v"), AssetId::with_version(b"x", "v"));
    assert_eq!(AssetId::with_version(b"x", "v\0"), AssetId::with_version(b"\0x", "v"));
}

#[test]
fn from_hex_accepts_uppercase_and_rejects_with_the_documented_reasons() {
    let id = AssetId::new(b"case");
    let upper = id.to_hex().to_uppercase();
    assert_eq!(AssetId::from_hex(&upper).unwrap(), id);
    match AssetId::from_hex("abc") {
        Err(AssetError::InvalidFormat { path, reason }) => {
            assert_eq!(path, "abc");
            assert_eq!(reason, "asset id hex must be 64 characters");
        }
        other => panic!("unexpected: {other:?}"),
    }
    match AssetId::from_hex(&"g".repeat(64)) {
        Err(AssetError::InvalidFormat { reason, .. }) => {
            assert_eq!(reason, "asset id hex contains non-hex characters");
        }
        other => panic!("unexpected: {other:?}"),
    }
}

#[test]
fn for_file_reports_a_missing_file_as_io_error() {
    let err = AssetId::from_read(
        "definitely-not-an-asset.glb",
        Err(std::io::Error::new(std::io::ErrorKind::NotFound, "no such file")),
    )
    .expect_err("missing file must fail");
    assert!(matches!(err, AssetError::Io { .. }), "missing file must be Io, got: {err:?}");
    assert_eq!(AssetId::from_read("x", Ok(b"on-disk bytes".to_vec())).unwrap(), AssetId::new(b"on-disk bytes"));
}

// ---------------------------------------------------------------------------
// Handles and the store
// ---------------------------------------------------------------------------

#[test]
fn insert_then_get_returns_the_asset() {
    let mut store = AssetStore::new();
    let handle = store.insert(String::from("quad"));
    assert_eq!(store.get(handle), Some(&String::from("quad")));
    assert_eq!(store.len(), 1);
}

#[test]
fn get_after_remove_returns_none() {
    let mut store = AssetStore::new();
    let handle = store.insert(42u32);
    let removed = store.remove(handle);
    assert_eq!(removed, Some(42u32), "live removal must return the asset");
    assert_eq!(store.get(handle), None, "a removed handle must go stale, not keep resolving");
    assert!(store.is_empty());
}

#[test]
fn recycled_slot_does_not_alias_the_stale_handle() {
    let mut store = AssetStore::new();
    let stale = store.insert(String::from("first"));
    store.remove(stale);
    let live = store.insert(String::from("second"));
    assert_eq!(store.get(stale), None, "the old handle must not see the recycled slot's new asset");
    assert_eq!(store.get(live), Some(&String::from("second")), "the recycled slot's new handle must resolve");
}

#[test]
fn invented_handles_resolve_to_none() {
    let store = AssetStore::<String>::new();
    let invented = AssetHandle::from_raw_parts(99, 0);
    assert_eq!(store.get(invented), None, "a handle this store never issued must not resolve");
}

#[test]
fn contains_mirrors_get_liveness_exactly() {
    let mut store = AssetStore::new();
    let live = store.insert(1u32);
    let invented = AssetHandle::from_raw_parts(99, 0);
    assert!(store.contains(live), "a live handle must read ready");
    assert!(!store.contains(invented), "a never-issued handle must read not-ready");
    store.remove(live);
    assert!(!store.contains(live), "a removed handle must read not-ready, matching get returning None");
    assert_eq!(store.contains(live), store.get(live).is_some(), "contains must never disagree with get");
}

#[test]
fn double_remove_returns_none_the_second_time() {
    let mut store = AssetStore::new();
    let handle = store.insert(7u32);
    assert_eq!(store.remove(handle), Some(7u32));
    assert_eq!(store.remove(handle), None, "second removal of the same handle must be a quiet None, not a panic");
}

#[test]
fn store_lives_as_an_ecs_resource() {
    const STORE: ComponentId = ComponentId(1);
    let mut world = World::new();
    let mut store = AssetStore::new();
    let handle = store.insert(String::from("resident"));
    world.insert_resource(STORE, store);
    let stored = world.resource(STORE).expect("store must be retrievable as a resource");
    assert_eq!(stored.get(handle), Some(&String::from("resident")));
}

#[test]
fn remove_with_wrong_generation_leaves_the_live_asset_untouched() {
    let mut store = AssetStore::new();
    let live = store.insert(11u32);
    let forged = AssetHandle::from_raw_parts(live.index(), live.generation() + 1);
    assert_eq!(store.remove(forged), None, "a forged generation must not remove the live asset");
    assert_eq!(store.get(live), Some(&11u32), "the live asset must survive a forged-generation removal");
    assert_eq!(store.get(forged), None, "the forged handle itself must never resolve");
    assert_eq!(store.len(), 1);
}

#[test]
fn invented_generation_on_a_live_index_resolves_to_none() {
    let mut store = AssetStore::new();
    let live = store.insert(22u32);
    let invented = AssetHandle::from_raw_parts(live.index(), live.generation() + 7);
    assert_eq!(store.get(invented), None);
    assert!(!store.contains(invented));
    assert_eq!(store.get(live), Some(&22u32));
}

#[test]
fn len_counts_live_assets_across_recycle_not_slots() {
    let mut store = AssetStore::new();
    let first = store.insert(1u32);
    let second = store.insert(2u32);
    assert_eq!(store.len(), 2);
    store.remove(first);
    assert_eq!(store.len(), 1);
    assert!(!store.is_empty());
    let third = store.insert(3u32);
    assert_eq!(store.len(), 2, "a recycled slot holds a live asset again");
    assert_ne!(first, third, "the recycled handle must differ from the stale one by generation");
    assert_eq!(first.index(), third.index(), "recycle must reuse the freed slot");
    assert_eq!(store.get(first), None);
    assert_eq!(store.get(second), Some(&2u32));
    assert_eq!(store.get(third), Some(&3u32));
}

#[test]
fn ten_thousand_insert_remove_cycles_advance_generation_without_aliasing() {
    let mut store = AssetStore::new();
    let first = store.insert(0u32);
    let mut live = first;
    for cycle in 1..=10_000u32 {
        let removed = store.remove(live);
        assert_eq!(removed, Some(cycle - 1), "cycle {cycle}: live removal must return the inserted value");
        live = store.insert(cycle);
        assert_eq!(live.index(), first.index(), "cycle {cycle}: one slot must be reused, not grown");
        assert_eq!(live.generation(), u64::from(cycle), "cycle {cycle}: each recycle must bump the generation exactly once");
        assert_eq!(store.get(first), None, "cycle {cycle}: the first handle must never re-resolve");
        assert_eq!(store.get(live), Some(&cycle));
        assert_eq!(store.len(), 1);
    }
    assert_eq!(store.get(live), Some(&10_000u32));
    assert!(store.contains(live));
}

#[test]
fn handles_compare_by_index_and_generation() {
    let a = AssetHandle::<u32>::from_raw_parts(1, 2);
    let b = AssetHandle::<u32>::from_raw_parts(1, 2);
    let c = AssetHandle::<u32>::from_raw_parts(1, 3);
    assert_eq!(a, b);
    assert_ne!(a, c);
    let as_string: AssetHandle<String> = a.with_type();
    assert_eq!((as_string.index(), as_string.generation()), (1, 2));
}

// ---------------------------------------------------------------------------
// Textures
// ---------------------------------------------------------------------------

fn encode_png(width: u32, height: u32, color: png::ColorType, depth: png::BitDepth, pixels: &[u8]) -> Vec<u8> {
    let mut out = Vec::new();
    {
        let mut encoder = png::Encoder::new(&mut out, width, height);
        encoder.set_color(color);
        encoder.set_depth(depth);
        let mut writer = encoder.write_header().expect("in-memory encode must succeed");
        writer.write_image_data(pixels).expect("in-memory encode must succeed");
    }
    out
}

/// The 2x2 RGBA fixture: red, green / blue, white.
fn rgba2x2() -> Vec<u8> {
    encode_png(
        2,
        2,
        png::ColorType::Rgba,
        png::BitDepth::Eight,
        &[255, 0, 0, 255, 0, 255, 0, 255, 0, 0, 255, 255, 255, 255, 255, 255],
    )
}

/// The 2x1 16-bit RGBA fixture.
fn rgba16_2x1() -> Vec<u8> {
    encode_png(
        2,
        1,
        png::ColorType::Rgba,
        png::BitDepth::Sixteen,
        &[
            0xFF, 0xFF, 0x00, 0x00, 0x80, 0x00, 0xFF, 0xFF, //
            0x12, 0x34, 0x56, 0x78, 0x9A, 0xBC, 0xDE, 0xF0,
        ],
    )
}

#[test]
fn rgba_fixture_decodes_to_known_bytes() {
    let texture = load_texture("rgba2x2.png", Ok(rgba2x2())).expect("RGBA fixture must load");
    assert_eq!(texture.width(), 2);
    assert_eq!(texture.height(), 2);
    assert_eq!(
        texture.rgba8(),
        &[255, 0, 0, 255, 0, 255, 0, 255, 0, 0, 255, 255, 255, 255, 255, 255],
        "row-major top-to-bottom bytes"
    );
}

#[test]
fn pixel_accessor_names_corners_and_rejects_outside() {
    let texture = load_texture("rgba2x2.png", Ok(rgba2x2())).expect("RGBA fixture must load");
    assert_eq!(texture.pixel(0, 0), Some([255, 0, 0, 255]));
    assert_eq!(texture.pixel(1, 0), Some([0, 255, 0, 255]));
    assert_eq!(texture.pixel(0, 1), Some([0, 0, 255, 255]));
    assert_eq!(texture.pixel(1, 1), Some([255, 255, 255, 255]));
    assert_eq!(texture.pixel(2, 0), None, "past the right edge");
    assert_eq!(texture.pixel(0, 2), None, "past the bottom edge");
}

#[test]
fn sixteen_bit_samples_downsample_to_most_significant_byte() {
    let texture = load_texture("rgba16-2x1.png", Ok(rgba16_2x1())).expect("16-bit fixture must load");
    assert_eq!((texture.width(), texture.height()), (2, 1));
    assert_eq!(
        texture.rgba8(),
        &[255, 0, 128, 255, 0x12, 0x56, 0x9A, 0xDE],
        "the high byte is kept: 0x8000 -> 0x80, 0x1234 -> 0x12, ..."
    );
}

#[test]
fn texture_missing_file_is_io_not_a_panic() {
    let err = load_texture(
        "definitely-not-a-texture.png",
        Err(std::io::Error::new(std::io::ErrorKind::NotFound, "no such file")),
    )
    .expect_err("missing file must fail");
    assert!(matches!(err, AssetError::Io { .. }), "missing file must be Io, got: {err:?}");
}

#[test]
fn grayscale_expands_across_rgb_with_opaque_alpha() {
    let bytes = encode_png(2, 1, png::ColorType::Grayscale, png::BitDepth::Eight, &[0x00, 0x7F]);
    let texture = load_texture("gray.png", Ok(bytes)).expect("grayscale must load");
    assert_eq!(texture.rgba8(), &[0, 0, 0, 255, 127, 127, 127, 255]);
}

#[test]
fn rgb_gains_opaque_alpha() {
    let bytes = encode_png(1, 1, png::ColorType::Rgb, png::BitDepth::Eight, &[10, 20, 30]);
    let texture = load_texture("rgb.png", Ok(bytes)).expect("RGB must load");
    assert_eq!(texture.rgba8(), &[10, 20, 30, 255]);
}

#[test]
fn grayscale_alpha_keeps_its_alpha() {
    let bytes = encode_png(1, 1, png::ColorType::GrayscaleAlpha, png::BitDepth::Eight, &[0x40, 0x80]);
    let texture = load_texture("gray-alpha.png", Ok(bytes)).expect("grayscale-alpha must load");
    assert_eq!(texture.rgba8(), &[0x40, 0x40, 0x40, 0x80]);
}

#[test]
fn garbage_bytes_are_invalid_format() {
    let err = load_texture("garbage.png", Ok(b"this is not a png file".to_vec())).expect_err("garbage must fail");
    assert!(matches!(err, AssetError::InvalidFormat { .. }), "garbage must be InvalidFormat, got: {err:?}");
}

#[test]
fn truncated_fixture_is_invalid_format() {
    let full = rgba2x2();
    let err = load_texture("truncated.png", Ok(full[..30].to_vec())).expect_err("truncated file must fail");
    assert!(matches!(err, AssetError::InvalidFormat { .. }), "truncated file must be InvalidFormat, got: {err:?}");
}

#[test]
fn tiny_budget_refuses_before_decoding() {
    let err = load_texture_with_budget("rgba2x2.png", Ok(rgba2x2()), 15)
        .expect_err("15-byte budget must fail a 16-byte image");
    match err {
        AssetError::OverBudget { limit, actual, .. } => {
            assert_eq!(limit, 15);
            assert_eq!(actual, 16);
        }
        other => panic!("must be OverBudget, got: {other:?}"),
    }
}

#[test]
fn exact_budget_is_enough() {
    let texture = load_texture_with_budget("rgba2x2.png", Ok(rgba2x2()), 16)
        .expect("a budget of exactly the output size must succeed");
    assert_eq!(texture.rgba8().len(), 16);
}

#[test]
fn lying_header_claiming_gigapixels_is_over_budget() {
    let mut bytes = encode_png(1, 1, png::ColorType::Rgba, png::BitDepth::Eight, &[1, 2, 3, 4]);
    bytes[16..20].copy_from_slice(&u32::MAX.to_be_bytes());
    bytes[20..24].copy_from_slice(&u32::MAX.to_be_bytes());
    let crc = crc32(&bytes[12..29]);
    bytes[29..33].copy_from_slice(&crc.to_be_bytes());
    let err = load_texture("lying-header.png", Ok(bytes)).expect_err("gigapixel claim must fail");
    assert!(matches!(err, AssetError::OverBudget { .. }), "lying header must be OverBudget, got: {err:?}");
}

/// Minimal CRC32 (IEEE) for patching a PNG chunk CRC.
fn crc32(data: &[u8]) -> u32 {
    let mut crc = 0xFFFF_FFFFu32;
    for byte in data {
        crc ^= u32::from(*byte);
        for _ in 0..8 {
            let mask = (crc & 1).wrapping_neg();
            crc = (crc >> 1) ^ (0xEDB8_8320 & mask);
        }
    }
    !crc
}

#[test]
fn budget_check_reports_the_claimed_size() {
    assert_eq!(check_decode_budget("a", 2, 2, 16).unwrap(), 16);
    match check_decode_budget("a", u32::MAX, u32::MAX, DEFAULT_MAX_TEXTURE_BYTES) {
        Err(AssetError::OverBudget { limit, actual, .. }) => {
            assert_eq!(limit, DEFAULT_MAX_TEXTURE_BYTES);
            assert_eq!(actual, u64::MAX);
        }
        other => panic!("must be OverBudget, got: {other:?}"),
    }
}

#[test]
fn expansion_rejects_layouts_it_does_not_know_and_short_frames() {
    let frame = FrameLayout { width: 1, height: 1, color: PngColor::Indexed, depth: PngDepth::Eight };
    match expand_to_rgba8("p.png", &[0], frame) {
        Err(AssetError::UnsupportedFeature { feature, .. }) => {
            assert_eq!(feature, "PNG decoder output Indexed at Eight");
        }
        other => panic!("must be UnsupportedFeature, got: {other:?}"),
    }
    let frame = FrameLayout { width: 2, height: 1, color: PngColor::Rgb, depth: PngDepth::Eight };
    match expand_to_rgba8("p.png", &[1, 2, 3], frame) {
        Err(AssetError::InvalidFormat { reason, .. }) => {
            assert_eq!(reason, "Rgb frame holds 3 bytes but needs 6");
        }
        other => panic!("must be InvalidFormat, got: {other:?}"),
    }
    assert_eq!(expand_to_rgba8("p.png", &[1, 2, 3, 4, 5, 6], frame).unwrap(), vec![1, 2, 3, 255, 4, 5, 6, 255]);
}

#[test]
fn loaded_texture_flows_through_asset_store_with_stable_identity() {
    let bytes = rgba2x2();
    assert_eq!(AssetId::from_read("rgba2x2.png", Ok(bytes.clone())).unwrap(), AssetId::new(&bytes));
    assert_eq!(AssetId::new(&bytes), AssetId::with_version(&bytes, LOADER_VERSION));
    let texture = load_texture("rgba2x2.png", Ok(bytes)).expect("RGBA fixture must load");
    let mut store = AssetStore::new();
    let handle = store.insert(texture);
    let stored = store.get(handle).expect("live handle must resolve");
    assert_eq!(stored.pixel(0, 0), Some([255, 0, 0, 255]));
}

#[test]
fn ids_are_sha256_of_the_framed_content() {
    // SHA-256 of the single byte 0x00: empty version, separator, no content.
    assert_eq!(
        AssetId::with_version(b"", "").to_hex(),
        "6e340b9cffb37a989ca544e6bb780a2c78901d3fb33738768511a30617afa01d"
    );
    // SHA-256 of "canary-assets-loader/1\0quad".
    assert_eq!(
        AssetId::new(b"quad").to_hex(),
        "c7787ca4faced7cc3d9f7533a6f34500c7b80d010e9c876f6703d0045a04517d"
    );
}

#[test]
fn handles_render_as_documented() {
    assert_eq!(AssetHandle::<u32>::from_raw_parts(3, 1).to_text(), "Asset(3v1)");
}

#[test]
fn outside_root_names_both_paths() {
    let err = AssetError::outside_root("assets", "/etc/passwd");
    assert_eq!(err.path(), Some("/etc/passwd"));
    assert_eq!(err.message(), "asset path '/etc/passwd' resolves outside the asset root 'assets'");
}

#[test]
fn recycled_slots_never_alias_stale_handles() {
    let mut state: u64 = 7;
    let mut next = |bound: u64| {
        state = state.wrapping_mul(6364136223846793005).wrapping_add(1442695040888963407);
        (state >> 33) % bound
    };
    let mut store: AssetStore<u32> = AssetStore::new();
    // Every handle ever issued, with the value it should still resolve to
    // (None once removed).
    let mut issued: Vec<(AssetHandle<u32>, Option<u32>)> = Vec::new();
    for step in 0..400u32 {
        if next(3) == 0 || issued.is_empty() {
            let h = store.insert(step);
            assert!(issued.iter().all(|(old, _)| *old != h), "a fresh handle never equals an old one");
            issued.push((h, Some(step)));
        } else {
            let k = next(issued.len() as u64) as usize;
            let (h, expected) = issued[k];
            assert_eq!(store.remove(h), expected);
            issued[k].1 = None;
        }
        for (h, expected) in &issued {
            assert_eq!(store.get(*h).copied(), *expected);
        }
        let live = issued.iter().filter(|(_, v)| v.is_some()).count();
        assert_eq!(store.len(), live);
    }
}

#[test]
fn bare_index_reuse_does_not_alias_across_generations() {
    let stale = AssetHandle::<u32>::from_raw_parts(0, 0);
    let recycled = AssetHandle::<u32>::from_raw_parts(0, 1);
    assert_ne!(
        stale, recycled,
        "the negative control for slot recycling: a stale handle must never equal the recycled one"
    );
}

#[test]
fn handles_are_copy_and_hash_by_identity() {
    let handle = AssetHandle::<u32>::from_raw_parts(1, 4);
    let copy = handle;
    assert_eq!(handle, copy, "handles must be Copy, like Entity");
    let mut set = std::collections::HashSet::new();
    set.insert(handle);
    assert!(set.contains(&copy));
    assert!(!set.contains(&AssetHandle::<u32>::from_raw_parts(1, 5)));
}

#[test]
fn type_reinterpretation_preserves_slot_identity() {
    let mesh = AssetHandle::<u32>::from_raw_parts(7, 2);
    let texture: AssetHandle<String> = mesh.with_type();
    assert_eq!(texture.index(), 7);
    assert_eq!(texture.generation(), 2);
    assert_eq!(mesh.to_text(), "Asset(7v2)");
}

const ONE_TRIANGLE_JSON: &str = r#"{"asset":{"version":"2.0"},"accessors":[{"bufferView":0,"componentType":5126,"count":3,"type":"VEC3","max":[1.0,1.0,0.0],"min":[0.0,0.0,0.0]}],"bufferViews":[{"buffer":0,"byteLength":36,"byteOffset":0}],"buffers":[{"byteLength":36BUFFER_URI}],"meshes":[{"primitives":[{"attributes":{"POSITION":0}}]}]}"#;

fn glb_with_bin(json: &str, bin: &[u8]) -> Vec<u8> {
    let mut json_chunk = json.as_bytes().to_vec();
    while json_chunk.len() % 4 != 0 {
        json_chunk.push(b' ');
    }
    let mut bin_chunk = bin.to_vec();
    while bin_chunk.len() % 4 != 0 {
        bin_chunk.push(0);
    }
    let total = 12 + 8 + json_chunk.len() + 8 + bin_chunk.len();
    let mut out = Vec::new();
    out.extend_from_slice(b"glTF");
    out.extend_from_slice(&2u32.to_le_bytes());
    out.extend_from_slice(&(total as u32).to_le_bytes());
    out.extend_from_slice(&(json_chunk.len() as u32).to_le_bytes());
    out.extend_from_slice(&0x4E4F_534Au32.to_le_bytes());
    out.extend_from_slice(&json_chunk);
    out.extend_from_slice(&(bin_chunk.len() as u32).to_le_bytes());
    out.extend_from_slice(&0x004E_4942u32.to_le_bytes());
    out.extend_from_slice(&bin_chunk);
    out
}

#[test]
fn glb_garbage_bytes_are_invalid_format() {
    let err = check_glb("meshes/garbage.glb", b"definitely not a glTF file").unwrap_err();
    assert!(matches!(err, AssetError::InvalidFormat { .. }), "got {err:?}");
    assert_eq!(err.path(), Some("meshes/garbage.glb"));
}

#[test]
fn glb_without_meshes_is_invalid_format() {
    let err = check_glb("meshes/empty.gltf", br#"{"asset":{"version":"2.0"}}"#).unwrap_err();
    assert!(matches!(err, AssetError::InvalidFormat { .. }), "got {err:?}");
}

#[test]
fn glb_with_external_buffer_is_unsupported() {
    let json = ONE_TRIANGLE_JSON.replace("BUFFER_URI", r#","uri":"triangle.bin""#);
    let err = check_glb("meshes/external.gltf", json.as_bytes()).unwrap_err();
    assert!(matches!(err, AssetError::UnsupportedFeature { .. }), "got {err:?}");
}

#[test]
fn glb_with_embedded_bin_chunk_is_accepted_and_summarized() {
    let json = ONE_TRIANGLE_JSON.replace("BUFFER_URI", "");
    let mut bin = Vec::new();
    for v in [0.0f32, 0.0, 0.0, 1.0, 0.0, 0.0, 0.0, 1.0, 0.0] {
        bin.extend_from_slice(&v.to_le_bytes());
    }
    let (gltf, container) = check_glb("meshes/triangle.glb", &glb_with_bin(&json, &bin)).unwrap();
    assert_eq!(
        container,
        GlbContainer { mesh_count: 1, buffer_count: 1, first_buffer_is_bin: true, has_bin_chunk: true }
    );
    assert_eq!(gltf.blob.as_ref().map(|b| b.len()), Some(36));
}

#[test]
fn out_of_range_index_reason_names_the_index() {
    let indices: [u32; 6] = [0, 1, 2, 0, 2, 99];
    let err = canary::assets::mesh::check_primitive_data(
        "meshes/oob.glb",
        4,
        Some(4),
        canary::assets::mesh::AttributeRead::Absent,
        canary::assets::mesh::AttributeRead::Read(4),
        6,
        Some(&indices[..]),
    )
    .unwrap_err();
    match &err {
        AssetError::InvalidFormat { reason, .. } => {
            assert_eq!(reason, "index 99 is out of bounds for 4 vertices")
        }
        other => panic!("expected InvalidFormat, got {other:?}"),
    }
}

#[test]
fn glb_header_shorter_than_itself_is_invalid_format() {
    let mut bytes = Vec::new();
    bytes.extend_from_slice(b"glTF");
    bytes.extend_from_slice(&2u32.to_le_bytes());
    bytes.extend_from_slice(&4u32.to_le_bytes());
    bytes.extend_from_slice(&[0u8; 16]);
    let err = check_glb("meshes/short.glb", &bytes).unwrap_err();
    assert!(matches!(err, AssetError::InvalidFormat { .. }), "got {err:?}");
}

#[test]
fn glb_position_naming_a_missing_accessor_is_invalid_format_not_a_panic() {
    let json = ONE_TRIANGLE_JSON.replace("BUFFER_URI", "").replace(r#""POSITION":0"#, r#""POSITION":7"#);
    let mut bin = Vec::new();
    for v in [0.0f32, 0.0, 0.0, 1.0, 0.0, 0.0, 0.0, 1.0, 0.0] {
        bin.extend_from_slice(&v.to_le_bytes());
    }
    let err = check_glb("meshes/dangling.glb", &glb_with_bin(&json, &bin)).unwrap_err();
    assert!(matches!(err, AssetError::InvalidFormat { .. }), "got {err:?}");
}
