use porter::cell::{cell_id_from_face_level_col_row, face_level_col_row_from_cell_id};
use porter::handlers::{
    apply_limit, list_layer_items, parse_tile_coordinate, stable_text_order, GetChildTilesetPaths,
    GetTerrariumTilePaths, GetWmtsSimpleImageryPaths, LayerListError, PayloadError,
};
use porter::terrarium::{
    check_rgb_frame_len, check_terrarium_png_header, elevation_source_is_png,
    mapzen_zoom_to_s2_level, plan_raster_tile, raster_source_uris, resolve_elevation_raster_uri_tokens,
    rgb_pixels, terrarium_fixed_from_rgb, terrarium_frame, jpeg_pixels, terrarium_rgb, RasterPlanError, TerrariumPngError,
};
use porter::tiles::{
    definition_hash, feature_tile_uri, root_tileset_content_uri, s2_root_child_uri, sidecar_uri,
    LayerDefinition,
};
use porter::uri::{
    dir_of, is_model_glb, make_relative, resolve_uri, rewrite_image_uri, sniff_content_type,
    unique_in_order, uri_relative_to_base_dir, RewriteError, UriError,
};

const FACE0: u64 = 0x1000_0000_0000_0000;

/// The cell id a token names, as the `s2` crate reads it.
fn cell_from_token(token: &str) -> u64 {
    s2::cellid::CellID::from_token(token).0
}

/// The four children of a cell, as the `s2` crate computes them.
fn cell_children(id: u64) -> [u64; 4] {
    s2::cellid::CellID(id).children().map(|c| c.0)
}

fn layer() -> LayerDefinition {
    LayerDefinition {
        id: "city".into(),
        source_uri_content_template: "s3://bucket/{CONTENT_ROOT_TOKEN}/content.3tz".into(),
        source_s2_content_package_level: 0,
        source_s2_content_min_level: 1,
        source_s2_content_max_level: 2,
        source_s2_content_extension: "glb".into(),
        source_s2_content_coverage_tokens: vec!["04".into(), "3".into()],
        version: 1,
        base_globe_terrain_uri: Some("s3://bucket/globe".into()),
        asset_id: 7,
        description: None,
        content_transforms: vec!["inline_owt_referenced_models".into()],
        elevation_raster_content: Some("dtm/{FACE}/{LEVEL}/{COL}/{ROW}.png".into()),
        imagery_raster_content: None,
    }
}

#[test]
fn cell_arithmetic_through_the_layer() {
    let mut l = layer();
    // Tokens are read into cell ids, in order.
    assert_eq!(l.coverage_cell_ids(), vec![cell_from_token("04"), 0x3000_0000_0000_0000]);
    // The package token of a level-1 cell under package level 0 is its face's.
    let plan = l.synthesize_tileset(0, 1, 0, 0);
    assert_eq!(plan.cell, cell_from_token("04"));
    assert_eq!(plan.content_uri, Some("../../../../c/1/0/1/0/0.glb".to_string()));
    l.source_s2_content_package_level = 1;
    let plan = l.synthesize_tileset(0, 1, 0, 1);
    assert_eq!(plan.cell, cell_from_token("0c"));
    assert_eq!(plan.content_uri, Some("../../../../c/0c/0/1/0/1.glb".to_string()));
    // The children of face 0 are 04, 0c, 14, 1c; only 04 is covered.
    let top = layer().synthesize_tileset(0, 0, 0, 0);
    assert_eq!(top.cell, FACE0);
    assert_eq!(top.children.len(), 1);
    assert_eq!(top.children[0].cell, 0x0400_0000_0000_0000);
    assert_eq!(top.token, "1");
    assert_eq!(top.children[0].token, "04");
    // Faces of the coverage cells.
    let groups = layer().content_coverage_tokens_by_s2_face();
    assert_eq!(groups[1].0, 1);
}

#[test]
fn cells_of_tiles() {
    assert_eq!(cell_id_from_face_level_col_row(0, 0, 0, 0), FACE0);
    assert_eq!(cell_id_from_face_level_col_row(0, 1, 0, 0), cell_from_token("04"));
    assert_eq!(cell_id_from_face_level_col_row(0, 1, 0, 1), cell_from_token("0c"));
    for (face, level, col, row) in [(2u8, 5, 7, 19), (5, 12, 1000, 3), (1, 30, 5, 6)] {
        let cell = cell_id_from_face_level_col_row(face, level, col, row);
        assert_eq!(face_level_col_row_from_cell_id(cell), (face, level, col, row));
    }
}

#[test]
fn cell_tokens_read_back() {
    let mut l = layer();
    let ids = [0u64, 1, FACE0, 0x0c00_0000_0000_0000, 0x89c2_5a31_0000_0000, u64::MAX];
    l.source_s2_content_coverage_tokens =
        ids.iter().map(|id| s2::cellid::CellID(*id).to_token()).collect();
    assert_eq!(l.coverage_cell_ids(), ids.to_vec());
    l.source_s2_content_coverage_tokens = vec!["+1".into(), "zz".into(), "".into(), "10000000000000000".into()];
    assert_eq!(l.coverage_cell_ids(), vec![0x0100_0000_0000_0000, 0, 0, 0]);
}

#[test]
fn face_level_col_row_of_cells() {
    assert_eq!(face_level_col_row_from_cell_id(FACE0), (0, 0, 0, 0));
    let mut seen = Vec::new();
    for kid in cell_children(FACE0) {
        let (face, level, col, row) = face_level_col_row_from_cell_id(kid);
        assert_eq!((face, level), (0, 1));
        assert!((0..2).contains(&col) && (0..2).contains(&row));
        seen.push((col, row));
    }
    seen.sort();
    seen.dedup();
    assert_eq!(seen.len(), 4);
}

#[test]
fn layer_content_uris() {
    let l = layer();
    assert_eq!(l.resolve_content_uri_template("04"), "s3://bucket/04/content.3tz");
    assert_eq!(l.content_root_tileset_uri("04"), "s3://bucket/04/content.3tz/tileset.json");
    assert!(l.has_content_transform("inline_owt_referenced_models"));
    assert!(!l.has_content_transform("other"));
    assert!(l.inlines_referenced_models("4/1/2/3.glb"));
    assert!(!l.inlines_referenced_models("4/1/2/3.json"));
    assert_eq!(l.base_globe_payload_uri("0/1/2.glb"), Some("s3://bucket/globe/0/1/2.glb".to_string()));
    let (primary, fallback) = l.elevation_raster_uris().unwrap();
    assert_eq!(primary, "s3://bucket/{CONTENT_ROOT_TOKEN}/content.3tz/dtm/{FACE}/{LEVEL}/{COL}/{ROW}.png");
    assert_eq!(fallback, Some("s3://bucket/globe/dtm/{FACE}/{LEVEL}/{COL}/{ROW}.png".to_string()));
    assert!(l.imagery_raster_uris().is_none());
    assert_eq!(s2_root_child_uri(3), "t/3/0/0/0.json");
    assert_eq!(feature_tile_uri("s3://b/x.3tz", 1, 2, -3, 4), "s3://b/x.3tz/1/2/-3/4.geojson");
    assert_eq!(sidecar_uri("a.png"), "a.png.aux.xml");
    assert_eq!(root_tileset_content_uri("city", "abc"), "city/abc/tileset.json");
}

#[test]
fn synthesized_tilesets() {
    let l = layer();
    // Level 0 is shallower than the content: the base globe's glb tile.
    let top = l.synthesize_tileset(0, 0, 0, 0);
    assert_eq!(top.content_uri, Some("../../../../bgc/0/0/0/0.glb".to_string()));
    // Only the child "04" is covered.
    assert_eq!(top.children.len(), 1);
    assert_eq!(top.children[0].cell, cell_from_token("04"));
    assert_eq!(top.children[0].level, 1);
    let (_, _, c, r) = face_level_col_row_from_cell_id(cell_from_token("04"));
    assert_eq!(top.children[0].uri, format!("../../1/{c}/{r}.json"));
    // Within the content levels: the tile in its package.
    let kid = cell_from_token("04");
    let mid = l.synthesize_tileset(0, 1, c, r);
    assert_eq!(mid.cell, kid);
    assert_eq!(mid.content_uri, Some(format!("../../../../c/1/0/1/{c}/{r}.glb")));
    assert_eq!(mid.children.len(), 4);
    // At the deepest content level there are no children.
    let deep = l.synthesize_tileset(0, 2, 0, 0);
    assert_eq!(deep.cell, cell_children(kid)[0]);
    assert!(deep.children.is_empty());
    assert!(deep.content_uri.is_some());
}

#[test]
fn tilesets_the_s2_crate_cannot_plan() {
    let l = layer();
    assert!(l.try_synthesize_tileset(0, 0, 0, 0).is_some());
    let mut bad = layer();
    // A token that is not hex names cell 0, whose range cannot be computed.
    bad.source_s2_content_coverage_tokens.push("zz".to_string());
    assert!(bad.try_synthesize_tileset(0, 0, 0, 0).is_none());
    // At the deepest content level the coverage is not consulted.
    assert!(bad.try_synthesize_tileset(0, 2, 0, 0).is_some());
    bad.source_s2_content_package_level = 31;
    assert!(bad.try_synthesize_tileset(0, 2, 0, 0).is_none());
    // A leaf cell's children are not cells.
    let mut leafy = layer();
    leafy.source_s2_content_max_level = 31;
    assert!(leafy.try_synthesize_tileset(0, 30, 0, 0).is_none());
}

#[test]
fn coverage_grouped_by_face() {
    let groups = layer().content_coverage_tokens_by_s2_face();
    assert_eq!(groups.len(), 2);
    assert_eq!(groups[0], (0, vec!["04".to_string()]));
    assert_eq!(groups[1], (1, vec!["3".to_string()]));
}

#[test]
fn definition_hash_is_blake3_prefix() {
    assert_eq!(definition_hash(b""), "af1349b9f5f9a1a6");
    assert_ne!(definition_hash(b"{}"), definition_hash(b"[]"));
}

#[test]
fn tile_coordinates_from_paths() {
    assert_eq!(parse_tile_coordinate("12.json", ".json"), Some(12));
    assert_eq!(parse_tile_coordinate("-3.png", ".png"), Some(-3));
    assert_eq!(parse_tile_coordinate("12", ".json"), None);
    assert_eq!(parse_tile_coordinate("x.json", ".json"), None);
    let child = GetChildTilesetPaths { id: "a".into(), face: 0, level: 1, col: 2, row: "7.json".into() };
    assert_eq!(child.row_number(), Some(7));
    let t = GetTerrariumTilePaths { id: "a".into(), zoom: 3, x: 1, y: "5.png".into() };
    assert_eq!(t.row_number(), Some(5));
    let w = GetWmtsSimpleImageryPaths { id: "a".into(), zoom: 3, x: 1, y: "5.png".into() };
    assert_eq!(w.row_number(), None);
}

#[test]
fn payload_sources() {
    let l = layer();
    let src = l.content_payload_source("04", "1/0/1/2.glb").unwrap();
    assert_eq!(src.uri, "s3://bucket/04/content.3tz/1/0/1/2.geojson");
    assert!(src.inline_referenced_models);
    let plain = l.content_payload_source("04", "sub/tileset.json").unwrap();
    assert_eq!(plain.uri, "s3://bucket/04/content.3tz/sub/tileset.json");
    assert!(!plain.inline_referenced_models);
    assert_eq!(l.content_payload_source("04", "a b").err(), Some(PayloadError::BadReference));
    let mut rel = layer();
    rel.source_uri_content_template = "relative/{CONTENT_ROOT_TOKEN}".into();
    assert_eq!(rel.content_payload_source("04", "x").err(), Some(PayloadError::RootNotAbsolute));
    assert_eq!(
        l.content_payload_source("04", "x.json#frag").err(),
        Some(PayloadError::BadResolvedUri)
    );
    assert_eq!(l.content_toplevel_source("04"), Some("s3://bucket/04/content.3tz/tileset.json".into()));
    assert_eq!(rel.content_toplevel_source("04"), None);
    let f = l.feature_tile_source_uri(cell_from_token("04"));
    let (_, _, c, r) = face_level_col_row_from_cell_id(cell_from_token("04"));
    assert_eq!(f, format!("s3://bucket/1/content.3tz/0/1/{c}/{r}.geojson"));
}

#[test]
fn limits_truncate() {
    let mut v = vec![1, 2, 3];
    apply_limit(&mut v, Some(2));
    assert_eq!(v, vec![1, 2]);
    apply_limit(&mut v, Some(5));
    assert_eq!(v, vec![1, 2]);
    apply_limit(&mut v, None);
    assert_eq!(v, vec![1, 2]);
}

#[test]
fn layer_listing_is_sorted_with_endpoints() {
    let mut b = layer();
    b.id = "alpha".into();
    b.source_s2_content_extension = "geojson".into();
    b.elevation_raster_content = None;
    b.description = Some("first".into());
    let layers = vec![layer(), b];
    let list = list_layer_items(&layers, "https://tiles.example.com/api/").unwrap();
    assert_eq!(list.items.len(), 2);
    assert_eq!(list.items[0].id, "alpha");
    assert_eq!(list.items[0].description, "first");
    let kinds: Vec<&str> = list.items[0].endpoints.iter().map(|e| e.kind.as_str()).collect();
    assert_eq!(kinds, vec!["3d_tiles", "ogc_api_features"]);
    assert_eq!(
        list.items[0].endpoints[1].uri,
        "https://tiles.example.com/api/features/collections/alpha/items"
    );
    assert_eq!(list.items[1].id, "city");
    assert_eq!(list.items[1].description, "");
    assert_eq!(list.items[1].endpoints[1].uri, "https://tiles.example.com/api/terrarium/city");
    assert_eq!(
        list_layer_items(&layers, "not absolute").err(),
        Some(LayerListError::BaseNotAbsolute)
    );
    assert_eq!(stable_text_order(&["b".into(), "a".into(), "b".into(), "A".into()]), vec![3, 1, 0, 2]);
}

#[test]
fn terrarium_levels_and_plans() {
    assert_eq!(mapzen_zoom_to_s2_level(3), Some(0));
    assert_eq!(mapzen_zoom_to_s2_level(10), Some(6));
    assert_eq!(mapzen_zoom_to_s2_level(34), Some(30));
    assert_eq!(mapzen_zoom_to_s2_level(35), None);
    let p = plan_raster_tile(12, 6, "own/{ROW}.png", Some("fallback")).unwrap();
    assert_eq!((p.s2_level, p.source_template.as_str()), (8, "own/{ROW}.png"));
    let p = plan_raster_tile(6, 6, "own", Some("fallback")).unwrap();
    assert_eq!((p.s2_level, p.source_template.as_str()), (2, "fallback"));
    assert_eq!(plan_raster_tile(6, 6, "own", None).err(), Some(RasterPlanError::NoFallback));
    assert_eq!(plan_raster_tile(40, 6, "own", None).err(), Some(RasterPlanError::UnmappedZoom));
    assert!(elevation_source_is_png("x/{ROW}.png"));
    assert!(!elevation_source_is_png("x/{ROW}.tif"));
}

#[test]
fn raster_uris() {
    let t = resolve_elevation_raster_uri_tokens(
        "p/{CONTENT_ROOT_TOKEN}/{FACE}/{LEVEL}/{COL}/{ROW}.tif",
        FACE0,
        2,
        -1,
        3,
        4,
    );
    assert_eq!(t, "p/1/2/-1/3/4.tif");
    let kid = cell_from_token("04");
    let (uri, sidecar) = raster_source_uris("{CONTENT_ROOT_TOKEN}/{LEVEL}.png", 0, kid);
    assert_eq!(uri, "1/1.png");
    assert_eq!(sidecar, "1/1.png.aux.xml");
}

#[test]
fn terrarium_pixels() {
    assert_eq!(check_terrarium_png_header(true, true), Ok(()));
    assert_eq!(check_terrarium_png_header(false, true), Err(TerrariumPngError::NotRgb));
    assert_eq!(check_terrarium_png_header(true, false), Err(TerrariumPngError::NotEightBit));
    assert_eq!(check_rgb_frame_len(2, 2, 12), Ok(()));
    assert_eq!(check_rgb_frame_len(2, 2, 13), Err(TerrariumPngError::FrameSizeMismatch));
    assert_eq!(rgb_pixels(&[1, 2, 3, 4, 5, 6, 7]), vec![[1, 2, 3], [4, 5, 6]]);
    let px = terrarium_rgb(32768 + 300, 128);
    assert_eq!(px, [129, 44, 128]);
    assert_eq!(terrarium_fixed_from_rgb(px), 300 * 256 + 128);
    assert_eq!(terrarium_fixed_from_rgb([0, 0, 0]), -32768 * 256);
}

#[test]
fn uri_resolution() {
    let base = "http://example.com/a/b/tileset.json";
    assert_eq!(resolve_uri(base, "m.glb"), Ok("http://example.com/a/b/m.glb".into()));
    assert_eq!(resolve_uri(base, "../x.png"), Ok("http://example.com/a/x.png".into()));
    assert_eq!(resolve_uri(base, "./c/../d.glb"), Ok("http://example.com/a/b/d.glb".into()));
    assert_eq!(resolve_uri(base, "m.glb#x"), Err(UriError::NotAbsolute));
    assert_eq!(resolve_uri("nope", "m.glb"), Err(UriError::Unresolvable));
    assert_eq!(resolve_uri("relative", "x"), Err(UriError::Unresolvable));
    // The path of an absolute URI decides whether a model is binary.
    assert!(is_model_glb("http://host/a/b.glb", b"{}"));
    assert!(!is_model_glb("http://host/a/b.gltf", b"{}"));
    assert!(!is_model_glb("http://host/a/b.gltf?x=.glb", b"{}"));
}

#[test]
fn relative_paths() {
    assert_eq!(dir_of("s3://b/a/x.geojson"), "s3://b/a/");
    assert_eq!(dir_of("plain"), "plain");
    assert_eq!(
        make_relative("/content/00000/4/12/123/456.geojson", "/content/00000/models/t/a.jpg", "/content/00000/"),
        "../../../models/t/a.jpg"
    );
    assert_eq!(make_relative("/c/x.geojson", "/c/", "/c/"), ".");
    assert_eq!(
        uri_relative_to_base_dir("s3://b/x.3tz/8/1/2.json", "s3://b/x.3tz/tileset.json"),
        "8/1/2.json"
    );
    assert_eq!(uri_relative_to_base_dir("s3://b/y/1.json", "s3://b/x/tileset.json"), "y/1.json");
    assert_eq!(
        rewrite_image_uri(
            "tex.jpg",
            "s3://bucket/00000/models/t/name.glb",
            "s3://bucket/00000/content.3tz",
            "s3://bucket/00000/4/12/123/456.geojson",
        ),
        Ok("../../../models/t/tex.jpg".to_string())
    );
    assert_eq!(
        rewrite_image_uri("tex.jpg#x", "s3://b/m.glb", "s3://b/r", "s3://b/g.geojson"),
        Err(RewriteError::NotAbsolute)
    );
    assert_eq!(
        unique_in_order(&["a".into(), "b".into(), "a".into(), "c".into(), "b".into()]),
        vec!["a".to_string(), "b".to_string(), "c".to_string()]
    );
}

#[test]
fn content_types_and_glb_detection() {
    assert_eq!(sniff_content_type(b"glTF\x02\x00\x00\x00"), "model/gltf-binary");
    assert_eq!(sniff_content_type(b"  \n{\"a\":1}"), "application/json");
    assert_eq!(sniff_content_type(b"{}"), "application/json");
    assert_eq!(sniff_content_type(b"   "), "application/octet-stream");
    assert_eq!(sniff_content_type(b""), "application/octet-stream");
    assert_eq!(sniff_content_type(b"PK\x03\x04"), "application/octet-stream");
    assert!(is_model_glb("http://h/m.glb", b"{}"));
    assert!(is_model_glb("http://h/m.bin", b"glTF...."));
    assert!(!is_model_glb("http://h/m.gltf", b"{}"));
}

fn png_bytes(width: u32, height: u32, color: png::ColorType, depth: png::BitDepth, data: &[u8]) -> Vec<u8> {
    let mut buf = Vec::new();
    {
        let mut encoder = png::Encoder::new(&mut buf, width, height);
        encoder.set_color(color);
        encoder.set_depth(depth);
        let mut writer = encoder.write_header().unwrap();
        writer.write_image_data(data).unwrap();
    }
    buf
}

#[test]
fn terrarium_pngs_are_decoded() {
    let rgb = png_bytes(2, 1, png::ColorType::Rgb, png::BitDepth::Eight, &[1, 2, 3, 4, 5, 6]);
    assert_eq!(terrarium_frame(&rgb), Ok((2, 1, vec![[1, 2, 3], [4, 5, 6]])));
    let gray = png_bytes(2, 1, png::ColorType::Grayscale, png::BitDepth::Eight, &[1, 2]);
    assert_eq!(terrarium_frame(&gray), Err(TerrariumPngError::NotRgb));
    let deep = png_bytes(1, 1, png::ColorType::Rgb, png::BitDepth::Sixteen, &[0; 6]);
    assert_eq!(terrarium_frame(&deep), Err(TerrariumPngError::NotEightBit));
    assert_eq!(terrarium_frame(b"not a png"), Err(TerrariumPngError::UnreadableHeader));
}

#[test]
fn jpegs_are_decoded() {
    let data: Vec<u8> = [200u8, 100, 50].repeat(64);
    let mut buf = Vec::new();
    jpeg_encoder::Encoder::new(&mut buf, 100)
        .encode(&data, 8, 8, jpeg_encoder::ColorType::Rgb)
        .unwrap();
    let (width, height, pixels) = jpeg_pixels(&buf).unwrap();
    assert_eq!((width, height), (8, 8));
    assert_eq!(pixels.len(), 64);
    for p in pixels {
        for (c, e) in p.iter().zip([200i32, 100, 50]) {
            assert!((*c as i32 - e).abs() <= 4);
        }
    }
    assert!(jpeg_pixels(b"not a jpeg").is_none());
}
