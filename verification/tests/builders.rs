use porter::attribute::Attribute;
use porter::combiner::{primitive_key_eq, type_eq, Combiner, MaterialNumbering, PrimitiveKey};
use porter::gltf_constants::Mode;
use porter::traversal::{walk_nodes, WalkError};
use porter::gltf_constants::{ComponentType, Type};
use porter::gltf_types::Image;
use porter::scene::{semantic_eq, AppendError, AttributeKey, IndexError, PrimitiveBuilder};
use porter::semantic::Semantic;
use porter::tiles::{tile_search_step, TileSearchStep};
use porter::uri::{rewrite_uris_for_combining, RewriteError};

fn attr(ct: ComponentType, ty: Type, data: Vec<u8>, count: u32) -> Attribute {
    Attribute { component_type: ct, normalized: false, element_type: ty, data, count }
}

#[test]
fn primitive_builder_collects_vertices_and_offsets_indices() {
    let keys = vec![
        AttributeKey::new(&Semantic::Position, &attr(ComponentType::Float, Type::Vec3, vec![], 0)),
        AttributeKey::new(&Semantic::TexCoord(0), &attr(ComponentType::Float, Type::Vec2, vec![], 0)),
    ];
    let mut builder = PrimitiveBuilder::new(&keys);
    assert_eq!(builder.semantics, vec![Semantic::Position, Semantic::TexCoord(0)]);
    let first = vec![
        (Semantic::Position, attr(ComponentType::Float, Type::Vec3, vec![1; 24], 2)),
        (Semantic::TexCoord(0), attr(ComponentType::Float, Type::Vec2, vec![2; 16], 2)),
    ];
    let indices = attr(ComponentType::UnsignedByte, Type::Scalar, vec![0, 1, 1], 3);
    assert_eq!(builder.append(&first, Some(&indices)), Ok(()));
    assert_eq!(builder.vertex_count, 2);
    assert_eq!(builder.index_count, 3);
    assert_eq!(builder.append(&first, Some(&indices)), Ok(()));
    assert_eq!(builder.vertex_count, 4);
    assert_eq!(builder.attribute_buffers[0].len(), 48);
    assert_eq!(builder.attribute_buffers[1].len(), 32);
    // The second primitive's indices are moved past the first one's vertices.
    assert_eq!(&builder.index_buffer[12..16], &[2, 0, 0, 0]);
    assert_eq!(&builder.index_buffer[20..24], &[3, 0, 0, 0]);
    let (attrs, idx) = builder.to_primitive(&keys, true);
    assert_eq!(attrs.len(), 2);
    assert_eq!(attrs[0].0, Semantic::Position);
    assert_eq!(attrs[0].1.count, 4);
    assert_eq!(attrs[1].1.data.len(), 32);
    let idx = idx.unwrap();
    assert_eq!(idx.component_type, ComponentType::UnsignedInt);
    assert_eq!(idx.count, 6);
    assert!(builder.to_primitive(&keys, false).1.is_none());
    // Keys in another order still get the buffer of their own semantic.
    let swapped = vec![
        AttributeKey::new(&Semantic::TexCoord(0), &attr(ComponentType::Float, Type::Vec2, vec![], 0)),
        AttributeKey::new(&Semantic::Position, &attr(ComponentType::Float, Type::Vec3, vec![], 0)),
    ];
    let (attrs, _) = builder.to_primitive(&swapped, false);
    assert_eq!(attrs[0].0, Semantic::TexCoord(0));
    assert_eq!(attrs[0].1.data, vec![2; 32]);
    assert_eq!(attrs[1].0, Semantic::Position);
    assert_eq!(attrs[1].1.data, vec![1; 48]);
}

#[test]
fn primitive_builder_refuses_mismatched_primitives() {
    let keys = vec![AttributeKey::new(
        &Semantic::Normal,
        &attr(ComponentType::Float, Type::Vec3, vec![], 0),
    )];
    let mut builder = PrimitiveBuilder::new(&keys);
    assert_eq!(builder.append(&[], None), Err(AppendError::NoAttributes));
    let wrong = vec![(Semantic::Position, attr(ComponentType::Float, Type::Vec3, vec![0; 12], 1))];
    assert_eq!(builder.append(&wrong, None), Err(AppendError::MissingAttribute));
    let uneven = vec![
        (Semantic::Position, attr(ComponentType::Float, Type::Vec3, vec![0; 12], 1)),
        (Semantic::Normal, attr(ComponentType::Float, Type::Vec3, vec![0; 24], 2)),
    ];
    assert_eq!(builder.append(&uneven, None), Err(AppendError::InconsistentVertexCount));
    let ok = vec![(Semantic::Normal, attr(ComponentType::Float, Type::Vec3, vec![0; 12], 1))];
    let bad_indices = attr(ComponentType::Float, Type::Scalar, vec![0; 4], 1);
    assert_eq!(
        builder.append(&ok, Some(&bad_indices)),
        Err(AppendError::Indices(IndexError::NotUnsigned))
    );
    assert_eq!(builder.vertex_count, 0);
    assert!(builder.attribute_buffers[0].is_empty());
    assert!(semantic_eq(&Semantic::Custom("_ID".into()), &Semantic::Custom("_ID".into())));
    assert!(!semantic_eq(&Semantic::Color(0), &Semantic::Color(1)));
}

#[test]
fn tile_search_steps() {
    assert!(matches!(tile_search_step(Some(8), Some("a.json"), 8), TileSearchStep::Found));
    match tile_search_step(Some(7), Some("../8/1/2.json"), 8) {
        TileSearchStep::External(u) => assert_eq!(u, "../8/1/2.json"),
        _ => panic!("expected an external tileset"),
    }
    assert!(matches!(tile_search_step(None, Some("a.glb"), 8), TileSearchStep::Children));
    assert!(matches!(tile_search_step(None, None, 8), TileSearchStep::Children));
}

#[test]
fn image_uris_are_rewritten_for_the_geojson() {
    let mut images = vec![
        Image { uri: Some("tex.jpg".into()), ..Image::default() },
        Image { uri: None, name: Some("embedded".into()), ..Image::default() },
    ];
    let r = rewrite_uris_for_combining(
        &mut images,
        "s3://bucket/00000/content.3tz",
        "s3://bucket/00000/4/12/123/456.geojson",
        "s3://bucket/00000/models/t/name.glb",
    );
    assert_eq!(r, Ok(()));
    assert_eq!(images[0].uri.as_deref(), Some("../../../models/t/tex.jpg"));
    assert_eq!(images[1].uri, None);
    assert_eq!(images[1].name.as_deref(), Some("embedded"));
    let mut bad = vec![Image { uri: Some("x.jpg#frag".into()), ..Image::default() }];
    assert_eq!(
        rewrite_uris_for_combining(&mut bad, "s3://b/r", "s3://b/g.geojson", "s3://b/m.glb"),
        Err(RewriteError::NotAbsolute)
    );
    assert_eq!(bad[0].uri.as_deref(), Some("x.jpg#frag"));
}

#[test]
fn attributes_key_follows_attributes() {
    let attrs = vec![
        (Semantic::Position, attr(ComponentType::Float, Type::Vec3, vec![0; 12], 1)),
        (Semantic::Color(0), attr(ComponentType::UnsignedByte, Type::Vec4, vec![0; 4], 1)),
    ];
    let keys = PrimitiveBuilder::attributes_key(&attrs);
    assert_eq!(keys.len(), 2);
    assert_eq!(keys[0].semantic, Semantic::Position);
    assert_eq!(keys[0].element_type, Type::Vec3);
    assert_eq!(keys[1].semantic, Semantic::Color(0));
    assert_eq!(keys[1].component_type, ComponentType::UnsignedByte);
    assert!(PrimitiveBuilder::attributes_key(&[]).is_empty());
}

#[test]
fn combiner_merges_primitives_with_the_same_key() {
    let mut combiner = Combiner::new();
    let tri = vec![(Semantic::Position, attr(ComponentType::Float, Type::Vec3, vec![1; 36], 3))];
    let idx = attr(ComponentType::UnsignedShort, Type::Scalar, vec![0, 0, 1, 0, 2, 0], 3);
    assert_eq!(combiner.add_static_mesh_prim(&tri, Some(&idx), Some(7), Mode::Triangles), Ok(()));
    assert_eq!(combiner.add_static_mesh_prim(&tri, Some(&idx), Some(7), Mode::Triangles), Ok(()));
    assert_eq!(combiner.static_prims.len(), 1);
    // Another material, or no indices, makes another primitive.
    assert_eq!(combiner.add_static_mesh_prim(&tri, Some(&idx), Some(8), Mode::Triangles), Ok(()));
    assert_eq!(combiner.add_static_mesh_prim(&tri, None, Some(7), Mode::Triangles), Ok(()));
    assert_eq!(combiner.add_static_mesh_prim(&tri, None, Some(7), Mode::Lines), Ok(()));
    assert_eq!(combiner.static_prims.len(), 4);
    let prims = combiner.into_primitives();
    assert_eq!(prims.len(), 4);
    assert_eq!(prims[0].material, Some(7));
    assert_eq!(prims[0].attributes[0].1.count, 6);
    assert_eq!(prims[0].attributes[0].1.data.len(), 72);
    let merged = prims[0].indices.as_ref().unwrap();
    assert_eq!(merged.count, 6);
    // The second primitive's indices follow its first's three vertices.
    assert_eq!(&merged.data[12..24], &[3, 0, 0, 0, 4, 0, 0, 0, 5, 0, 0, 0]);
    assert_eq!(prims[1].material, Some(8));
    assert!(prims[2].indices.is_none());
    assert_eq!(prims[3].mode, Mode::Lines);
}

#[test]
fn combiner_keeps_a_builder_for_a_refused_primitive() {
    let mut combiner = Combiner::new();
    assert_eq!(
        combiner.add_static_mesh_prim(&[], None, None, Mode::Points),
        Err(AppendError::NoAttributes)
    );
    assert_eq!(combiner.static_prims.len(), 1);
    assert_eq!(combiner.static_prims[0].1.vertex_count, 0);
    let pts = vec![(Semantic::Position, attr(ComponentType::Float, Type::Vec3, vec![0; 12], 1))];
    let bad = attr(ComponentType::Float, Type::Scalar, vec![0; 4], 1);
    assert_eq!(
        combiner.add_static_mesh_prim(&pts, Some(&bad), None, Mode::Points),
        Err(AppendError::Indices(IndexError::NotUnsigned))
    );
    assert_eq!(combiner.static_prims.len(), 2);
    assert_eq!(combiner.static_prims[1].1.vertex_count, 0);
}

#[test]
fn primitive_keys_compare_by_value() {
    let a = PrimitiveKey {
        material: None,
        mode: Mode::Triangles,
        attributes: vec![AttributeKey::new(
            &Semantic::Custom("_BATCHID".into()),
            &attr(ComponentType::Float, Type::Other("X".into()), vec![], 0),
        )],
        indexed: true,
    };
    let b = PrimitiveKey {
        material: None,
        mode: Mode::Triangles,
        attributes: vec![AttributeKey::new(
            &Semantic::Custom("_BATCHID".into()),
            &attr(ComponentType::Float, Type::Other("X".into()), vec![], 0),
        )],
        indexed: true,
    };
    assert!(primitive_key_eq(&a, &b));
    let c = PrimitiveKey { indexed: false, ..b };
    assert!(!primitive_key_eq(&a, &c));
    assert!(!type_eq(&Type::Other("SCALAR".into()), &Type::Scalar));
    assert!(type_eq(&Type::Mat4, &Type::Mat4));
}

#[test]
fn scenes_are_walked_depth_first() {
    // 0 -> [1, 2], 1 -> [3], 2 -> [], 3 -> [], 4 -> [2]
    let children = vec![vec![1, 2], vec![3], vec![], vec![], vec![2]];
    assert_eq!(
        walk_nodes(&[0, 4], &children),
        Ok(vec![(0, 0), (1, 1), (3, 2), (2, 1), (4, 0), (2, 1)])
    );
    assert_eq!(walk_nodes(&[], &children), Ok(vec![]));
    assert_eq!(walk_nodes(&[5], &children), Err(WalkError::InvalidNodeIndex));
    assert_eq!(walk_nodes(&[0], &[vec![1], vec![7]]), Err(WalkError::InvalidNodeIndex));
    // A cycle is found once a path is deeper than there are nodes.
    assert_eq!(walk_nodes(&[0], &[vec![1], vec![0]]), Err(WalkError::TooDeep));
    // The first problem in walking order is reported.
    assert_eq!(walk_nodes(&[0, 9], &[vec![0]]), Err(WalkError::TooDeep));
}

#[test]
fn materials_are_numbered_when_first_met() {
    let mut n = MaterialNumbering::new(4);
    assert_eq!(n.count, 0);
    assert_eq!(n.number(2), (0, true));
    assert_eq!(n.number(0), (1, true));
    assert_eq!(n.number(2), (0, false));
    assert_eq!(n.number(3), (2, true));
    assert_eq!(n.number(0), (1, false));
    assert_eq!(n.count, 3);
    assert_eq!(n.assigned, vec![Some(1), None, Some(0), Some(2)]);
}
