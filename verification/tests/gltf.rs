use porter::attribute::{
    align_length_to_multiple_of, extract_attribute, validate_accessor, Accessor, Attribute,
    AttributeError, Buffer, BufferPacker,
};
use porter::gltf_constants::{AlphaMode, ComponentType, MimeType, Mode, Target, Type, WrapMode};
use porter::gltf_types::{
    default_alpha_mode, is_default_alpha_mode, is_false, validate_byte_stride, validate_model,
    validate_unique_ids, AccessorIndex, Asset, BufferIndex, BufferView, BufferViewIndex, Image,
    MaterialIndex, Mesh, NodeIndex, NormalTextureInfo, OcclusionTextureInfo, Primitive, Sampler,
    SceneIndex, TextureIndex, TextureInfo, ValidationError,
};
use porter::glb::create_glb;
use porter::model_io::{attach_glb_bin, glb_bin_data, read_model_parts};
use porter::scene::{
    append_indices, build_image, build_mesh, build_primitive, build_sampler, default_sampler,
    AttributeKey, ImageError, ImageSource, IndexError, PrimitiveError,
};
use porter::semantic::{Semantic, SemanticError};
use porter::writer::{DocumentWriter, WriteError};

#[test]
fn constants_round_trip_through_numbers_and_text() {
    assert_eq!(WrapMode::from_int(33071), WrapMode::ClampToEdge);
    assert_eq!(WrapMode::Repeat.as_int(), 10497);
    assert_eq!(WrapMode::from_int(7), WrapMode::Other(7));
    assert_eq!(ComponentType::from_int(5126), ComponentType::Float);
    assert_eq!(Mode::from_int(4), Mode::Triangles);
    assert_eq!(Target::ElementArrayBuffer.as_int(), 34963);
    assert_eq!(Type::from_str_open("VEC3"), Type::Vec3);
    assert_eq!(Type::Mat4.as_str(), "MAT4");
    assert_eq!(Type::from_str_open("VEC5"), Type::Other("VEC5".to_string()));
    assert_eq!(MimeType::from_str_open("image/png"), MimeType::Png);
    assert_eq!(AlphaMode::from_str_open("MASK"), AlphaMode::Mask);
    assert_eq!(AlphaMode::default(), AlphaMode::Opaque);
}

#[test]
fn sizes_of_components_and_types() {
    assert_eq!(ComponentType::UnsignedShort.byte_size(), Some(2));
    assert_eq!(ComponentType::Float.byte_size(), Some(4));
    assert_eq!(ComponentType::Other(1).byte_size(), None);
    assert_eq!(Type::Mat3.component_count(), Some(9));
    assert_eq!(Type::Other("X".into()).component_count(), None);
}

#[test]
fn semantics_parse_and_print() {
    assert_eq!(Semantic::from_str("POSITION"), Ok(Semantic::Position));
    assert_eq!(Semantic::from_str("TEXCOORD_1"), Ok(Semantic::TexCoord(1)));
    assert_eq!(Semantic::from_str("_BATCHID"), Ok(Semantic::Custom("_BATCHID".into())));
    assert_eq!(Semantic::from_str(""), Err(SemanticError::Empty));
    assert_eq!(
        Semantic::from_str("COLOR_x"),
        Err(SemanticError::InvalidIndex("COLOR_x".into()))
    );
    assert_eq!(Semantic::Joints(3).to_text(), "JOINTS_3");
    let s = Semantic::Weights(12);
    assert_eq!(Semantic::from_str(&s.to_text()), Ok(s));
}

#[test]
fn validation_rules() {
    assert_eq!(validate_byte_stride(8), Ok(()));
    assert_eq!(validate_byte_stride(6), Err(ValidationError::InvalidByteStrideMultiple));
    assert_eq!(validate_byte_stride(256), Err(ValidationError::InvalidByteStrideRange));
    assert_eq!(validate_byte_stride(0), Err(ValidationError::InvalidByteStrideRange));
    assert_eq!(
        ValidationError::InvalidByteStrideMultiple.message(),
        "BufferView::byteStride must be a multiple of 4"
    );
    assert_eq!(validate_unique_ids(&[NodeIndex(1), NodeIndex(2)]), Ok(()));
    assert_eq!(
        validate_unique_ids(&[NodeIndex(1), NodeIndex(2), NodeIndex(1)]),
        Err(ValidationError::DuplicateId)
    );
    assert_eq!(validate_model(Some(SceneIndex(1)), 1), Err(ValidationError::InvalidSceneIndex));
    assert_eq!(validate_model(Some(SceneIndex(0)), 1), Ok(()));
    assert_eq!(validate_model(None, 0), Ok(()));
    let mut asset = Asset::default();
    assert_eq!(asset.version, "2.0");
    assert_eq!(asset.validate(), Ok(()));
    asset.version = String::new();
    assert_eq!(asset.validate(), Err(ValidationError::Length));
}

#[test]
fn defaults() {
    assert_eq!(default_alpha_mode(), AlphaMode::Opaque);
    assert!(is_default_alpha_mode(&AlphaMode::Opaque));
    assert!(!is_default_alpha_mode(&AlphaMode::Blend));
    assert!(is_false(&false));
    assert!(!is_false(&true));
    let s = Sampler::default();
    assert_eq!(s.wrap_s(), WrapMode::Repeat);
    let s = Sampler { wrap_t: Some(WrapMode::ClampToEdge), ..Sampler::default() };
    assert_eq!(s.wrap_t(), WrapMode::ClampToEdge);
    let built = build_sampler(&s);
    assert_eq!(built.wrap_s, WrapMode::Repeat);
    assert_eq!(built.wrap_t, WrapMode::ClampToEdge);
    assert_eq!(default_sampler().wrap_t, WrapMode::Repeat);
}

fn view(offset: Option<u32>, length: u32, stride: Option<u32>) -> BufferView {
    BufferView {
        buffer: BufferIndex(0),
        byte_offset: offset,
        byte_length: length,
        byte_stride: stride,
        target: None,
        name: None,
    }
}

fn accessor(view: u32, offset: Option<u32>, ct: ComponentType, ty: Type, count: u32) -> Accessor {
    Accessor {
        buffer_view: Some(BufferViewIndex(view)),
        byte_offset: offset,
        component_type: ct,
        normalized: false,
        count,
        element_type: ty,
        name: None,
    }
}

fn buffer(data: Vec<u8>) -> Buffer {
    let byte_length = data.len() as u32;
    Buffer { data, uri: None, byte_length, name: None }
}

#[test]
fn packed_and_interleaved_attributes() {
    let data: Vec<u8> = (0u8..32).collect();
    let buffers = vec![buffer(data)];
    let views = vec![view(Some(4), 16, None), view(Some(0), 32, Some(8))];
    let accessors = vec![
        accessor(0, Some(2), ComponentType::UnsignedShort, Type::Vec2, 2),
        accessor(1, Some(2), ComponentType::UnsignedByte, Type::Vec2, 4),
    ];
    let packed = extract_attribute(&accessors, &views, &buffers, AccessorIndex(0)).unwrap();
    assert_eq!(packed.data, vec![6, 7, 8, 9, 10, 11, 12, 13]);
    assert_eq!(packed.count, 2);
    let strided = extract_attribute(&accessors, &views, &buffers, AccessorIndex(1)).unwrap();
    assert_eq!(strided.data, vec![2, 3, 10, 11, 18, 19, 26, 27]);
}

#[test]
fn attribute_errors() {
    let buffers = vec![buffer(vec![0; 8])];
    let views = vec![view(None, 8, None)];
    let ok = accessor(0, None, ComponentType::Float, Type::Scalar, 2);
    assert!(extract_attribute(&[ok], &views, &buffers, AccessorIndex(0)).is_ok());
    let get = |a: Accessor, bufs: &Vec<Buffer>| {
        extract_attribute(&[a], &views, bufs, AccessorIndex(0)).err()
    };
    assert_eq!(
        extract_attribute(&[], &views, &buffers, AccessorIndex(0)).err(),
        Some(AttributeError::InvalidAccessorIndex)
    );
    let mut no_view = accessor(0, None, ComponentType::Float, Type::Scalar, 2);
    no_view.buffer_view = None;
    assert_eq!(get(no_view, &buffers), Some(AttributeError::NoBufferView));
    assert_eq!(
        get(accessor(5, None, ComponentType::Float, Type::Scalar, 2), &buffers),
        Some(AttributeError::InvalidBufferViewIndex)
    );
    assert_eq!(
        get(accessor(0, None, ComponentType::Float, Type::Scalar, 2), &vec![]),
        Some(AttributeError::InvalidBufferIndex)
    );
    let remote = vec![Buffer { data: vec![], uri: Some("a.bin".into()), byte_length: 8, name: None }];
    assert_eq!(
        get(accessor(0, None, ComponentType::Float, Type::Scalar, 2), &remote),
        Some(AttributeError::BufferNotInlined)
    );
    assert_eq!(
        get(accessor(0, None, ComponentType::Float, Type::Other("X".into()), 2), &buffers),
        Some(AttributeError::UnknownType)
    );
    assert_eq!(
        get(accessor(0, None, ComponentType::Other(1), Type::Scalar, 2), &buffers),
        Some(AttributeError::UnknownComponentType)
    );
    assert_eq!(
        get(accessor(0, None, ComponentType::Float, Type::Scalar, 3), &buffers),
        Some(AttributeError::OutOfBounds)
    );
}

#[test]
fn alignment_rounds_up() {
    assert_eq!(align_length_to_multiple_of(0, 4), 0);
    assert_eq!(align_length_to_multiple_of(5, 4), 8);
    assert_eq!(align_length_to_multiple_of(8, 4), 8);
    assert_eq!(align_length_to_multiple_of(7, 1), 7);
    assert_eq!(align_length_to_multiple_of(usize::MAX, 3), usize::MAX);
}

#[test]
fn packed_attributes_read_back() {
    let mut packer = BufferPacker::new();
    let bytes_attr = Attribute {
        component_type: ComponentType::UnsignedByte,
        normalized: false,
        element_type: Type::Scalar,
        data: vec![9, 8, 7],
        count: 3,
    };
    let floats = Attribute {
        component_type: ComponentType::Float,
        normalized: false,
        element_type: Type::Vec2,
        data: (1u8..=8).collect(),
        count: 1,
    };
    let v0 = packer.push_attribute(&bytes_attr, Target::ArrayBuffer);
    let v1 = packer.push_attribute(&floats, Target::ArrayBuffer);
    assert_eq!(v0, BufferViewIndex(0));
    assert_eq!(v1, BufferViewIndex(1));
    assert_eq!(packer.buffer.len(), 12);
    assert_eq!(packer.views[1].byte_offset, Some(4));
    assert_eq!(&packer.buffer[3..4], &[0]);
    let img = packer.push_image(&[0xAA, 0xBB]);
    assert_eq!(packer.views[img.0 as usize].byte_offset, Some(12));
    let buffers = vec![buffer(packer.buffer.clone())];
    let accessors = vec![accessor(1, None, ComponentType::Float, Type::Vec2, 1)];
    let back = extract_attribute(&accessors, &packer.views, &buffers, AccessorIndex(0)).unwrap();
    assert_eq!(back.data, floats.data);
}

#[test]
fn images_from_uris_and_views() {
    let buffers = vec![buffer((0u8..10).collect())];
    let views = vec![view(Some(2), 3, None)];
    let by_uri = Image { uri: Some("a.png".into()), ..Image::default() };
    match build_image(&by_uri, &views, &buffers).unwrap().source {
        ImageSource::Uri(u, m) => {
            assert_eq!(u, "a.png");
            assert_eq!(m, None);
        }
        _ => panic!("expected a uri image"),
    }
    let by_view = Image {
        buffer_view: Some(BufferViewIndex(0)),
        mime_type: Some(MimeType::Jpeg),
        ..Image::default()
    };
    match build_image(&by_view, &views, &buffers).unwrap().source {
        ImageSource::Data(d, m) => {
            assert_eq!(d, vec![2, 3, 4]);
            assert_eq!(m, MimeType::Jpeg);
        }
        _ => panic!("expected image data"),
    }
    let no_mime = Image { buffer_view: Some(BufferViewIndex(0)), ..Image::default() };
    assert_eq!(build_image(&no_mime, &views, &buffers).err(), Some(ImageError::MissingMimeType));
    assert_eq!(build_image(&Image::default(), &views, &buffers).err(), Some(ImageError::NoSource));
}

#[test]
fn indices_are_promoted_and_offset() {
    let shorts = Attribute {
        component_type: ComponentType::UnsignedShort,
        normalized: false,
        element_type: Type::Scalar,
        data: vec![1, 0, 0, 1],
        count: 2,
    };
    let mut dst = Vec::new();
    assert_eq!(append_indices(&mut dst, &shorts, 10), Ok(()));
    assert_eq!(dst, vec![11, 0, 0, 0, 10, 1, 0, 0]);
    let ints = Attribute {
        component_type: ComponentType::UnsignedInt,
        normalized: false,
        element_type: Type::Scalar,
        data: vec![0xff, 0xff, 0xff, 0xff],
        count: 1,
    };
    assert_eq!(append_indices(&mut dst, &ints, 1), Err(IndexError::Overflow));
    assert_eq!(dst.len(), 8);
    let floats = Attribute { component_type: ComponentType::Float, ..ints };
    assert_eq!(append_indices(&mut dst, &floats, 0), Err(IndexError::NotUnsigned));
    let key = AttributeKey::new(&Semantic::Normal, &shorts);
    assert_eq!(key.semantic, Semantic::Normal);
    assert_eq!(key.component_type, ComponentType::UnsignedShort);
}

#[test]
fn models_split_into_json_and_bin() {
    let glb = create_glb(b"{}  ", Some(&[1, 2, 3, 4]));
    let parts = read_model_parts("https://host/m/model.bin", &glb).unwrap();
    assert_eq!(parts.json, b"{}  ".to_vec());
    assert_eq!(parts.bin, Some(vec![1, 2, 3, 4]));
    let plain = read_model_parts("https://host/m/model.gltf", b"{\"asset\":{}}").unwrap();
    assert_eq!(plain.json, b"{\"asset\":{}}".to_vec());
    assert_eq!(plain.bin, None);
    let mut buffers = vec![buffer(vec![]), buffer(vec![5])];
    attach_glb_bin(&mut buffers, parts.bin);
    assert_eq!(buffers[0].data, vec![1, 2, 3, 4]);
    assert_eq!(buffers[1].data, vec![5]);
    assert_eq!(glb_bin_data(&buffers), Some(&[1u8, 2, 3, 4][..]));
    let mut remote = vec![Buffer { data: vec![], uri: Some("x.bin".into()), byte_length: 1, name: None }];
    attach_glb_bin(&mut remote, Some(vec![7]));
    assert!(remote[0].data.is_empty());
    assert_eq!(glb_bin_data(&remote), None);
}

#[test]
fn accessor_validation_needs_one_element() {
    let empty = accessor(0, None, ComponentType::Float, Type::Vec3, 0);
    assert_eq!(empty.validate(), Err(ValidationError::Range));
    // An offset without a buffer view is not checked yet.
    let mut loose = accessor(0, Some(3), ComponentType::Float, Type::Vec3, 2);
    loose.buffer_view = None;
    assert_eq!(loose.validate(), Ok(()));
    assert_eq!(validate_accessor(&loose), Ok(()));
}

#[test]
fn primitives_and_meshes_are_read_from_accessors() {
    let buffers = vec![buffer((0u8..24).collect())];
    let views = vec![view(None, 24, None)];
    let accessors = vec![
        accessor(0, None, ComponentType::Float, Type::Vec3, 1),
        accessor(0, Some(12), ComponentType::UnsignedShort, Type::Scalar, 3),
    ];
    let prim = Primitive {
        attributes: vec![(Semantic::Position, AccessorIndex(0))],
        indices: Some(AccessorIndex(1)),
        material: Some(MaterialIndex(0)),
        mode: None,
    };
    let data = build_primitive(&prim, &accessors, &views, &buffers, 1).unwrap();
    assert_eq!(data.attributes.len(), 1);
    assert_eq!(data.attributes[0].0, Semantic::Position);
    assert_eq!(data.attributes[0].1.data, (0u8..12).collect::<Vec<u8>>());
    assert_eq!(data.indices.as_ref().unwrap().data, vec![12, 13, 14, 15, 16, 17]);
    assert_eq!(data.mode, Mode::Triangles);
    assert_eq!(data.material, Some(MaterialIndex(0)));
    // A material index past the materials fails after the accessors are read.
    assert_eq!(
        build_primitive(&prim, &accessors, &views, &buffers, 0).err(),
        Some(PrimitiveError::InvalidMaterialIndex)
    );
    let broken = Primitive {
        attributes: vec![(Semantic::Position, AccessorIndex(0)), (Semantic::Normal, AccessorIndex(9))],
        indices: Some(AccessorIndex(8)),
        material: None,
        mode: Some(Mode::Lines),
    };
    assert_eq!(
        build_primitive(&broken, &accessors, &views, &buffers, 0).err(),
        Some(PrimitiveError::Attribute(AttributeError::InvalidAccessorIndex))
    );
    let bad_indices = Primitive { indices: Some(AccessorIndex(8)), material: None, ..prim };
    assert_eq!(
        build_primitive(&bad_indices, &accessors, &views, &buffers, 0).err(),
        Some(PrimitiveError::Indices(AttributeError::InvalidAccessorIndex))
    );
    let good = Primitive {
        attributes: vec![(Semantic::Position, AccessorIndex(0))],
        indices: None,
        material: None,
        mode: Some(Mode::Points),
    };
    let mesh = Mesh { primitives: vec![good], name: Some("m".into()) };
    let read = build_mesh(&mesh, &accessors, &views, &buffers, 0).unwrap();
    assert_eq!(read.name, Some("m".to_string()));
    assert_eq!(read.primitives.len(), 1);
    assert_eq!(read.primitives[0].mode, Mode::Points);
    assert!(read.primitives[0].indices.is_none());
    let failing = Mesh { primitives: vec![broken], name: None };
    assert_eq!(
        build_mesh(&failing, &accessors, &views, &buffers, 0).err(),
        Some(PrimitiveError::Attribute(AttributeError::InvalidAccessorIndex))
    );
}

#[test]
fn document_record_defaults_and_schemas() {
    assert_eq!(Primitive::default().mode(), Mode::Triangles);
    assert_eq!(Primitive::default().validate(), Err(ValidationError::Length));
    assert_eq!(Mesh::default().validate(), Err(ValidationError::Length));
    let mesh = Mesh { primitives: vec![Primitive::default()], name: None };
    assert_eq!(mesh.validate(), Ok(()));
    assert_eq!(TextureInfo { index: TextureIndex(2), tex_coord: None }.tex_coord(), 0);
    assert_eq!(TextureInfo { index: TextureIndex(2), tex_coord: Some(1) }.tex_coord(), 1);
    assert_eq!(NormalTextureInfo { index: TextureIndex(0), tex_coord: Some(3) }.tex_coord(), 3);
    assert_eq!(OcclusionTextureInfo { index: TextureIndex(0), tex_coord: None }.tex_coord(), 0);
}

#[test]
fn written_primitives_read_back() {
    let mut writer = DocumentWriter::new();
    let positions = Attribute {
        component_type: ComponentType::Float,
        normalized: false,
        element_type: Type::Vec3,
        data: (0u8..24).collect(),
        count: 2,
    };
    let colors = Attribute {
        component_type: ComponentType::UnsignedByte,
        normalized: true,
        element_type: Type::Scalar,
        data: vec![9, 8, 7, 6, 5],
        count: 5,
    };
    let indices = Attribute {
        component_type: ComponentType::UnsignedShort,
        normalized: false,
        element_type: Type::Scalar,
        data: vec![0, 0, 1, 0, 1, 0],
        count: 3,
    };
    let attrs = vec![(Semantic::Position, positions), (Semantic::Color(0), colors)];
    let prim = writer
        .primitive(&attrs, Some(&indices), Some(MaterialIndex(0)), Mode::Triangles)
        .unwrap();
    assert_eq!(prim.attributes, vec![
        (Semantic::Position, AccessorIndex(0)),
        (Semantic::Color(0), AccessorIndex(1)),
    ]);
    assert_eq!(prim.indices, Some(AccessorIndex(2)));
    assert_eq!(prim.mode, Some(Mode::Triangles));
    assert_eq!(writer.accessors.len(), 3);
    // The short indices start at an even offset: one zero byte of padding.
    assert_eq!(writer.packer.buffer.len(), 24 + 5 + 1 + 6);
    assert_eq!(writer.packer.buffer[29], 0);
    assert_eq!(writer.packer.views[2].byte_offset, Some(30));
    assert_eq!(writer.packer.views[2].target, Some(Target::ElementArrayBuffer));
    let buffers = vec![Buffer {
        byte_length: writer.packer.buffer.len() as u32,
        data: writer.packer.buffer.clone(),
        uri: None,
        name: None,
    }];
    let back = build_primitive(&prim, &writer.accessors, &writer.packer.views, &buffers, 1).unwrap();
    assert_eq!(back.attributes[0].1.data, attrs[0].1.data);
    assert_eq!(back.attributes[1].1.data, attrs[1].1.data);
    assert!(back.attributes[1].1.normalized);
    assert_eq!(back.indices.unwrap().data, indices.data);
    let empty = vec![(
        Semantic::Position,
        Attribute {
            component_type: ComponentType::Float,
            normalized: false,
            element_type: Type::Vec3,
            data: vec![],
            count: 0,
        },
    )];
    assert_eq!(writer.primitive(&empty, None, None, Mode::Points).err(), Some(WriteError::EmptyPositions));
    assert_eq!(writer.accessors.len(), 3);
}

#[test]
fn written_images_and_samplers_read_back() {
    let mut writer = DocumentWriter::new();
    let held = porter::scene::Image {
        source: ImageSource::Data(vec![1, 2, 3], MimeType::Png),
        name: Some("tex".into()),
    };
    let linked = porter::scene::Image {
        source: ImageSource::Uri("a.jpg".into(), None),
        name: None,
    };
    assert_eq!(writer.image(10, &held), porter::gltf_types::ImageIndex(0));
    assert_eq!(writer.image(11, &linked), porter::gltf_types::ImageIndex(1));
    // The same key gives the same image, written once.
    assert_eq!(writer.image(10, &held), porter::gltf_types::ImageIndex(0));
    assert_eq!(writer.images.len(), 2);
    assert_eq!(writer.packer.buffer, vec![1, 2, 3]);
    let buffers = vec![buffer(writer.packer.buffer.clone())];
    let back = build_image(&writer.images[0], &writer.packer.views, &buffers).unwrap();
    match back.source {
        ImageSource::Data(bytes, mime) => {
            assert_eq!(bytes, vec![1, 2, 3]);
            assert_eq!(mime, MimeType::Png);
        }
        _ => panic!("expected image data"),
    }
    assert_eq!(back.name, Some("tex".to_string()));
    let back = build_image(&writer.images[1], &writer.packer.views, &buffers).unwrap();
    assert!(matches!(back.source, ImageSource::Uri(ref u, None) if u == "a.jpg"));
    let s = writer.sampler(5, &default_sampler());
    assert_eq!(writer.sampler(5, &default_sampler()), s);
    assert_eq!(writer.samplers.len(), 1);
    assert_eq!(writer.samplers[0].wrap_s, Some(WrapMode::Repeat));
    assert_eq!(build_sampler(&writer.samplers[0]).wrap_t, WrapMode::Repeat);
    let t = writer.texture(7, s, Some(porter::gltf_types::ImageIndex(0)), &None);
    assert_eq!(t, TextureIndex(0));
    assert_eq!(writer.texture(7, s, None, &None), TextureIndex(0));
    assert_eq!(writer.textures[0].sampler, Some(s));
    assert_eq!(writer.textures[0].source, Some(porter::gltf_types::ImageIndex(0)));
}

#[test]
fn written_meshes_name_their_primitives() {
    let mut writer = DocumentWriter::new();
    let tri = || porter::scene::PrimitiveData {
        attributes: vec![(
            Semantic::Position,
            Attribute {
                component_type: ComponentType::Float,
                normalized: false,
                element_type: Type::Vec3,
                data: vec![0; 36],
                count: 3,
            },
        )],
        indices: None,
        material: None,
        mode: Mode::Triangles,
    };
    assert_eq!(writer.mesh(&[], &None), Err(WriteError::NoPrimitives));
    let index = writer.mesh(&[tri(), tri()], &Some("pair".into())).unwrap();
    assert_eq!(index, porter::gltf_types::MeshIndex(0));
    let mesh = &writer.meshes[0];
    assert_eq!(mesh.name, Some("pair".to_string()));
    assert_eq!(mesh.primitives.len(), 2);
    assert_eq!(mesh.primitives[0].attributes[0].1, AccessorIndex(0));
    assert_eq!(mesh.primitives[1].attributes[0].1, AccessorIndex(1));
    assert_eq!(writer.packer.buffer.len(), 72);
    let mut empty = tri();
    empty.attributes[0].1.data.clear();
    assert_eq!(writer.mesh(&[tri(), empty], &None), Err(WriteError::EmptyPositions));
    assert_eq!(writer.meshes.len(), 1);
    assert_eq!(writer.accessors.len(), 2);
}
