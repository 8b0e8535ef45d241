use sketch3::export::{write_gltf, ExportError, ExportState, PartLibrary, PartSource};
use sketch3::geometry::{create_geometry, DrawCommand, GeometryError, SubPartRef, Transform};
use sketch3::gltf::{BufferTarget, ComponentType};
use sketch3::vertex::Vertex;

fn v(x: f32, y: f32, z: f32) -> Vertex {
    Vertex { x: x.to_bits(), y: y.to_bits(), z: z.to_bits() }
}

fn translation(x: f32, y: f32, z: f32) -> Transform {
    let mut cols = [0u32; 16];
    for i in 0..4 {
        cols[i * 5] = 1.0f32.to_bits();
    }
    cols[12] = x.to_bits();
    cols[13] = y.to_bits();
    cols[14] = z.to_bits();
    Transform { cols }
}

fn reference(name: &str, target: usize, matrix: Transform) -> DrawCommand {
    DrawCommand::SubPartReference(SubPartRef { name: name.to_string(), target: Some(target), matrix })
}

fn part(name: &str, commands: Vec<DrawCommand>, geometry: Vec<DrawCommand>) -> PartSource {
    PartSource { name: name.to_string(), commands, geometry }
}

fn le(w: u32) -> Vec<u8> {
    w.to_le_bytes().to_vec()
}

fn triangle_part() -> Vec<DrawCommand> {
    vec![DrawCommand::Triangle(v(0.0, 0.0, 0.0), v(1.0, 0.0, 0.0), v(0.0, 1.0, 0.0))]
}

#[test]
fn single_triangle_part() {
    let tri = triangle_part();
    let lib = PartLibrary { parts: vec![part("p.dat", tri.clone(), tri)] };
    let st: ExportState = write_gltf(false, &lib, 0, 8).unwrap();
    let doc = &st.document;
    assert_eq!(doc.meshes.len(), 1);
    assert_eq!(doc.nodes.len(), 1);
    assert_eq!(doc.nodes[0].mesh_index, Some(0));
    assert_eq!(doc.nodes[0].name, "root");
    assert!(doc.nodes[0].matrix.is_none());
    assert_eq!(st.buffer.len(), 48);
    assert_eq!(doc.byte_length, 48);
    let pos = doc.accessors[doc.meshes[0].position_accessor];
    let idx = doc.accessors[doc.meshes[0].index_accessor];
    assert_eq!(pos.count, 3);
    assert_eq!(pos.component_type, ComponentType::Float);
    assert_eq!(idx.count, 3);
    assert_eq!(idx.component_type, ComponentType::UnsignedInt);
    assert_eq!(pos.min, Some(v(0.0, 0.0, 0.0)));
    assert_eq!(pos.max, Some(v(1.0, 1.0, 0.0)));
    assert_eq!(&st.buffer[36..48], &[0, 0, 0, 0, 1, 0, 0, 0, 2, 0, 0, 0]);
    let mut expected = Vec::new();
    for p in [v(0.0, 0.0, 0.0), v(1.0, 0.0, 0.0), v(0.0, 1.0, 0.0)] {
        expected.extend(le(p.x));
        expected.extend(le(p.y));
        expected.extend(le(p.z));
    }
    assert_eq!(&st.buffer[0..36], &expected[..]);
    let views = &doc.buffer_views;
    assert_eq!(views.len(), 2);
    assert_eq!((views[0].byte_offset, views[0].byte_length, views[0].byte_stride), (0, 36, Some(12)));
    assert_eq!(views[0].target, BufferTarget::ArrayBuffer);
    assert_eq!((views[1].byte_offset, views[1].byte_length, views[1].byte_stride), (36, 12, None));
    assert_eq!(views[1].target, BufferTarget::ElementArrayBuffer);
}

#[test]
fn part_referenced_twice_is_one_mesh() {
    let tri = triangle_part();
    let a = translation(1.0, 0.0, 0.0);
    let b = translation(0.0, 0.0, 5.0);
    let root_cmds = vec![reference("p.dat", 1, a), reference("p.dat", 1, b)];
    let lib = PartLibrary { parts: vec![part("root.ldr", root_cmds, vec![]), part("p.dat", tri.clone(), tri)] };
    let st = write_gltf(false, &lib, 0, 8).unwrap();
    let doc = &st.document;
    assert_eq!(doc.meshes.len(), 1);
    assert_eq!(doc.nodes.len(), 3);
    assert_eq!(doc.nodes[0].children, vec![1, 2]);
    assert_eq!(doc.nodes[0].mesh_index, None);
    assert_eq!(doc.nodes[1].mesh_index, Some(0));
    assert_eq!(doc.nodes[2].mesh_index, Some(0));
    assert_eq!(doc.nodes[1].name, "p.dat");
    assert_eq!(doc.nodes[1].matrix.unwrap().cols, a.cols);
    assert_eq!(doc.nodes[2].matrix.unwrap().cols, b.cols);
    assert_ne!(a.cols, b.cols);
    assert_eq!(st.registry.tessellations, 2);
}

#[test]
fn quad_is_split_in_two_triangles() {
    let quad = vec![DrawCommand::Quad(v(0.0, 0.0, 0.0), v(1.0, 0.0, 0.0), v(1.0, 1.0, 0.0), v(0.0, 1.0, 0.0))];
    let g = create_geometry(&quad, false).unwrap();
    assert_eq!(g.vertices.len(), 4);
    assert_eq!(g.triangle_indices, vec![0, 2, 1, 0, 3, 2]);
}

#[test]
fn repeated_positions_are_stored_once() {
    let cmds = vec![
        DrawCommand::Triangle(v(0.0, 0.0, 0.0), v(1.0, 0.0, 0.0), v(0.0, 1.0, 0.0)),
        DrawCommand::Triangle(v(1.0, 0.0, 0.0), v(0.0, 0.0, 0.0), v(-0.0, 0.0, 1.0)),
    ];
    let g = create_geometry(&cmds, false).unwrap();
    assert_eq!(g.vertices.len(), 4);
    assert_eq!(g.triangle_indices, vec![0, 1, 2, 1, 0, 3]);
}

#[test]
fn negative_zero_is_the_same_position() {
    let cmds = vec![DrawCommand::Triangle(v(0.0, 0.0, 0.0), v(-0.0, 0.0, -0.0), v(1.0, 0.0, 0.0))];
    let g = create_geometry(&cmds, false).unwrap();
    assert_eq!(g.vertices.len(), 2);
    assert_eq!(g.triangle_indices, vec![0, 0, 1]);
}

#[test]
fn lines_are_collected_only_when_enabled() {
    let cmds = vec![
        DrawCommand::Line(v(0.0, 0.0, 0.0), v(2.0, 0.0, 0.0)),
        DrawCommand::OptionalLine(v(2.0, 0.0, 0.0), v(3.0, 0.0, 0.0)),
        DrawCommand::Triangle(v(0.0, 0.0, 0.0), v(1.0, 0.0, 0.0), v(0.0, 1.0, 0.0)),
    ];
    let on = create_geometry(&cmds, true).unwrap();
    assert_eq!(on.vertices.len(), 5);
    assert_eq!(on.line_indices, vec![0, 1, 1, 2]);
    assert_eq!(on.triangle_indices, vec![0, 3, 4]);
    let off = create_geometry(&cmds, false).unwrap();
    assert_eq!(off.vertices.len(), 3);
    assert!(off.line_indices.is_empty());
    assert_eq!(off.triangle_indices, vec![0, 1, 2]);
}

#[test]
fn nan_vertex_is_invalid() {
    let cmds = vec![DrawCommand::Triangle(v(0.0, 0.0, 0.0), v(f32::NAN, 0.0, 0.0), v(0.0, 1.0, 0.0))];
    assert_eq!(create_geometry(&cmds, false).err(), Some(GeometryError::InvalidVertex));
    let lib = PartLibrary { parts: vec![part("bad.dat", vec![], cmds)] };
    let st = write_gltf(false, &lib, 0, 8).unwrap();
    assert_eq!(st.document.meshes.len(), 0);
    assert_eq!(st.document.nodes[0].mesh_index, None);
    assert!(st.buffer.is_empty());
}

#[test]
fn part_without_faces_has_no_mesh() {
    let lines = vec![DrawCommand::Line(v(0.0, 0.0, 0.0), v(1.0, 0.0, 0.0))];
    let lib = PartLibrary { parts: vec![part("edge.dat", lines.clone(), lines)] };
    let st = write_gltf(true, &lib, 0, 8).unwrap();
    assert_eq!(st.document.meshes.len(), 0);
    assert!(st.document.accessors.is_empty());
    assert!(st.document.buffer_views.is_empty());
    assert_eq!(st.document.nodes[0].mesh_index, None);
    assert_eq!(st.document.byte_length, 0);
}

#[test]
fn export_is_deterministic() {
    let tri = triangle_part();
    let quad = vec![DrawCommand::Quad(v(0.0, 0.0, 0.0), v(1.0, 0.0, 0.0), v(1.0, 1.0, 0.0), v(0.0, 1.0, 0.0))];
    let root_cmds = vec![reference("q.dat", 2, translation(1.0, 2.0, 3.0)), reference("p.dat", 1, translation(0.0, 0.0, 0.0))];
    let lib = PartLibrary {
        parts: vec![part("root.ldr", root_cmds, vec![]), part("p.dat", tri.clone(), tri), part("q.dat", quad.clone(), quad)],
    };
    let a = write_gltf(false, &lib, 0, 8).unwrap();
    let b = write_gltf(false, &lib, 0, 8).unwrap();
    assert_eq!(a.buffer, b.buffer);
    assert_eq!(a.document.buffer_views, b.document.buffer_views);
    assert_eq!(a.document.buffer_views[0].byte_offset, 0);
    assert_eq!(a.document.buffer_views[1].byte_offset, 48);
    assert_eq!(a.document.buffer_views[2].byte_offset, 72);
    assert_eq!(a.document.meshes.len(), 2);
}

#[test]
fn registry_builds_a_part_once() {
    let tri = triangle_part();
    let lib = PartLibrary { parts: vec![part("p.dat", tri.clone(), tri)] };
    let mut st = ExportState::new(1);
    let first = st.get_or_build(&lib, 0, false);
    assert_eq!(st.registry.tessellations, 1);
    let len = st.buffer.len();
    let second = st.get_or_build(&lib, 0, false);
    assert_eq!(first, Some(0));
    assert_eq!(second, first);
    assert_eq!(st.registry.tessellations, 1);
    assert_eq!(st.buffer.len(), len);
}

#[test]
fn unresolved_reference_fails() {
    let cmds = vec![DrawCommand::SubPartReference(SubPartRef { name: "missing.dat".to_string(), target: None, matrix: translation(0.0, 0.0, 0.0) })];
    let lib = PartLibrary { parts: vec![part("root.ldr", cmds, vec![])] };
    assert_eq!(write_gltf(false, &lib, 0, 8).err(), Some(ExportError::UnresolvedReference { part: 0, command: 0 }));
}

#[test]
fn cyclic_reference_is_too_deep() {
    let cmds = vec![reference("self.ldr", 0, translation(0.0, 0.0, 0.0))];
    let lib = PartLibrary { parts: vec![part("self.ldr", cmds, vec![])] };
    assert_eq!(write_gltf(false, &lib, 0, 16).err(), Some(ExportError::GraphTooDeep));
}

#[test]
fn depth_limit_is_inclusive() {
    let tri = triangle_part();
    let lib = PartLibrary {
        parts: vec![
            part("root.ldr", vec![reference("a.ldr", 1, translation(0.0, 0.0, 0.0))], vec![]),
            part("a.ldr", vec![reference("p.dat", 2, translation(0.0, 0.0, 0.0))], vec![]),
            part("p.dat", tri.clone(), tri),
        ],
    };
    assert!(write_gltf(false, &lib, 0, 2).is_ok());
    assert_eq!(write_gltf(false, &lib, 0, 1).err(), Some(ExportError::GraphTooDeep));
    let st = write_gltf(false, &lib, 0, 2).unwrap();
    assert_eq!(st.document.nodes[0].children, vec![1]);
    assert_eq!(st.document.nodes[1].children, vec![2]);
}

#[test]
fn bounding_box_spans_negative_values() {
    let cmds = vec![DrawCommand::Triangle(v(-2.0, 0.5, 3.0), v(1.0, -4.0, 0.0), v(0.0, 1.0, -1.5))];
    let lib = PartLibrary { parts: vec![part("p.dat", vec![], cmds)] };
    let st = write_gltf(false, &lib, 0, 1).unwrap();
    let pos = st.document.accessors[0];
    assert_eq!(pos.min, Some(v(-2.0, -4.0, -1.5)));
    assert_eq!(pos.max, Some(v(1.0, 1.0, 3.0)));
}
