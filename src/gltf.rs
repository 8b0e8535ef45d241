use vstd::prelude::*;
use crate::vertex::Vertex;
use crate::geometry::Transform;

verus! {

/// What a buffer view holds: vertex attributes or element indices.
#[derive(Clone, Copy, Debug, PartialEq, Eq, Structural)]
pub enum BufferTarget {
    ArrayBuffer,
    ElementArrayBuffer,
}

#[derive(Clone, Copy, Debug, PartialEq, Eq, Structural)]
pub enum ComponentType {
    Float,
    UnsignedInt,
}

#[derive(Clone, Copy, Debug, PartialEq, Eq, Structural)]
pub enum AttributeType {
    Vec3,
    Scalar,
}

/// A byte range of the single binary buffer.
#[derive(Clone, Copy, Debug, PartialEq, Eq, Structural)]
pub struct BufferView {
    pub byte_offset: usize,
    pub byte_length: usize,
    pub byte_stride: Option<usize>,
    pub target: BufferTarget,
}

/// A typed view over a buffer view; `min` and `max` bound the positions of a
/// vertex accessor.
#[derive(Clone, Copy, Debug, PartialEq, Eq, Structural)]
pub struct Accessor {
    pub component_type: ComponentType,
    pub count: usize,
    pub attribute_type: AttributeType,
    pub buffer_view_index: usize,
    pub min: Option<Vertex>,
    pub max: Option<Vertex>,
}

/// A mesh with its one triangle primitive: the accessor of its positions and
/// that of its indices.
#[derive(Clone, Copy, Debug, PartialEq, Eq, Structural)]
pub struct Mesh {
    pub position_accessor: usize,
    pub index_accessor: usize,
}

/// One placement in the scene hierarchy.
#[derive(Debug)]
pub struct Node {
    pub name: String,
    pub children: Vec<usize>,
    pub mesh_index: Option<usize>,
    pub matrix: Option<Transform>,
}

pub struct NodeModel {
    pub name: Seq<char>,
    pub children: Seq<usize>,
    pub mesh_index: Option<usize>,
    pub matrix: Option<Transform>,
}

impl View for Node {
    type V = NodeModel;

    open spec fn view(&self) -> NodeModel {
        NodeModel {
            name: self.name@,
            children: self.children@,
            mesh_index: self.mesh_index,
            matrix: self.matrix,
        }
    }
}

/// The scene description: nodes, meshes, buffer views and accessors, all over
/// one binary buffer of `byte_length` bytes. Its scene holds node 0.
#[derive(Debug)]
pub struct SceneDocument {
    pub nodes: Vec<Node>,
    pub meshes: Vec<Mesh>,
    pub buffer_views: Vec<BufferView>,
    pub accessors: Vec<Accessor>,
    pub byte_length: usize,
}

} // verus!
