use vstd::prelude::*;
use crate::vertex::{Vertex, vertex_bytes, le_bytes, lower, upper, lower_corner, upper_corner, push_le};
use crate::geometry::{DrawCommand, Geometry, GeometryModel, Transform, corners, create_geometry, geometry_of};
use crate::gltf::{Accessor, AttributeType, BufferTarget, BufferView, ComponentType, Mesh, Node, NodeModel, SceneDocument};

verus! {

broadcast use vstd::string::group_string_axioms;

/// The bytes of a vertex list: twelve per vertex, in order.
pub open spec fn vertices_bytes(vs: Seq<Vertex>) -> Seq<u8>
    decreases vs.len(),
{
    if vs.len() == 0 {
        seq![]
    } else {
        vertices_bytes(vs.drop_last()) + vertex_bytes(vs.last())
    }
}

/// The bytes of an index list: four little-endian bytes per index, in order.
pub open spec fn indices_bytes(is: Seq<u32>) -> Seq<u8>
    decreases is.len(),
{
    if is.len() == 0 {
        seq![]
    } else {
        indices_bytes(is.drop_last()) + le_bytes(is.last())
    }
}

/// The component-wise minimum of a non-empty vertex list, reduced from the left.
pub open spec fn min_corner(vs: Seq<Vertex>) -> Vertex
    decreases vs.len(),
{
    if vs.len() <= 1 {
        vs[0]
    } else {
        lower(min_corner(vs.drop_last()), vs.last())
    }
}

/// The component-wise maximum of a non-empty vertex list, reduced from the left.
pub open spec fn max_corner(vs: Seq<Vertex>) -> Vertex
    decreases vs.len(),
{
    if vs.len() <= 1 {
        vs[0]
    } else {
        upper(max_corner(vs.drop_last()), vs.last())
    }
}

/// Appends the bytes of `vs` to `out`.
pub fn pack_vertices(out: &mut Vec<u8>, vs: &Vec<Vertex>)
    ensures
        final(out)@ == old(out)@ + vertices_bytes(vs@),
{
    let mut i: usize = 0;
    proof {
        assert(vs@.take(0) =~= Seq::<Vertex>::empty());
        assert(out@ =~= old(out)@ + vertices_bytes(vs@.take(0)));
    }
    while i < vs.len()
        invariant
            i <= vs@.len(),
            out@ == old(out)@ + vertices_bytes(vs@.take(i as int)),
        decreases vs@.len() - i,
    {
        let v = vs[i];
        let ghost before = out@;
        push_le(out, v.x);
        push_le(out, v.y);
        push_le(out, v.z);
        proof {
            assert(vs@.take(i + 1).drop_last() =~= vs@.take(i as int));
            assert(out@ =~= before + vertex_bytes(v));
            assert(out@ =~= old(out)@ + vertices_bytes(vs@.take(i + 1)));
        }
        i += 1;
    }
    proof {
        assert(vs@.take(i as int) =~= vs@);
    }
}

/// Appends the bytes of `is` to `out`.
pub fn pack_indices(out: &mut Vec<u8>, is: &Vec<u32>)
    ensures
        final(out)@ == old(out)@ + indices_bytes(is@),
{
    let mut i: usize = 0;
    proof {
        assert(is@.take(0) =~= Seq::<u32>::empty());
        assert(out@ =~= old(out)@ + indices_bytes(is@.take(0)));
    }
    while i < is.len()
        invariant
            i <= is@.len(),
            out@ == old(out)@ + indices_bytes(is@.take(i as int)),
        decreases is@.len() - i,
    {
        let ghost before = out@;
        push_le(out, is[i]);
        proof {
            assert(is@.take(i + 1).drop_last() =~= is@.take(i as int));
            assert(out@ =~= old(out)@ + indices_bytes(is@.take(i + 1)));
        }
        i += 1;
    }
    proof {
        assert(is@.take(i as int) =~= is@);
    }
}

/// The bounding box of a non-empty vertex list: its minimum and maximum corners.
pub fn bounds(vs: &Vec<Vertex>) -> (r: (Vertex, Vertex))
    requires
        vs@.len() > 0,
    ensures
        r == (min_corner(vs@), max_corner(vs@)),
{
    let mut lo = vs[0];
    let mut hi = vs[0];
    let mut i: usize = 1;
    proof {
        assert(vs@.take(1).len() == 1);
    }
    while i < vs.len()
        invariant
            1 <= i <= vs@.len(),
            lo == min_corner(vs@.take(i as int)),
            hi == max_corner(vs@.take(i as int)),
        decreases vs@.len() - i,
    {
        proof {
            assert(vs@.take(i + 1).drop_last() =~= vs@.take(i as int));
        }
        lo = lower_corner(lo, vs[i]);
        hi = upper_corner(hi, vs[i]);
        i += 1;
    }
    proof {
        assert(vs@.take(i as int) =~= vs@);
    }
    (lo, hi)
}

/// One part of the library: its own commands, whose sub-part references give the
/// scene hierarchy, and its flattened geometry stream, whose vertices are already
/// placed by every transform on the way down.
#[derive(Debug)]
pub struct PartSource {
    pub name: String,
    pub commands: Vec<DrawCommand>,
    pub geometry: Vec<DrawCommand>,
}

/// The parts an export can reach; a reference names a part by its position here.
#[derive(Debug)]
pub struct PartLibrary {
    pub parts: Vec<PartSource>,
}

/// Why an export failed.
#[derive(Clone, Copy, Debug, PartialEq, Eq, Structural)]
pub enum ExportError {
    /// Command `command` of part `part` references a part that is not in the library.
    UnresolvedReference { part: usize, command: usize },
    /// The reference tree is deeper than the depth the export was given.
    GraphTooDeep,
}

/// For each part: not built yet (`None`), built without geometry (`Some(None)`),
/// or built into mesh `m` (`Some(Some(m))`).
#[derive(Debug)]
pub struct MeshRegistry {
    pub entries: Vec<Option<Option<usize>>>,
    pub tessellations: usize,
}

/// Everything one export owns while it runs.
#[derive(Debug)]
pub struct ExportState {
    pub document: SceneDocument,
    pub buffer: Vec<u8>,
    pub registry: MeshRegistry,
}

pub struct ExportModel {
    pub nodes: Seq<NodeModel>,
    pub meshes: Seq<Mesh>,
    pub views: Seq<BufferView>,
    pub accessors: Seq<Accessor>,
    pub buffer: Seq<u8>,
    pub entries: Seq<Option<Option<usize>>>,
    pub tessellations: nat,
}

impl View for ExportState {
    type V = ExportModel;

    open spec fn view(&self) -> ExportModel {
        ExportModel {
            nodes: self.document.nodes@.map_values(|n: Node| n@),
            meshes: self.document.meshes@,
            views: self.document.buffer_views@,
            accessors: self.document.accessors@,
            buffer: self.buffer@,
            entries: self.registry.entries@,
            tessellations: self.registry.tessellations as nat,
        }
    }
}

/// How many parts have been built.
pub open spec fn filled(e: Seq<Option<Option<usize>>>) -> nat
    decreases e.len(),
{
    if e.len() == 0 {
        0
    } else {
        filled(e.drop_last()) + if e.last() is Some {
            1nat
        } else {
            0nat
        }
    }
}

proof fn lemma_filled_bound(e: Seq<Option<Option<usize>>>)
    ensures
        filled(e) <= e.len(),
    decreases e.len(),
{
    if e.len() > 0 {
        lemma_filled_bound(e.drop_last());
    }
}

proof fn lemma_filled_update(e: Seq<Option<Option<usize>>>, i: int, v: Option<usize>)
    requires
        0 <= i < e.len(),
        e[i] is None,
    ensures
        filled(e.update(i, Some(v))) == filled(e) + 1,
    decreases e.len(),
{
    let u = e.update(i, Some(v));
    if i < e.len() - 1 {
        assert(u.drop_last() =~= e.drop_last().update(i, Some(v)));
        lemma_filled_update(e.drop_last(), i, v);
    } else {
        assert(u.drop_last() =~= e.drop_last());
    }
}

/// The buffer views cover the buffer from its start, each beginning where the
/// one before ends, in the order they were made.
pub open spec fn views_packed(views: Seq<BufferView>, len: nat) -> bool {
    &&& views.len() == 0 ==> len == 0
    &&& views.len() > 0 ==> views[0].byte_offset == 0 && views.last().byte_offset
        + views.last().byte_length == len
    &&& forall|i: int, j: int|
        0 <= i && j == i + 1 && j < views.len() ==> (#[trigger] views[i]).byte_offset
            + views[i].byte_length == (#[trigger] views[j]).byte_offset
}

/// Every mesh that a node or the registry names exists, and the buffer views
/// pack the buffer.
#[verifier::opaque]
pub open spec fn consistent(st: ExportModel) -> bool {
    &&& views_packed(st.views, st.buffer.len())
    &&& forall|i: int|
        0 <= i < st.nodes.len() ==> ((#[trigger] st.nodes[i]).mesh_index matches Some(m) ==> m
            < st.meshes.len())
    &&& forall|p: int|
        0 <= p < st.entries.len() ==> ((#[trigger] st.entries[p]) matches Some(Some(m)) ==> m
            < st.meshes.len())
}

/// Two views that continue a packed list keep it packed.
proof fn lemma_views_extend(ov: Seq<BufferView>, nv: Seq<BufferView>, old_len: nat, new_len: nat)
    requires
        views_packed(ov, old_len),
        nv.len() == ov.len() + 2,
        forall|i: int| 0 <= i < ov.len() ==> nv[i] == ov[i],
        nv[ov.len() as int].byte_offset == old_len,
        nv[ov.len() as int].byte_offset + nv[ov.len() as int].byte_length == nv[ov.len() + 1int].byte_offset,
        nv[ov.len() + 1int].byte_offset + nv[ov.len() + 1int].byte_length == new_len,
    ensures
        views_packed(nv, new_len),
{
    assert forall|i: int, j: int| 0 <= i && j == i + 1 && j < nv.len() implies (#[trigger] nv[i]).byte_offset
        + nv[i].byte_length == (#[trigger] nv[j]).byte_offset by {
        if j < ov.len() {
            assert(nv[i] == ov[i] && nv[j] == ov[j]);
        } else if j == ov.len() {
            assert(nv[i] == ov[i]);
            assert(ov.last() == ov[i]);
        }
    }
}

/// A state stays consistent when its meshes grow and every mesh that its nodes
/// and registry name still exists.
proof fn lemma_consistent_frame(o: ExportModel, n: ExportModel)
    requires
        consistent(o),
        views_packed(n.views, n.buffer.len()) || (n.views == o.views && n.buffer.len() == o.buffer.len()),
        n.meshes.len() >= o.meshes.len(),
        forall|i: int|
            0 <= i < n.nodes.len() ==> ((#[trigger] n.nodes[i]).mesh_index matches Some(m) ==> m
                < n.meshes.len()),
        forall|p: int|
            0 <= p < n.entries.len() ==> ((#[trigger] n.entries[p]) matches Some(Some(m)) ==> m
                < n.meshes.len()),
    ensures
        consistent(n),
{
    reveal(consistent);
}

/// Recording an existing mesh (or none) for a part keeps a state consistent.
proof fn lemma_consistent_entry(o: ExportModel, n: ExportModel, part: int, r: Option<usize>)
    requires
        consistent(o),
        0 <= part < o.entries.len(),
        n.entries == o.entries.update(part, Some(r)),
        n.nodes == o.nodes,
        n.meshes == o.meshes,
        n.views == o.views,
        n.buffer == o.buffer,
        r matches Some(m) ==> m < o.meshes.len(),
    ensures
        consistent(n),
{
    reveal(consistent);
    assert forall|p: int| 0 <= p < n.entries.len() implies ((#[trigger] n.entries[p]) matches Some(Some(m)) ==> m
        < n.meshes.len()) by {
        if p != part {
            assert(n.entries[p] == o.entries[p]);
        }
    }
}

/// What `consistent` says of the nodes and the registry.
proof fn lemma_consistent_refs(st: ExportModel)
    requires
        consistent(st),
    ensures
        forall|i: int|
            0 <= i < st.nodes.len() ==> ((#[trigger] st.nodes[i]).mesh_index matches Some(m) ==> m
                < st.meshes.len()),
        forall|p: int|
            0 <= p < st.entries.len() ==> ((#[trigger] st.entries[p]) matches Some(Some(m)) ==> m
                < st.meshes.len()),
        views_packed(st.views, st.buffer.len()),
{
    reveal(consistent);
}

impl ExportState {
    /// The registry has one entry per part and counts the parts it built; the
    /// document is consistent.
    pub open spec fn wf(&self, lib: &PartLibrary) -> bool {
        &&& self.registry.entries@.len() == lib.parts@.len()
        &&& self.registry.tessellations == filled(self.registry.entries@)
        &&& consistent(self@)
    }
}

/// The state after packing a mesh of geometry `g`: a vertex view, its accessor
/// with the bounding box, an index view, its accessor, and the mesh over both.
pub open spec fn pack(st: ExportModel, g: GeometryModel) -> ExportModel {
    let vb = vertices_bytes(g.vertices);
    let ib = indices_bytes(g.triangles);
    let nv = st.views.len();
    let na = st.accessors.len();
    ExportModel {
        views: st.views.push(
            BufferView {
                byte_offset: st.buffer.len() as usize,
                byte_length: vb.len() as usize,
                byte_stride: Some(12),
                target: BufferTarget::ArrayBuffer,
            },
        ).push(
            BufferView {
                byte_offset: (st.buffer.len() + vb.len()) as usize,
                byte_length: ib.len() as usize,
                byte_stride: None,
                target: BufferTarget::ElementArrayBuffer,
            },
        ),
        accessors: st.accessors.push(
            Accessor {
                component_type: ComponentType::Float,
                count: g.vertices.len() as usize,
                attribute_type: AttributeType::Vec3,
                buffer_view_index: nv as usize,
                min: Some(min_corner(g.vertices)),
                max: Some(max_corner(g.vertices)),
            },
        ).push(
            Accessor {
                component_type: ComponentType::UnsignedInt,
                count: g.triangles.len() as usize,
                attribute_type: AttributeType::Scalar,
                buffer_view_index: (nv + 1) as usize,
                min: None,
                max: None,
            },
        ),
        meshes: st.meshes.push(
            Mesh { position_accessor: na as usize, index_accessor: (na + 1) as usize },
        ),
        buffer: st.buffer + vb + ib,
        ..st
    }
}

/// Packs the geometry `g` as a new mesh and returns the mesh's index.
pub fn add_mesh(g: &Geometry, st: &mut ExportState) -> (r: usize)
    requires
        g.vertices@.len() > 0,
        consistent(old(st)@),
    ensures
        consistent(final(st)@),
        final(st)@ == pack(old(st)@, g@),
        r == old(st)@.meshes.len(),
        final(st).registry == old(st).registry,
{
    let vertex_view = st.document.buffer_views.len();
    let offset = st.buffer.len();
    pack_vertices(&mut st.buffer, &g.vertices);
    let vertex_length = st.buffer.len() - offset;
    st.document.buffer_views.push(
        BufferView {
            byte_offset: offset,
            byte_length: vertex_length,
            byte_stride: Some(12),
            target: BufferTarget::ArrayBuffer,
        },
    );
    let (lo, hi) = bounds(&g.vertices);
    let position_accessor = st.document.accessors.len();
    st.document.accessors.push(
        Accessor {
            component_type: ComponentType::Float,
            count: g.vertices.len(),
            attribute_type: AttributeType::Vec3,
            buffer_view_index: vertex_view,
            min: Some(lo),
            max: Some(hi),
        },
    );
    let index_offset = st.buffer.len();
    pack_indices(&mut st.buffer, &g.triangle_indices);
    let index_length = st.buffer.len() - index_offset;
    st.document.buffer_views.push(
        BufferView {
            byte_offset: index_offset,
            byte_length: index_length,
            byte_stride: None,
            target: BufferTarget::ElementArrayBuffer,
        },
    );
    let index_view = st.document.buffer_views.len() - 1;
    st.document.accessors.push(
        Accessor {
            component_type: ComponentType::UnsignedInt,
            count: g.triangle_indices.len(),
            attribute_type: AttributeType::Scalar,
            buffer_view_index: index_view,
            min: None,
            max: None,
        },
    );
    let index_accessor = st.document.accessors.len() - 1;
    let mesh = st.document.meshes.len();
    st.document.meshes.push(Mesh { position_accessor, index_accessor });
    proof {
        let o = old(st)@;
        let n = st@;
        let e = pack(o, g@);
        assert(n.nodes =~= e.nodes);
        assert(n.views =~= e.views);
        assert(n.accessors =~= e.accessors);
        assert(n.meshes =~= e.meshes);
        assert(n.buffer =~= e.buffer);
        lemma_consistent_refs(o);
        lemma_views_extend(o.views, n.views, o.buffer.len(), n.buffer.len());
        lemma_consistent_frame(o, n);
    }
    mesh
}

/// What the registry gives for `part`, and the state after: a built part gives
/// its entry unchanged; otherwise the part is tessellated once, and packed as a
/// new mesh when its geometry has vertices and triangles.
pub open spec fn register(lib: &PartLibrary, lines: bool, part: int, st: ExportModel) -> (
    ExportModel,
    Option<usize>,
) {
    match st.entries[part] {
        Some(r) => (st, r),
        None => {
            let st1 = ExportModel { tessellations: st.tessellations + 1, ..st };
            match geometry_of(lib.parts@[part].geometry@, lines) {
                Ok(g) => if g.vertices.len() > 0 && g.triangles.len() > 0 {
                    let st2 = pack(st1, g);
                    let m = st.meshes.len() as usize;
                    (ExportModel { entries: st2.entries.update(part, Some(Some(m))), ..st2 }, Some(m))
                } else {
                    (ExportModel { entries: st1.entries.update(part, Some(None)), ..st1 }, None)
                },
                Err(_) => (ExportModel { entries: st1.entries.update(part, Some(None)), ..st1 }, None),
            }
        },
    }
}

impl ExportState {
    /// The mesh of `part`, built on the first request and remembered after.
    pub fn get_or_build(&mut self, lib: &PartLibrary, part: usize, lines_enabled: bool) -> (r: Option<usize>)
        requires
            old(self).wf(lib),
            part < lib.parts@.len(),
        ensures
            final(self).wf(lib),
            (final(self)@, r) == register(lib, lines_enabled, part as int, old(self)@),
            final(self)@.nodes == old(self)@.nodes,
            final(self)@.meshes.len() >= old(self)@.meshes.len(),
            r matches Some(m) ==> m < final(self)@.meshes.len(),
    {
        match self.registry.entries[part] {
            Some(r) => {
                proof {
                    assert(self@.entries[part as int] == Some(r));
                    lemma_consistent_refs(self@);
                }
                r
            },
            None => {
                let parts = self.registry.entries.len();
                proof {
                    lemma_filled_bound(self.registry.entries@.update(part as int, Some(None)));
                    lemma_filled_update(self.registry.entries@, part as int, None);
                    assert(self.registry.tessellations < parts);
                    lemma_filled_update(self.registry.entries@, part as int, Some(self.document.meshes@.len() as usize));
                }
                self.registry.tessellations = self.registry.tessellations + 1;
                proof {
                    assert(self@.nodes =~= old(self)@.nodes);
                    lemma_consistent_refs(old(self)@);
                    lemma_consistent_frame(old(self)@, self@);
                }
                let ghost st1 = self@;
                let built = create_geometry(&lib.parts[part].geometry, lines_enabled);
                let r = match built {
                    Ok(g) => {
                        if g.vertices.len() > 0 && g.triangle_indices.len() > 0 {
                            let m = add_mesh(&g, self);
                            Some(m)
                        } else {
                            None
                        }
                    },
                    Err(_) => None,
                };
                let ghost st2 = self@;
                self.registry.entries[part] = Some(r);
                proof {
                    let e = register(lib, lines_enabled, part as int, old(self)@);
                    assert(self@.nodes =~= e.0.nodes);
                    assert(self@.entries =~= e.0.entries);
                    assert(self@.entries =~= st2.entries.update(part as int, Some(r)));
                    assert(self@.nodes =~= st2.nodes);
                    lemma_consistent_entry(st2, self@, part as int, r);
                }
                r
            },
        }
    }
}

pub open spec fn commands_len(lib: &PartLibrary, part: int) -> nat {
    if 0 <= part < lib.parts@.len() {
        lib.parts@[part].commands@.len()
    } else {
        0
    }
}

/// Adds the node of one reference to `part` and, below it, the nodes of the
/// part's own sub-part references; gives the state after and the node's index.
/// A reference below a node at `fuel` zero makes the tree too deep.
pub open spec fn build_node(
    lib: &PartLibrary,
    lines: bool,
    part: int,
    name: Seq<char>,
    matrix: Option<Transform>,
    fuel: nat,
    st: ExportModel,
) -> Result<(ExportModel, usize), ExportError>
    decreases fuel, commands_len(lib, part) + 1,
{
    let (st1, mesh) = register(lib, lines, part, st);
    let idx = st1.nodes.len();
    let node = NodeModel { name, children: seq![], mesh_index: mesh, matrix };
    let st2 = ExportModel { nodes: st1.nodes.push(node), ..st1 };
    finish_node(build_children(lib, lines, part, 0, fuel, st2, seq![]), idx as int, node)
}

/// Gives the node at `idx` the children that were built below it.
pub open spec fn finish_node(
    built: Result<(ExportModel, Seq<usize>), ExportError>,
    idx: int,
    node: NodeModel,
) -> Result<(ExportModel, usize), ExportError> {
    match built {
        Ok((st, kids)) => Ok(
            (
                ExportModel { nodes: st.nodes.update(idx, NodeModel { children: kids, ..node }), ..st },
                idx as usize,
            ),
        ),
        Err(e) => Err(e),
    }
}

/// Builds the nodes of the sub-part references of `part` from command `k` on,
/// in command order, collecting their indices after `kids`.
pub open spec fn build_children(
    lib: &PartLibrary,
    lines: bool,
    part: int,
    k: int,
    fuel: nat,
    st: ExportModel,
    kids: Seq<usize>,
) -> Result<(ExportModel, Seq<usize>), ExportError>
    decreases fuel, commands_len(lib, part) - k,
{
    if k < 0 || k >= commands_len(lib, part) {
        Ok((st, kids))
    } else {
        match lib.parts@[part].commands@[k] {
            DrawCommand::SubPartReference(r) => {
                if r.target is Some && r.target->0 < lib.parts@.len() {
                    if fuel == 0 {
                        Err(ExportError::GraphTooDeep)
                    } else {
                        match build_node(
                            lib,
                            lines,
                            r.target->0 as int,
                            r.name@,
                            Some(r.matrix),
                            (fuel - 1) as nat,
                            st,
                        ) {
                            Ok((st2, c)) => build_children(lib, lines, part, k + 1, fuel, st2, kids.push(c)),
                            Err(e) => Err(e),
                        }
                    }
                } else {
                    Err(ExportError::UnresolvedReference { part: part as usize, command: k as usize })
                }
            },
            _ => build_children(lib, lines, part, k + 1, fuel, st, kids),
        }
    }
}

/// Adds the node for one reference to `part` named `name`, placed by `matrix`,
/// with the subtree below it, and returns the node's index.
pub fn add_nodes(
    lines_enabled: bool,
    name: &String,
    part: usize,
    matrix: Option<Transform>,
    lib: &PartLibrary,
    st: &mut ExportState,
    fuel: usize,
) -> (r: Result<usize, ExportError>)
    requires
        old(st).wf(lib),
        part < lib.parts@.len(),
    ensures
        final(st).wf(lib),
        final(st)@.nodes.len() > old(st)@.nodes.len(),
        final(st)@.meshes.len() >= old(st)@.meshes.len(),
        match r {
            Ok(i) => build_node(lib, lines_enabled, part as int, name@, matrix, fuel as nat, old(st)@)
                == Ok::<(ExportModel, usize), ExportError>((final(st)@, i)),
            Err(e) => build_node(lib, lines_enabled, part as int, name@, matrix, fuel as nat, old(st)@)
                == Err::<(ExportModel, usize), ExportError>(e),
        },
    decreases fuel,
{
    let mesh_index = st.get_or_build(lib, part, lines_enabled);
    let idx = st.document.nodes.len();
    st.document.nodes.push(Node { name: name.clone(), children: Vec::new(), mesh_index, matrix });
    proof {
        let before = register(lib, lines_enabled, part as int, old(st)@).0;
        lemma_consistent_refs(before);
        assert forall|i: int| 0 <= i < st@.nodes.len() implies ((#[trigger] st@.nodes[i]).mesh_index matches Some(m)
            ==> m < st@.meshes.len()) by {
            if i < idx {
                assert(st@.nodes[i] == before.nodes[i]);
            }
        }
        lemma_consistent_frame(before, st@);
    }
    let ghost st2 = st@;
    let ghost node = NodeModel { name: name@, children: seq![], mesh_index, matrix };
    proof {
        let (st1, m) = register(lib, lines_enabled, part as int, old(st)@);
        assert(st2 == ExportModel { nodes: st1.nodes.push(node), ..st1 }) by {
            assert(st2.nodes =~= st1.nodes.push(node));
        }
    }
    let mut kids: Vec<usize> = Vec::new();
    let cmds = &lib.parts[part].commands;
    let mut k: usize = 0;
    while k < cmds.len()
        invariant
            st.wf(lib),
            part < lib.parts@.len(),
            cmds == lib.parts@[part as int].commands,
            k <= cmds@.len(),
            st@.nodes.len() >= st2.nodes.len(),
            idx == st2.nodes.len() - 1,
            st2.nodes.len() == old(st)@.nodes.len() + 1,
            st@.meshes.len() >= old(st)@.meshes.len(),
            mesh_index matches Some(m) ==> m < st@.meshes.len(),
            build_node(lib, lines_enabled, part as int, name@, matrix, fuel as nat, old(st)@)
                == finish_node(
                build_children(lib, lines_enabled, part as int, 0, fuel as nat, st2, seq![]),
                idx as int,
                node,
            ),
            build_children(lib, lines_enabled, part as int, 0, fuel as nat, st2, seq![])
                == build_children(lib, lines_enabled, part as int, k as int, fuel as nat, st@, kids@),
        decreases cmds@.len() - k,
    {
        match &cmds[k] {
            DrawCommand::SubPartReference(r) => {
                let resolved = match r.target {
                    Some(t) => t < lib.parts.len(),
                    None => false,
                };
                if !resolved {
                    return Err(ExportError::UnresolvedReference { part, command: k });
                }
                if fuel == 0 {
                    return Err(ExportError::GraphTooDeep);
                }
                let t = match r.target {
                    Some(t) => t,
                    None => part,
                };
                match add_nodes(lines_enabled, &r.name, t, Some(r.matrix), lib, st, fuel - 1) {
                    Ok(c) => {
                        kids.push(c);
                    },
                    Err(e) => {
                        return Err(e);
                    },
                }
            },
            _ => {},
        }
        k += 1;
    }
    let ghost st3 = st@;
    st.document.nodes.set(idx, Node { name: name.clone(), children: kids, mesh_index, matrix });
    proof {
        let e = build_node(lib, lines_enabled, part as int, name@, matrix, fuel as nat, old(st)@);
        assert(st@.nodes =~= st3.nodes.update(idx as int, NodeModel { name: name@, children: kids@, mesh_index, matrix }));
        lemma_consistent_refs(st3);
        assert forall|i: int| 0 <= i < st@.nodes.len() implies ((#[trigger] st@.nodes[i]).mesh_index matches Some(m)
            ==> m < st@.meshes.len()) by {
            if i != idx {
                assert(st@.nodes[i] == st3.nodes[i]);
            }
        }
        lemma_consistent_frame(st3, st@);
    }
    Ok(idx)
}

/// The state an export starts from, over a library of `n` parts.
pub open spec fn initial_state(n: nat) -> ExportModel {
    ExportModel {
        nodes: seq![],
        meshes: seq![],
        views: seq![],
        accessors: seq![],
        buffer: seq![],
        entries: Seq::new(n, |i: int| None),
        tessellations: 0,
    }
}

/// What exporting `root` gives: the node tree from a root node named "root"
/// with no matrix, and the meshes and buffer that its parts filled.
pub open spec fn export_of(lib: &PartLibrary, lines: bool, root: int, max_depth: nat) -> Result<
    ExportModel,
    ExportError,
> {
    match build_node(lib, lines, root, "root"@, None, max_depth, initial_state(lib.parts@.len())) {
        Ok((st, _)) => Ok(st),
        Err(e) => Err(e),
    }
}

impl ExportState {
    /// An empty document and buffer, and a registry with no part built.
    pub fn new(parts: usize) -> (r: ExportState)
        ensures
            r@ == initial_state(parts as nat),
            r.document.byte_length == 0,
            consistent(r@),
    {
        let mut entries: Vec<Option<Option<usize>>> = Vec::new();
        let mut i: usize = 0;
        while i < parts
            invariant
                i <= parts,
                entries@ =~= Seq::new(i as nat, |j: int| None::<Option<usize>>),
            decreases parts - i,
        {
            entries.push(None);
            i += 1;
        }
        let r = ExportState {
            document: SceneDocument {
                nodes: Vec::new(),
                meshes: Vec::new(),
                buffer_views: Vec::new(),
                accessors: Vec::new(),
                byte_length: 0,
            },
            buffer: Vec::new(),
            registry: MeshRegistry { entries, tessellations: 0 },
        };
        proof {
            assert(r@.nodes =~= initial_state(parts as nat).nodes);
            assert(consistent(r@)) by {
                reveal(consistent);
            }
        }
        r
    }
}

/// Exports the part at `root`: a root node named "root", one node per reference
/// below it, one mesh per distinct part with geometry, and the packed buffer,
/// whose length the document records.
pub fn write_gltf(lines_enabled: bool, lib: &PartLibrary, root: usize, max_depth: usize) -> (r: Result<
    ExportState,
    ExportError,
>)
    requires
        root < lib.parts@.len(),
    ensures
        match r {
            Ok(s) => export_of(lib, lines_enabled, root as int, max_depth as nat) == Ok::<
                ExportModel,
                ExportError,
            >(s@) && s.document.byte_length == s.buffer@.len() && consistent(s@),
            Err(e) => export_of(lib, lines_enabled, root as int, max_depth as nat) == Err::<
                ExportModel,
                ExportError,
            >(e),
        },
{
    let mut st = ExportState::new(lib.parts.len());
    let name = "root".to_string();
    proof {
        lemma_filled_zero(st.registry.entries@);
    }
    let r = add_nodes(lines_enabled, &name, root, None, lib, &mut st, max_depth);
    match r {
        Ok(_) => {
            st.document.byte_length = st.buffer.len();
            Ok(st)
        },
        Err(e) => Err(e),
    }
}

proof fn lemma_filled_zero(e: Seq<Option<Option<usize>>>)
    requires
        forall|i: int| 0 <= i < e.len() ==> e[i] is None,
    ensures
        filled(e) == 0,
    decreases e.len(),
{
    if e.len() > 0 {
        lemma_filled_zero(e.drop_last());
    }
}

/// Memoization: asking the registry twice for one part tessellates it at most on
/// the first request, and the second request changes nothing and gives the same mesh.
pub proof fn lemma_register_memoized(lib: &PartLibrary, lines: bool, part: int, st: ExportModel)
    requires
        0 <= part < st.entries.len(),
    ensures
        ({
            let (s1, r1) = register(lib, lines, part, st);
            let (s2, r2) = register(lib, lines, part, s1);
            &&& s2 == s1
            &&& r2 == r1
            &&& s1.tessellations == st.tessellations + if st.entries[part] is None {
                1nat
            } else {
                0nat
            }
        }),
{
}

/// Whether a command stream holds a triangle or a quad.
pub open spec fn has_faces(cmds: Seq<DrawCommand>) -> bool {
    exists|i: int|
        0 <= i < cmds.len() && (cmds[i] is Triangle || cmds[i] is Quad)
}

proof fn lemma_no_faces_no_corners(cmds: Seq<DrawCommand>)
    requires
        !has_faces(cmds),
    ensures
        corners(cmds).len() == 0,
    decreases cmds.len(),
{
    if cmds.len() > 0 {
        let p = cmds.drop_last();
        assert(!has_faces(p)) by {
            assert forall|i: int| 0 <= i < p.len() implies !(p[i] is Triangle || p[i] is Quad) by {
                assert(p[i] == cmds[i]);
            }
        }
        lemma_no_faces_no_corners(p);
        assert(!(cmds[cmds.len() - 1] is Triangle || cmds[cmds.len() - 1] is Quad));
    }
}

/// Empty-geometry suppression: a part whose stream has no triangle or quad gets
/// no mesh, and the document and buffer stay as they were.
pub proof fn lemma_faceless_part_has_no_mesh(lib: &PartLibrary, lines: bool, part: int, st: ExportModel)
    requires
        0 <= part < st.entries.len(),
        0 <= part < lib.parts@.len(),
        st.entries[part] is None,
        !has_faces(lib.parts@[part].geometry@),
    ensures
        register(lib, lines, part, st).1 is None,
        register(lib, lines, part, st).0.meshes == st.meshes,
        register(lib, lines, part, st).0.views == st.views,
        register(lib, lines, part, st).0.accessors == st.accessors,
        register(lib, lines, part, st).0.buffer == st.buffer,
{
    lemma_no_faces_no_corners(lib.parts@[part].geometry@);
}

proof fn lemma_node_grows(
    lib: &PartLibrary,
    lines: bool,
    part: int,
    name: Seq<char>,
    matrix: Option<Transform>,
    fuel: nat,
    st: ExportModel,
)
    requires
        st.nodes.len() < usize::MAX,
    ensures
        build_node(lib, lines, part, name, matrix, fuel, st) matches Ok((s, i)) ==> s.nodes.len()
            > st.nodes.len() && i == st.nodes.len() && s.nodes[i as int].mesh_index == register(lib, lines, part, st).1
            && s.nodes[i as int].matrix == matrix,
    decreases fuel, commands_len(lib, part) + 1,
{
    let (st1, mesh) = register(lib, lines, part, st);
    let node = NodeModel { name, children: seq![], mesh_index: mesh, matrix };
    let st2 = ExportModel { nodes: st1.nodes.push(node), ..st1 };
    assert(st1.nodes == st.nodes);
    lemma_children_grow(lib, lines, part, 0, fuel, st2, seq![]);
}

proof fn lemma_children_grow(
    lib: &PartLibrary,
    lines: bool,
    part: int,
    k: int,
    fuel: nat,
    st: ExportModel,
    kids: Seq<usize>,
)
    ensures
        build_children(lib, lines, part, k, fuel, st, kids) matches Ok((s, _)) ==> s.nodes.len()
            >= st.nodes.len() && (forall|j: int| 0 <= j < st.nodes.len() ==> s.nodes[j] == st.nodes[j]),
    decreases fuel, commands_len(lib, part) - k,
{
    if k < 0 || k >= commands_len(lib, part) {
    } else {
        match lib.parts@[part].commands@[k] {
            DrawCommand::SubPartReference(r) => {
                if r.target is Some && r.target->0 < lib.parts@.len() && fuel > 0 {
                    let t = r.target->0 as int;
                    lemma_node_keeps(lib, lines, t, r.name@, Some(r.matrix), (fuel - 1) as nat, st);
                    match build_node(lib, lines, t, r.name@, Some(r.matrix), (fuel - 1) as nat, st) {
                        Ok((st2, c)) => {
                            lemma_children_grow(lib, lines, part, k + 1, fuel, st2, kids.push(c));
                        },
                        Err(_) => {},
                    }
                }
            },
            _ => {
                lemma_children_grow(lib, lines, part, k + 1, fuel, st, kids);
            },
        }
    }
}

proof fn lemma_node_keeps(
    lib: &PartLibrary,
    lines: bool,
    part: int,
    name: Seq<char>,
    matrix: Option<Transform>,
    fuel: nat,
    st: ExportModel,
)
    ensures
        build_node(lib, lines, part, name, matrix, fuel, st) matches Ok((s, _)) ==> s.nodes.len()
            > st.nodes.len() && (forall|j: int| 0 <= j < st.nodes.len() ==> s.nodes[j] == st.nodes[j]),
    decreases fuel, commands_len(lib, part) + 1,
{
    let (st1, mesh) = register(lib, lines, part, st);
    let node = NodeModel { name, children: seq![], mesh_index: mesh, matrix };
    let st2 = ExportModel { nodes: st1.nodes.push(node), ..st1 };
    assert(st1.nodes == st.nodes);
    lemma_children_grow(lib, lines, part, 0, fuel, st2, seq![]);
}

/// A node of a part without triangles or quads carries no mesh.
pub proof fn lemma_faceless_node_has_no_mesh(
    lib: &PartLibrary,
    lines: bool,
    part: int,
    name: Seq<char>,
    matrix: Option<Transform>,
    fuel: nat,
    st: ExportModel,
)
    requires
        0 <= part < st.entries.len(),
        0 <= part < lib.parts@.len(),
        st.entries[part] is None,
        !has_faces(lib.parts@[part].geometry@),
        st.nodes.len() < usize::MAX,
    ensures
        build_node(lib, lines, part, name, matrix, fuel, st) matches Ok((s, i)) ==> s.nodes[i as int].mesh_index is None,
{
    lemma_faceless_part_has_no_mesh(lib, lines, part, st);
    lemma_node_grows(lib, lines, part, name, matrix, fuel, st);
}

/// Determinism: two exports of one input give the same buffer and the same buffer views.
pub proof fn lemma_export_deterministic(
    lib: &PartLibrary,
    lines: bool,
    root: int,
    max_depth: nat,
    a: ExportModel,
    b: ExportModel,
)
    requires
        export_of(lib, lines, root, max_depth) == Ok::<ExportModel, ExportError>(a),
        export_of(lib, lines, root, max_depth) == Ok::<ExportModel, ExportError>(b),
    ensures
        a.buffer == b.buffer,
        a.views == b.views,
{
}

} // verus!
