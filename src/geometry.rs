use vstd::prelude::*;
use std::collections::HashMap;
use crate::vertex::{Vertex, is_invalid, key, packed, lemma_packed_injective};

verus! {

broadcast use vstd::std_specs::hash::group_hash_axioms;

/// A 4x4 matrix in column-major order, each entry the bit pattern of a 32-bit float.
#[derive(Clone, Copy, Debug)]
pub struct Transform {
    pub cols: [u32; 16],
}

/// An instruction to place another part, with the transform that places it.
/// `target` is the referenced part's position in the library, `None` when it
/// could not be resolved.
#[derive(Clone, Debug)]
pub struct SubPartRef {
    pub name: String,
    pub target: Option<usize>,
    pub matrix: Transform,
}

/// One command of a part definition.
#[derive(Clone, Debug)]
pub enum DrawCommand {
    Line(Vertex, Vertex),
    OptionalLine(Vertex, Vertex),
    Triangle(Vertex, Vertex, Vertex),
    Quad(Vertex, Vertex, Vertex, Vertex),
    SubPartReference(SubPartRef),
}

/// Why a part's geometry could not be built.
#[derive(Clone, Copy, Debug, PartialEq, Eq, Structural)]
pub enum GeometryError {
    /// A coordinate is NaN.
    InvalidVertex,
    /// More distinct positions than 32-bit indices can address.
    TooManyVertices,
}

/// The vertices that the builder looks up, in the order it looks them up.
pub open spec fn cmd_inserted(c: DrawCommand, lines: bool) -> Seq<Vertex> {
    match c {
        DrawCommand::Line(a, b) => if lines { seq![a, b] } else { seq![] },
        DrawCommand::OptionalLine(a, b) => if lines { seq![a, b] } else { seq![] },
        DrawCommand::Triangle(a, b, c) => seq![a, b, c],
        DrawCommand::Quad(a, b, c, d) => seq![a, b, c, d],
        DrawCommand::SubPartReference(_) => seq![],
    }
}

/// The triangle corners a command emits: a triangle in its own order, a quad
/// `[a, b, c, d]` as the two triangles `(a, c, b)` and `(a, d, c)`.
pub open spec fn cmd_corners(c: DrawCommand) -> Seq<Vertex> {
    match c {
        DrawCommand::Triangle(a, b, c) => seq![a, b, c],
        DrawCommand::Quad(a, b, c, d) => seq![a, c, b, a, d, c],
        _ => seq![],
    }
}

/// The line end points a command emits.
pub open spec fn cmd_line_ends(c: DrawCommand, lines: bool) -> Seq<Vertex> {
    match c {
        DrawCommand::Line(a, b) => if lines { seq![a, b] } else { seq![] },
        DrawCommand::OptionalLine(a, b) => if lines { seq![a, b] } else { seq![] },
        _ => seq![],
    }
}

pub open spec fn inserted(cmds: Seq<DrawCommand>, lines: bool) -> Seq<Vertex>
    decreases cmds.len(),
{
    if cmds.len() == 0 {
        seq![]
    } else {
        inserted(cmds.drop_last(), lines) + cmd_inserted(cmds.last(), lines)
    }
}

pub open spec fn corners(cmds: Seq<DrawCommand>) -> Seq<Vertex>
    decreases cmds.len(),
{
    if cmds.len() == 0 {
        seq![]
    } else {
        corners(cmds.drop_last()) + cmd_corners(cmds.last())
    }
}

pub open spec fn line_ends(cmds: Seq<DrawCommand>, lines: bool) -> Seq<Vertex>
    decreases cmds.len(),
{
    if cmds.len() == 0 {
        seq![]
    } else {
        line_ends(cmds.drop_last(), lines) + cmd_line_ends(cmds.last(), lines)
    }
}

/// Some vertex of `vs` is at the canonical position `k`.
pub open spec fn has_key(vs: Seq<Vertex>, k: (u32, u32, u32)) -> bool {
    exists|i: int| 0 <= i < vs.len() && key(vs[i]) == k
}

/// No two vertices of `vs` are at one canonical position.
pub open spec fn distinct_keys(vs: Seq<Vertex>) -> bool {
    forall|i: int, j: int| 0 <= i < j < vs.len() ==> key(vs[i]) != key(vs[j])
}

pub open spec fn dedup_step(vs: Seq<Vertex>, v: Vertex) -> Seq<Vertex> {
    if has_key(vs, key(v)) {
        vs
    } else {
        vs.push(v)
    }
}

/// The first vertex at each canonical position of `s`, in order of first appearance.
pub open spec fn dedup(s: Seq<Vertex>) -> Seq<Vertex>
    decreases s.len(),
{
    if s.len() == 0 {
        seq![]
    } else {
        dedup_step(dedup(s.drop_last()), s.last())
    }
}

/// The index of the vertex of `vs` at the position of `v`.
pub open spec fn index_at(vs: Seq<Vertex>, v: Vertex) -> int {
    choose|i: int| 0 <= i < vs.len() && key(vs[i]) == key(v)
}

/// That index as a 32-bit index.
pub open spec fn index_in(vs: Seq<Vertex>, v: Vertex) -> u32 {
    index_at(vs, v) as u32
}

pub open spec fn indices_in(vs: Seq<Vertex>, ps: Seq<Vertex>) -> Seq<u32> {
    ps.map_values(|p: Vertex| index_in(vs, p))
}

/// Largest number of vertices that 32-bit indices can address.
pub const MAX_VERTICES: u64 = 0x1_0000_0000;

/// The geometry of a part, as plain sequences.
pub struct GeometryModel {
    pub vertices: Seq<Vertex>,
    pub triangles: Seq<u32>,
    pub lines: Seq<u32>,
}

/// What building a part's flattened command stream gives.
pub open spec fn geometry_of(cmds: Seq<DrawCommand>, lines: bool) -> Result<GeometryModel, GeometryError> {
    let ins = inserted(cmds, lines);
    let vs = dedup(ins);
    if exists|i: int| 0 <= i < ins.len() && is_invalid(ins[i]) {
        Err(GeometryError::InvalidVertex)
    } else if vs.len() > MAX_VERTICES {
        Err(GeometryError::TooManyVertices)
    } else {
        Ok(
            GeometryModel {
                vertices: vs,
                triangles: indices_in(vs, corners(cmds)),
                lines: indices_in(vs, line_ends(cmds, lines)),
            },
        )
    }
}

/// The vertex and index buffers of one part.
pub struct Geometry {
    pub vertices: Vec<Vertex>,
    pub triangle_indices: Vec<u32>,
    pub line_indices: Vec<u32>,
}

impl View for Geometry {
    type V = GeometryModel;

    open spec fn view(&self) -> GeometryModel {
        GeometryModel {
            vertices: self.vertices@,
            triangles: self.triangle_indices@,
            lines: self.line_indices@,
        }
    }
}

/// With distinct positions, the vertex at a position is the one `index_in` names.
proof fn lemma_index_in(vs: Seq<Vertex>, v: Vertex, i: int)
    requires
        distinct_keys(vs),
        0 <= i < vs.len(),
        key(vs[i]) == key(v),
    ensures
        index_at(vs, v) == i,
        i <= u32::MAX ==> index_in(vs, v) == i as u32,
{
    let j = choose|j: int| 0 <= j < vs.len() && key(vs[j]) == key(v);
    assert(j == i);
}

/// Deduplication keeps distinct positions, and only vertices of its input.
proof fn lemma_dedup_distinct(s: Seq<Vertex>)
    ensures
        distinct_keys(dedup(s)),
        dedup(s).len() <= s.len(),
    decreases s.len(),
{
    if s.len() > 0 {
        lemma_dedup_distinct(s.drop_last());
    }
}

/// The deduplication of a prefix is never longer than that of the whole.
proof fn lemma_dedup_prefix_len(s: Seq<Vertex>, n: int)
    requires
        0 <= n <= s.len(),
    ensures
        dedup(s.take(n)).len() <= dedup(s).len(),
    decreases s.len() - n,
{
    if n < s.len() {
        lemma_dedup_prefix_len(s, n + 1);
        assert(s.take(n + 1).drop_last() =~= s.take(n));
    } else {
        assert(s.take(n) =~= s);
    }
}

/// Each index of `idx` points at a vertex of `vs` at the position of the matching point of `ps`.
pub open spec fn indexes(vs: Seq<Vertex>, idx: Seq<u32>, ps: Seq<Vertex>) -> bool {
    &&& idx.len() == ps.len()
    &&& forall|j: int|
        0 <= j < idx.len() ==> (#[trigger] idx[j]) < vs.len() && key(vs[idx[j] as int]) == key(
            ps[j],
        )
}

proof fn lemma_dedup_push(s: Seq<Vertex>, v: Vertex)
    ensures
        dedup(s.push(v)) == dedup_step(dedup(s), v),
{
    assert(s.push(v).drop_last() =~= s);
}

/// Indices into a vertex list stay valid when a vertex is added.
proof fn lemma_indexes_grow(vs: Seq<Vertex>, idx: Seq<u32>, ps: Seq<Vertex>, v: Vertex)
    requires
        indexes(vs, idx, ps),
    ensures
        indexes(dedup_step(vs, v), idx, ps),
{
    let ws = dedup_step(vs, v);
    assert forall|j: int| 0 <= j < idx.len() implies (#[trigger] idx[j]) < ws.len() && key(
        ws[idx[j] as int],
    ) == key(ps[j]) by {
        assert(idx[j] < vs.len());
    }
}

/// Indices that match their points give exactly the list `indices_in` names.
proof fn lemma_indexes_exact(vs: Seq<Vertex>, idx: Seq<u32>, ps: Seq<Vertex>)
    requires
        indexes(vs, idx, ps),
        distinct_keys(vs),
        vs.len() <= MAX_VERTICES,
    ensures
        idx == indices_in(vs, ps),
{
    assert forall|j: int| 0 <= j < idx.len() implies idx[j] == #[trigger] indices_in(vs, ps)[j] by {
        lemma_index_in(vs, ps[j], idx[j] as int);
    }
    assert(idx =~= indices_in(vs, ps));
}

proof fn lemma_take_step(cmds: Seq<DrawCommand>, k: int, lines: bool)
    requires
        0 <= k < cmds.len(),
    ensures
        inserted(cmds.take(k + 1), lines) == inserted(cmds.take(k), lines) + cmd_inserted(cmds[k], lines),
        corners(cmds.take(k + 1)) == corners(cmds.take(k)) + cmd_corners(cmds[k]),
        line_ends(cmds.take(k + 1), lines) == line_ends(cmds.take(k), lines) + cmd_line_ends(cmds[k], lines),
{
    assert(cmds.take(k + 1).drop_last() =~= cmds.take(k));
}

/// The vertices that a prefix of the commands looks up are a prefix of all of them.
proof fn lemma_inserted_prefix(cmds: Seq<DrawCommand>, n: int, lines: bool)
    requires
        0 <= n <= cmds.len(),
    ensures
        inserted(cmds.take(n), lines).len() <= inserted(cmds, lines).len(),
        inserted(cmds, lines).take(inserted(cmds.take(n), lines).len() as int) =~= inserted(cmds.take(n), lines),
    decreases cmds.len(),
{
    if n == cmds.len() {
        assert(cmds.take(n) =~= cmds);
    } else {
        let c2 = cmds.drop_last();
        assert(cmds.take(n) =~= c2.take(n));
        lemma_inserted_prefix(c2, n, lines);
    }
}

/// The per-part store that gives each distinct position one index.
pub struct GeometryCache {
    pub vertices: Vec<Vertex>,
    pub vertex_map: HashMap<u128, u32>,
    pub line_indices: Vec<u32>,
    pub triangle_indices: Vec<u32>,
}

impl GeometryCache {
    /// The cache holds the deduplication of `ins`, and its index lists point at
    /// the positions of `cs` (triangle corners) and `ls` (line ends).
    pub open spec fn tracks(&self, ins: Seq<Vertex>, cs: Seq<Vertex>, ls: Seq<Vertex>) -> bool {
        &&& self.wf()
        &&& self.vertices@ == dedup(ins)
        &&& indexes(self.vertices@, self.triangle_indices@, cs)
        &&& indexes(self.vertices@, self.line_indices@, ls)
    }

    /// The map gives each stored position its index, and holds nothing else.
    pub open spec fn wf(&self) -> bool {
        &&& distinct_keys(self.vertices@)
        &&& self.vertices@.len() <= MAX_VERTICES
        &&& forall|i: int|
            0 <= i < self.vertices@.len() ==> #[trigger] self.vertex_map@.contains_key(
                packed(key(self.vertices@[i])),
            ) && self.vertex_map@[packed(key(self.vertices@[i]))] == i
        &&& forall|k: u128|
            #[trigger] self.vertex_map@.contains_key(k) ==> self.vertex_map@[k]
                < self.vertices@.len() && packed(key(self.vertices@[self.vertex_map@[k] as int]))
                == k
    }

    /// An empty cache.
    pub fn new() -> (r: Self)
        ensures
            r.wf(),
            r.vertices@.len() == 0,
            r.line_indices@.len() == 0,
            r.triangle_indices@.len() == 0,
    {
        GeometryCache {
            vertices: Vec::new(),
            vertex_map: HashMap::new(),
            line_indices: Vec::new(),
            triangle_indices: Vec::new(),
        }
    }

    /// Returns the index of `v`'s position, storing `v` if the position is new;
    /// `None` when a new position would need an index past 32 bits.
    pub fn insert_vertex(&mut self, v: Vertex) -> (r: Option<u32>)
        requires
            old(self).wf(),
        ensures
            final(self).line_indices == old(self).line_indices,
            final(self).triangle_indices == old(self).triangle_indices,
            match r {
                Some(i) => {
                    &&& final(self).wf()
                    &&& final(self).vertices@ == dedup_step(old(self).vertices@, v)
                    &&& i < final(self).vertices@.len()
                    &&& key(final(self).vertices@[i as int]) == key(v)
                },
                None => dedup_step(old(self).vertices@, v).len() > MAX_VERTICES,
            },
    {
        let k = v.packed_key();
        match self.vertex_map.get(&k) {
            Some(i) => {
                let i = *i;
                proof {
                    lemma_packed_injective(key(self.vertices@[i as int]), key(v));
                }
                Some(i)
            },
            None => {
                proof {
                    assert forall|j: int| 0 <= j < self.vertices@.len() implies key(
                        self.vertices@[j],
                    ) != key(v) by {
                        assert(self.vertex_map@.contains_key(packed(key(self.vertices@[j]))));
                    }
                }
                let n = self.vertices.len();
                if n as u64 >= MAX_VERTICES {
                    return None;
                }
                let index = n as u32;
                self.vertices.push(v);
                self.vertex_map.insert(k, index);
                proof {
                    let vs = self.vertices@;
                    assert forall|a: int| 0 <= a < vs.len() implies #[trigger] self.vertex_map@.contains_key(
                        packed(key(vs[a])),
                    ) && self.vertex_map@[packed(key(vs[a]))] == a by {
                        if a < n {
                            lemma_packed_injective(key(vs[a]), key(v));
                            assert(old(self).vertex_map@.contains_key(packed(key(old(self).vertices@[a]))));
                        }
                    }
                    assert forall|kk: u128| #[trigger] self.vertex_map@.contains_key(kk) implies self.vertex_map@[kk]
                        < vs.len() && packed(key(vs[self.vertex_map@[kk] as int])) == kk by {
                        if kk != k {
                            assert(old(self).vertex_map@.contains_key(kk));
                        }
                    }
                }
                Some(index)
            },
        }
    }

    /// Adds a line between `a` and `b`; `false` when the indices ran out.
    pub fn add_line(
        &mut self,
        a: Vertex,
        b: Vertex,
        Ghost(ins): Ghost<Seq<Vertex>>,
        Ghost(cs): Ghost<Seq<Vertex>>,
        Ghost(ls): Ghost<Seq<Vertex>>,
    ) -> (ok: bool)
        requires
            old(self).tracks(ins, cs, ls),
        ensures
            ok ==> final(self).tracks(ins.push(a).push(b), cs, ls.push(a).push(b)),
            !ok ==> dedup(ins.push(a).push(b)).len() > MAX_VERTICES,
    {
        proof {
            lemma_dedup_push(ins, a);
            lemma_dedup_push(ins.push(a), b);
        }
        let i0 = match self.insert_vertex(a) {
            Some(i) => i,
            None => return false,
        };
        let i1 = match self.insert_vertex(b) {
            Some(i) => i,
            None => return false,
        };
        proof {
            lemma_indexes_grow(old(self).vertices@, old(self).triangle_indices@, cs, a);
            lemma_indexes_grow(dedup_step(old(self).vertices@, a), old(self).triangle_indices@, cs, b);
            lemma_indexes_grow(old(self).vertices@, old(self).line_indices@, ls, a);
            lemma_indexes_grow(dedup_step(old(self).vertices@, a), old(self).line_indices@, ls, b);
        }
        self.line_indices.push(i0);
        self.line_indices.push(i1);
        proof {
            let l = self.line_indices@;
            let p = ls.push(a).push(b);
            assert forall|j: int| 0 <= j < l.len() implies (#[trigger] l[j]) < self.vertices@.len()
                && key(self.vertices@[l[j] as int]) == key(p[j]) by {
                if j < ls.len() {
                    assert(l[j] == old(self).line_indices@[j]);
                }
            }
        }
        true
    }

    /// Adds the triangle `(a, b, c)`; `false` when the indices ran out.
    pub fn add_triangle(
        &mut self,
        a: Vertex,
        b: Vertex,
        c: Vertex,
        Ghost(ins): Ghost<Seq<Vertex>>,
        Ghost(cs): Ghost<Seq<Vertex>>,
        Ghost(ls): Ghost<Seq<Vertex>>,
    ) -> (ok: bool)
        requires
            old(self).tracks(ins, cs, ls),
        ensures
            ok ==> final(self).tracks(
                ins.push(a).push(b).push(c),
                cs.push(a).push(b).push(c),
                ls,
            ),
            !ok ==> dedup(ins.push(a).push(b).push(c)).len() > MAX_VERTICES,
    {
        proof {
            lemma_dedup_push(ins, a);
            lemma_dedup_push(ins.push(a), b);
            lemma_dedup_push(ins.push(a).push(b), c);
        }
        let i0 = match self.insert_vertex(a) {
            Some(i) => i,
            None => return false,
        };
        let ghost v1 = self.vertices@;
        let i1 = match self.insert_vertex(b) {
            Some(i) => i,
            None => return false,
        };
        let ghost v2 = self.vertices@;
        let i2 = match self.insert_vertex(c) {
            Some(i) => i,
            None => return false,
        };
        proof {
            lemma_indexes_grow(old(self).vertices@, old(self).triangle_indices@, cs, a);
            lemma_indexes_grow(v1, old(self).triangle_indices@, cs, b);
            lemma_indexes_grow(v2, old(self).triangle_indices@, cs, c);
            lemma_indexes_grow(old(self).vertices@, old(self).line_indices@, ls, a);
            lemma_indexes_grow(v1, old(self).line_indices@, ls, b);
            lemma_indexes_grow(v2, old(self).line_indices@, ls, c);
        }
        self.triangle_indices.push(i0);
        self.triangle_indices.push(i1);
        self.triangle_indices.push(i2);
        proof {
            let t = self.triangle_indices@;
            let p = cs.push(a).push(b).push(c);
            assert forall|j: int| 0 <= j < t.len() implies (#[trigger] t[j]) < self.vertices@.len()
                && key(self.vertices@[t[j] as int]) == key(p[j]) by {
                if j < cs.len() {
                    assert(t[j] == old(self).triangle_indices@[j]);
                }
            }
        }
        true
    }

    /// Adds the quad `[a, b, c, d]` as the triangles `(a, c, b)` and `(a, d, c)`;
    /// `false` when the indices ran out.
    pub fn add_quad(
        &mut self,
        a: Vertex,
        b: Vertex,
        c: Vertex,
        d: Vertex,
        Ghost(ins): Ghost<Seq<Vertex>>,
        Ghost(cs): Ghost<Seq<Vertex>>,
        Ghost(ls): Ghost<Seq<Vertex>>,
    ) -> (ok: bool)
        requires
            old(self).tracks(ins, cs, ls),
        ensures
            ok ==> final(self).tracks(
                ins.push(a).push(b).push(c).push(d),
                cs.push(a).push(c).push(b).push(a).push(d).push(c),
                ls,
            ),
            !ok ==> dedup(ins.push(a).push(b).push(c).push(d)).len() > MAX_VERTICES,
    {
        proof {
            lemma_dedup_push(ins, a);
            lemma_dedup_push(ins.push(a), b);
            lemma_dedup_push(ins.push(a).push(b), c);
            lemma_dedup_push(ins.push(a).push(b).push(c), d);
        }
        let i0 = match self.insert_vertex(a) {
            Some(i) => i,
            None => return false,
        };
        let ghost v1 = self.vertices@;
        let i1 = match self.insert_vertex(b) {
            Some(i) => i,
            None => return false,
        };
        let ghost v2 = self.vertices@;
        let i2 = match self.insert_vertex(c) {
            Some(i) => i,
            None => return false,
        };
        let ghost v3 = self.vertices@;
        let i3 = match self.insert_vertex(d) {
            Some(i) => i,
            None => return false,
        };
        proof {
            lemma_indexes_grow(old(self).vertices@, old(self).triangle_indices@, cs, a);
            lemma_indexes_grow(v1, old(self).triangle_indices@, cs, b);
            lemma_indexes_grow(v2, old(self).triangle_indices@, cs, c);
            lemma_indexes_grow(v3, old(self).triangle_indices@, cs, d);
            lemma_indexes_grow(old(self).vertices@, old(self).line_indices@, ls, a);
            lemma_indexes_grow(v1, old(self).line_indices@, ls, b);
            lemma_indexes_grow(v2, old(self).line_indices@, ls, c);
            lemma_indexes_grow(v3, old(self).line_indices@, ls, d);
            assert(self.vertices@[i0 as int] == v1[i0 as int]);
            assert(self.vertices@[i1 as int] == v2[i1 as int]);
            assert(self.vertices@[i2 as int] == v3[i2 as int]);
        }
        self.triangle_indices.push(i0);
        self.triangle_indices.push(i2);
        self.triangle_indices.push(i1);
        self.triangle_indices.push(i0);
        self.triangle_indices.push(i3);
        self.triangle_indices.push(i2);
        proof {
            let t = self.triangle_indices@;
            let p = cs.push(a).push(c).push(b).push(a).push(d).push(c);
            assert forall|j: int| 0 <= j < t.len() implies (#[trigger] t[j]) < self.vertices@.len()
                && key(self.vertices@[t[j] as int]) == key(p[j]) by {
                if j < cs.len() {
                    assert(t[j] == old(self).triangle_indices@[j]);
                }
            }
        }
        true
    }

    /// Adds one command of a flattened stream: lines only when `lines_enabled`,
    /// sub-part references not at all; `false` when the indices ran out.
    pub fn add_command(
        &mut self,
        cmd: &DrawCommand,
        lines_enabled: bool,
        Ghost(ins): Ghost<Seq<Vertex>>,
        Ghost(cs): Ghost<Seq<Vertex>>,
        Ghost(ls): Ghost<Seq<Vertex>>,
    ) -> (ok: bool)
        requires
            old(self).tracks(ins, cs, ls),
        ensures
            ok ==> final(self).tracks(
                ins + cmd_inserted(*cmd, lines_enabled),
                cs + cmd_corners(*cmd),
                ls + cmd_line_ends(*cmd, lines_enabled),
            ),
            !ok ==> dedup(ins + cmd_inserted(*cmd, lines_enabled)).len() > MAX_VERTICES,
    {
        match cmd {
            DrawCommand::Line(a, b) | DrawCommand::OptionalLine(a, b) => {
                if lines_enabled {
                    let ok = self.add_line(*a, *b, Ghost(ins), Ghost(cs), Ghost(ls));
                    proof {
                        assert(ins.push(*a).push(*b) =~= ins + seq![*a, *b]);
                        assert(ls.push(*a).push(*b) =~= ls + seq![*a, *b]);
                        assert(cs =~= cs + Seq::<Vertex>::empty());
                    }
                    ok
                } else {
                    proof {
                        assert(ins =~= ins + Seq::<Vertex>::empty());
                        assert(ls =~= ls + Seq::<Vertex>::empty());
                        assert(cs =~= cs + Seq::<Vertex>::empty());
                    }
                    true
                }
            },
            DrawCommand::Triangle(a, b, c) => {
                let ok = self.add_triangle(*a, *b, *c, Ghost(ins), Ghost(cs), Ghost(ls));
                proof {
                    assert(ins.push(*a).push(*b).push(*c) =~= ins + seq![*a, *b, *c]);
                    assert(cs.push(*a).push(*b).push(*c) =~= cs + seq![*a, *b, *c]);
                    assert(ls =~= ls + Seq::<Vertex>::empty());
                }
                ok
            },
            DrawCommand::Quad(a, b, c, d) => {
                let ok = self.add_quad(*a, *b, *c, *d, Ghost(ins), Ghost(cs), Ghost(ls));
                proof {
                    assert(ins.push(*a).push(*b).push(*c).push(*d) =~= ins + seq![*a, *b, *c, *d]);
                    assert(cs.push(*a).push(*c).push(*b).push(*a).push(*d).push(*c) =~= cs
                        + seq![*a, *c, *b, *a, *d, *c]);
                    assert(ls =~= ls + Seq::<Vertex>::empty());
                }
                ok
            },
            DrawCommand::SubPartReference(_) => {
                proof {
                    assert(ins =~= ins + Seq::<Vertex>::empty());
                    assert(ls =~= ls + Seq::<Vertex>::empty());
                    assert(cs =~= cs + Seq::<Vertex>::empty());
                }
                true
            },
        }
    }
}

/// Whether a vertex that the builder would look up has a NaN coordinate.
pub fn has_invalid_vertex(cmds: &Vec<DrawCommand>, lines_enabled: bool) -> (r: bool)
    ensures
        r == exists|i: int|
            0 <= i < inserted(cmds@, lines_enabled).len() && is_invalid(
                #[trigger] inserted(cmds@, lines_enabled)[i],
            ),
{
    let mut k: usize = 0;
    while k < cmds.len()
        invariant
            k <= cmds@.len(),
            forall|i: int|
                0 <= i < inserted(cmds@.take(k as int), lines_enabled).len() ==> !is_invalid(
                    #[trigger] inserted(cmds@.take(k as int), lines_enabled)[i],
                ),
        decreases cmds@.len() - k,
    {
        proof {
            lemma_take_step(cmds@, k as int, lines_enabled);
        }
        let bad = match &cmds[k] {
            DrawCommand::Line(a, b) => lines_enabled && (a.is_invalid() || b.is_invalid()),
            DrawCommand::OptionalLine(a, b) => lines_enabled && (a.is_invalid() || b.is_invalid()),
            DrawCommand::Triangle(a, b, c) => a.is_invalid() || b.is_invalid() || c.is_invalid(),
            DrawCommand::Quad(a, b, c, d) => a.is_invalid() || b.is_invalid() || c.is_invalid()
                || d.is_invalid(),
            DrawCommand::SubPartReference(_) => false,
        };
        if bad {
            proof {
                let pre = inserted(cmds@.take(k as int), lines_enabled);
                let ci = cmd_inserted(cmds@[k as int], lines_enabled);
                let j = choose|j: int| 0 <= j < ci.len() && is_invalid(ci[j]);
                lemma_inserted_prefix(cmds@, k + 1, lines_enabled);
                let whole = inserted(cmds@, lines_enabled);
                assert(whole[pre.len() + j] == (pre + ci)[pre.len() + j]);
            }
            return true;
        }
        proof {
            let ci = cmd_inserted(cmds@[k as int], lines_enabled);
            assert forall|j: int| 0 <= j < ci.len() implies !is_invalid(#[trigger] ci[j]) by {}
        }
        k += 1;
    }
    proof {
        assert(cmds@.take(k as int) =~= cmds@);
    }
    false
}

/// Builds the geometry of a part from its flattened command stream: one vertex
/// per distinct position, triangle indices, and, when `lines_enabled`, line indices.
pub fn create_geometry(cmds: &Vec<DrawCommand>, lines_enabled: bool) -> (r: Result<Geometry, GeometryError>)
    ensures
        match r {
            Ok(g) => geometry_of(cmds@, lines_enabled) matches Ok(m) && m == g@,
            Err(e) => geometry_of(cmds@, lines_enabled) == Err::<GeometryModel, GeometryError>(e),
        },
{
    if has_invalid_vertex(cmds, lines_enabled) {
        return Err(GeometryError::InvalidVertex);
    }
    let mut cache = GeometryCache::new();
    let mut k: usize = 0;
    proof {
        assert(cmds@.take(0) =~= Seq::<DrawCommand>::empty());
        assert(cache.vertices@ =~= dedup(Seq::<Vertex>::empty()));
    }
    while k < cmds.len()
        invariant
            k <= cmds@.len(),
            !exists|i: int|
                0 <= i < inserted(cmds@, lines_enabled).len() && is_invalid(
                    #[trigger] inserted(cmds@, lines_enabled)[i],
                ),
            cache.tracks(
                inserted(cmds@.take(k as int), lines_enabled),
                corners(cmds@.take(k as int)),
                line_ends(cmds@.take(k as int), lines_enabled),
            ),
        decreases cmds@.len() - k,
    {
        proof {
            lemma_take_step(cmds@, k as int, lines_enabled);
        }
        let ghost ins = inserted(cmds@.take(k as int), lines_enabled);
        let ghost cs = corners(cmds@.take(k as int));
        let ghost ls = line_ends(cmds@.take(k as int), lines_enabled);
        let ok = cache.add_command(&cmds[k], lines_enabled, Ghost(ins), Ghost(cs), Ghost(ls));
        if !ok {
            proof {
                let all = inserted(cmds@, lines_enabled);
                let pre = inserted(cmds@.take(k + 1), lines_enabled);
                lemma_inserted_prefix(cmds@, k + 1, lines_enabled);
                lemma_dedup_prefix_len(all, pre.len() as int);
                assert(all.take(pre.len() as int) == pre);
            }
            return Err(GeometryError::TooManyVertices);
        }
        k += 1;
    }
    proof {
        assert(cmds@.take(k as int) =~= cmds@);
        lemma_dedup_distinct(inserted(cmds@, lines_enabled));
        lemma_indexes_exact(cache.vertices@, cache.triangle_indices@, corners(cmds@));
        lemma_indexes_exact(cache.vertices@, cache.line_indices@, line_ends(cmds@, lines_enabled));
    }
    Ok(
        Geometry {
            vertices: cache.vertices,
            triangle_indices: cache.triangle_indices,
            line_indices: cache.line_indices,
        },
    )
}

/// The canonical positions of a vertex list.
pub open spec fn keys(vs: Seq<Vertex>) -> Seq<(u32, u32, u32)> {
    vs.map_values(|v: Vertex| key(v))
}

proof fn lemma_dedup_keys(s: Seq<Vertex>)
    ensures
        keys(dedup(s)).to_set() =~= keys(s).to_set(),
    decreases s.len(),
{
    if s.len() > 0 {
        let p = s.drop_last();
        let v = s.last();
        lemma_dedup_keys(p);
        assert(s =~= p.push(v));
        assert(keys(s) =~= keys(p).push(key(v)));
        let d = dedup(p);
        assert(keys(d.push(v)) =~= keys(d).push(key(v)));
        assert forall|k| keys(s).to_set().contains(k) <==> #[trigger] keys(dedup(s)).to_set().contains(k) by {
            if keys(s).contains(k) && k != key(v) {
                let i = choose|i: int| 0 <= i < keys(s).len() && keys(s)[i] == k;
                assert(keys(p)[i] == k);
                assert(keys(p).to_set().contains(k));
                assert(keys(d).to_set().contains(k));
                let j = choose|j: int| 0 <= j < keys(d).len() && keys(d)[j] == k;
                assert(keys(dedup(s))[j] == k);
            }
            if k == key(v) {
                assert(keys(s)[s.len() - 1] == k);
                if has_key(d, k) {
                    let j = choose|j: int| 0 <= j < d.len() && key(d[j]) == k;
                    assert(keys(dedup(s))[j] == k);
                } else {
                    assert(keys(dedup(s))[d.len() as int] == k);
                }
            }
            if keys(dedup(s)).contains(k) && k != key(v) {
                let j = choose|j: int| 0 <= j < keys(dedup(s)).len() && keys(dedup(s))[j] == k;
                assert(keys(d)[j] == k);
                assert(keys(d).to_set().contains(k));
                assert(keys(p).to_set().contains(k));
                let i = choose|i: int| 0 <= i < keys(p).len() && keys(p)[i] == k;
                assert(keys(s)[i] == k);
            }
        }
    }
}

/// Deduplication: a built part has exactly one vertex per distinct canonical
/// position among the vertices it looked up, so a repeated position never adds one.
pub proof fn lemma_vertex_count(cmds: Seq<DrawCommand>, lines: bool)
    requires
        geometry_of(cmds, lines) is Ok,
    ensures
        (geometry_of(cmds, lines)->Ok_0).vertices.len() == keys(inserted(cmds, lines)).to_set().len(),
{
    let s = inserted(cmds, lines);
    lemma_dedup_keys(s);
    lemma_dedup_distinct(s);
    let d = dedup(s);
    assert(keys(d).no_duplicates()) by {
        assert forall|i: int, j: int| 0 <= i < keys(d).len() && 0 <= j < keys(d).len() && i != j implies keys(d)[i] != keys(d)[j] by {
            if i < j {
                assert(key(d[i]) != key(d[j]));
            } else {
                assert(key(d[j]) != key(d[i]));
            }
        }
    }
    keys(d).unique_seq_to_set();
}

proof fn lemma_dedup_known(s: Seq<Vertex>, t: Seq<Vertex>)
    requires
        forall|j: int| 0 <= j < t.len() ==> has_key(dedup(s), key(#[trigger] t[j])),
    ensures
        dedup(s + t) == dedup(s),
    decreases t.len(),
{
    if t.len() == 0 {
        assert(s + t =~= s);
    } else {
        let u = t.drop_last();
        assert forall|j: int| 0 <= j < u.len() implies has_key(dedup(s), key(#[trigger] u[j])) by {
            assert(u[j] == t[j]);
        }
        lemma_dedup_known(s, u);
        assert((s + t).drop_last() =~= s + u);
        assert(has_key(dedup(s), key(t[t.len() - 1])));
    }
}

/// Deduplication, step by step: a command whose vertices are all at positions
/// already looked up adds no vertex.
pub proof fn lemma_known_positions_add_nothing(cmds: Seq<DrawCommand>, c: DrawCommand, lines: bool)
    requires
        forall|j: int|
            0 <= j < cmd_inserted(c, lines).len() ==> exists|i: int|
                0 <= i < inserted(cmds, lines).len() && key(inserted(cmds, lines)[i]) == key(
                    #[trigger] cmd_inserted(c, lines)[j],
                ),
    ensures
        dedup(inserted(cmds.push(c), lines)) == dedup(inserted(cmds, lines)),
{
    let s = inserted(cmds, lines);
    let t = cmd_inserted(c, lines);
    assert(cmds.push(c).drop_last() =~= cmds);
    lemma_dedup_keys(s);
    assert forall|j: int| 0 <= j < t.len() implies has_key(dedup(s), key(#[trigger] t[j])) by {
        let i = choose|i: int| 0 <= i < s.len() && key(s[i]) == key(t[j]);
        assert(keys(s)[i] == key(t[j]));
        assert(keys(s).to_set().contains(key(t[j])));
        assert(keys(dedup(s)).to_set().contains(key(t[j])));
        let b = choose|b: int| 0 <= b < keys(dedup(s)).len() && keys(dedup(s))[b] == key(t[j]);
        assert(key(dedup(s)[b]) == key(t[j]));
    }
    lemma_dedup_known(s, t);
}

/// Every triangle corner is among the vertices the builder looked up.
proof fn lemma_corners_inserted(cmds: Seq<DrawCommand>, lines: bool, j: int)
    requires
        0 <= j < corners(cmds).len(),
    ensures
        exists|i: int| 0 <= i < inserted(cmds, lines).len() && inserted(cmds, lines)[i] == corners(cmds)[j],
    decreases cmds.len(),
{
    let p = cmds.drop_last();
    let c = cmds.last();
    let pc = corners(p);
    let pi = inserted(p, lines);
    if j < pc.len() {
        lemma_corners_inserted(p, lines, j);
        let i = choose|i: int| 0 <= i < pi.len() && pi[i] == pc[j];
        assert(inserted(cmds, lines)[i] == pi[i]);
    } else {
        let t = j - pc.len();
        let ci = cmd_inserted(c, lines);
        let w: int = match c {
            DrawCommand::Quad(_, _, _, _) => if t == 1 || t == 5 { 2 } else if t == 2 { 1 } else if t == 4 { 3 } else { 0 },
            _ => t,
        };
        assert(ci[w] == cmd_corners(c)[t]);
        assert(inserted(cmds, lines)[pi.len() + w] == ci[w]);
    }
}

/// Index validity: every triangle index of a built part is below its vertex count.
pub proof fn lemma_indices_valid(cmds: Seq<DrawCommand>, lines: bool)
    requires
        geometry_of(cmds, lines) is Ok,
    ensures
        forall|i: int|
            0 <= i < (geometry_of(cmds, lines)->Ok_0).triangles.len() ==> #[trigger] (geometry_of(
                cmds,
                lines,
            )->Ok_0).triangles[i] < (geometry_of(cmds, lines)->Ok_0).vertices.len(),
{
    let m = geometry_of(cmds, lines)->Ok_0;
    let s = inserted(cmds, lines);
    let d = dedup(s);
    lemma_dedup_keys(s);
    assert forall|i: int| 0 <= i < m.triangles.len() implies #[trigger] m.triangles[i] < m.vertices.len() by {
        let p = corners(cmds)[i];
        lemma_corners_inserted(cmds, lines, i);
        let a = choose|a: int| 0 <= a < s.len() && s[a] == p;
        assert(keys(s)[a] == key(p));
        assert(keys(s).to_set().contains(key(p)));
        assert(keys(d).to_set().contains(key(p)));
        let b = choose|b: int| 0 <= b < keys(d).len() && keys(d)[b] == key(p);
        assert(key(d[b]) == key(p));
        let x = index_at(d, p);
        assert(0 <= x < d.len());
    }
}

/// Quad triangulation: a quad `[a, b, c, d]` gives the triangles `(a, c, b)` and `(a, d, c)`.
pub proof fn lemma_quad_split(a: Vertex, b: Vertex, c: Vertex, d: Vertex, lines: bool)
    requires
        geometry_of(seq![DrawCommand::Quad(a, b, c, d)], lines) is Ok,
    ensures
        ({
            let m = geometry_of(seq![DrawCommand::Quad(a, b, c, d)], lines)->Ok_0;
            let ix = |v: Vertex| index_in(m.vertices, v);
            m.triangles == seq![ix(a), ix(c), ix(b), ix(a), ix(d), ix(c)]
        }),
{
    let cmds = seq![DrawCommand::Quad(a, b, c, d)];
    assert(cmds.drop_last() =~= Seq::<DrawCommand>::empty());
    let m = geometry_of(cmds, lines)->Ok_0;
    assert(cmds.last() == DrawCommand::Quad(a, b, c, d));
    assert(corners(cmds.drop_last()) =~= Seq::<Vertex>::empty());
    assert(corners(cmds) =~= Seq::<Vertex>::empty() + seq![a, c, b, a, d, c]);
    assert(corners(cmds) =~= seq![a, c, b, a, d, c]);
    assert(m.triangles =~= seq![
        index_in(m.vertices, a),
        index_in(m.vertices, c),
        index_in(m.vertices, b),
        index_in(m.vertices, a),
        index_in(m.vertices, d),
        index_in(m.vertices, c),
    ]);
}

} // verus!
