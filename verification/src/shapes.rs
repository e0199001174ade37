//! Primitive tables: which primitives a scene holds, which material each
//! wears, and which of the hits that the tables report is the closest.
//!
//! The tables carry the shapes themselves as values of a type parameter:
//! what a sphere or a mesh is made of is the caller's matter.

use vstd::prelude::*;
use crate::tags::is_word;
use crate::bvh::{
    box_hit,
    box_test_is_function,
    closer,
    closer_spec,
    prim_hit,
    prim_test_is_function,
};

verus! {

/// The closest primitive a ray meets. `t` is the distance key: the bit
/// pattern of the non-negative distance along the ray, which orders as the
/// distance does.
#[derive(Clone, Copy, Debug, PartialEq, Eq, Structural)]
pub struct ShapeIntersection {
    pub t: u32,
    pub shape_id: usize,
}

/// Distance keys at or beyond this one are too far to count as a hit of the
/// geometry.
pub const HORIZON: u32 = 0x7e96_7699;

/// The kinds of shape that a scene description may hold.
#[derive(Clone, Copy, Debug, PartialEq, Eq, Structural)]
pub enum ShapeType {
    Sphere,
    Mesh,
}

impl ShapeType {
    /// The kind of shape that a tag names: `sphere`, `mesh`.
    pub open spec fn tagged(tag: Seq<char>) -> Option<ShapeType> {
        if tag == "sphere"@ {
            Some(ShapeType::Sphere)
        } else if tag == "mesh"@ {
            Some(ShapeType::Mesh)
        } else {
            None
        }
    }

    /// The kind that the tag names, or `None` for an unknown tag.
    pub fn from_tag(tag: &str) -> (r: Option<ShapeType>)
        ensures
            r == ShapeType::tagged(tag@),
    {
        if is_word(tag, "sphere") {
            Some(ShapeType::Sphere)
        } else if is_word(tag, "mesh") {
            Some(ShapeType::Mesh)
        } else {
            None
        }
    }
}

/// The handle of a triangle: the mesh it belongs to and its number there.
#[derive(Clone, Copy, Debug, PartialEq, Eq, Structural)]
pub struct Triangle {
    pub mesh_id: u32,
    pub triangle_id: u32,
}

/// Which table the closest hit came from.
#[derive(Clone, Copy, Debug, PartialEq, Eq, Structural)]
pub enum GeometryIntersection {
    Sphere(ShapeIntersection),
    Triangle(ShapeIntersection),
    Miss,
}

/// A candidate counts when its distance is positive and before the horizon.
pub open spec fn counts(candidate: Option<ShapeIntersection>) -> bool {
    candidate matches Some(hit) && 0 < hit.t < HORIZON
}

/// The closest of the two tables' candidates: the triangle only where it
/// is strictly closer than a sphere that counts.
pub open spec fn closest_candidate(
    sphere: Option<ShapeIntersection>,
    triangle: Option<ShapeIntersection>,
) -> GeometryIntersection {
    if counts(triangle) && (!counts(sphere) || triangle->0.t < sphere->0.t) {
        GeometryIntersection::Triangle(triangle->0)
    } else if counts(sphere) {
        GeometryIntersection::Sphere(sphere->0)
    } else {
        GeometryIntersection::Miss
    }
}

impl GeometryIntersection {
    /// Picks the closest of the candidates that the sphere table and the
    /// triangle table report for one ray.
    pub fn closest(sphere: Option<ShapeIntersection>, triangle: Option<ShapeIntersection>) -> (r:
        GeometryIntersection)
        ensures
            r == closest_candidate(sphere, triangle),
    {
        let mut current_t: u32 = HORIZON;
        let mut result = GeometryIntersection::Miss;
        if let Some(hit) = sphere {
            if hit.t > 0 && hit.t < current_t {
                current_t = hit.t;
                result = GeometryIntersection::Sphere(hit);
            }
        }
        if let Some(hit) = triangle {
            if hit.t > 0 && hit.t < current_t {
                result = GeometryIntersection::Triangle(hit);
            }
        }
        result
    }
}

/// What is wrong with the index list of a mesh.
#[derive(Clone, Copy, Debug, PartialEq, Eq, Structural)]
pub enum MeshError {
    /// The number of indices is not a multiple of three.
    IncompleteTriangle,
    /// The index at this position names no vertex.
    IndexOutOfRange(usize),
}

/// The indices form whole triangles over `vertex_count` vertices.
pub open spec fn mesh_ok(vertex_count: int, indices: Seq<u32>) -> bool {
    &&& indices.len() % 3 == 0
    &&& forall|i: int| 0 <= i < indices.len() ==> (#[trigger] indices[i]) < vertex_count
}

/// Checks the index list of a mesh and counts its triangles. Of several
/// indices out of range the first is reported.
pub fn check_mesh(vertex_count: usize, indices: &[u32]) -> (r: Result<usize, MeshError>)
    ensures
        r is Ok <==> mesh_ok(vertex_count as int, indices@),
        r matches Ok(count) ==> count == indices@.len() / 3,
        r == Err::<usize, MeshError>(MeshError::IncompleteTriangle) <==> indices@.len() % 3 != 0,
        r matches Err(MeshError::IndexOutOfRange(at)) ==> {
            &&& at < indices@.len()
            &&& indices@[at as int] >= vertex_count
            &&& forall|i: int| 0 <= i < at ==> (#[trigger] indices@[i]) < vertex_count
        },
{
    if indices.len() % 3 != 0 {
        return Err(MeshError::IncompleteTriangle);
    }
    let mut i: usize = 0;
    while i < indices.len()
        invariant
            i <= indices.len(),
            indices@.len() % 3 == 0,
            forall|k: int| 0 <= k < i ==> (#[trigger] indices@[k]) < vertex_count,
        decreases indices.len() - i,
    {
        if indices[i] as usize >= vertex_count {
            return Err(MeshError::IndexOutOfRange(i));
        }
        i += 1;
    }
    Ok(indices.len() / 3)
}

/// A triangle mesh: vertices of some kind `V` and, three by three, the
/// numbers of the vertices that are the corners of each triangle.
pub struct Mesh<V> {
    vertices: Vec<V>,
    indices: Vec<u32>,
}

impl<V: Copy> Mesh<V> {
    pub closed spec fn vertices(&self) -> Seq<V> {
        self.vertices@
    }

    pub closed spec fn indices(&self) -> Seq<u32> {
        self.indices@
    }

    /// The indices form whole triangles over the vertices.
    pub open spec fn wf(&self) -> bool {
        mesh_ok(self.vertices().len() as int, self.indices())
    }

    /// The three corners of triangle `triangle_id`.
    pub open spec fn corners_of(&self, triangle_id: int) -> (V, V, V) {
        (
            self.vertices()[self.indices()[3 * triangle_id] as int],
            self.vertices()[self.indices()[3 * triangle_id + 1] as int],
            self.vertices()[self.indices()[3 * triangle_id + 2] as int],
        )
    }

    /// A mesh over the vertices, or what is wrong with the indices.
    pub fn new(vertices: Vec<V>, indices: Vec<u32>) -> (r: Result<Self, MeshError>)
        ensures
            r is Ok <==> mesh_ok(vertices@.len() as int, indices@),
            r matches Ok(mesh) ==> mesh.wf() && mesh.vertices() == vertices@ && mesh.indices()
                == indices@,
            r matches Err(e) ==> (e == MeshError::IncompleteTriangle <==> indices@.len() % 3 != 0),
            r matches Err(MeshError::IndexOutOfRange(at)) ==> {
                &&& at < indices@.len()
                &&& indices@[at as int] >= vertices@.len()
                &&& forall|i: int| 0 <= i < at ==> (#[trigger] indices@[i]) < vertices@.len()
            },
    {
        match check_mesh(vertices.len(), indices.as_slice()) {
            Ok(_) => Ok(Mesh { vertices, indices }),
            Err(e) => Err(e),
        }
    }

    pub fn triangle_count(&self) -> (n: usize)
        ensures
            n == self.indices().len() / 3,
    {
        self.indices.len() / 3
    }

    pub fn vertex_count(&self) -> (n: usize)
        ensures
            n == self.vertices().len(),
    {
        self.vertices.len()
    }

    /// The three corners of a triangle.
    pub fn corners(&self, triangle_id: usize) -> (r: (V, V, V))
        requires
            self.wf(),
            triangle_id < self.indices().len() / 3,
        ensures
            r == self.corners_of(triangle_id as int),
    {
        let len = self.indices.len();
        assert(3 * triangle_id + 2 < len) by {
            assert(len % 3 == 0);
            assert(len == 3 * (len / 3));
        }
        let first = triangle_id * 3;
        assert(self.indices@[first as int] < self.vertices@.len());
        assert(self.indices@[first + 1] < self.vertices@.len());
        assert(self.indices@[first + 2] < self.vertices@.len());
        let a = self.indices[first] as usize;
        let b = self.indices[first + 1] as usize;
        let c = self.indices[first + 2] as usize;
        (self.vertices[a], self.vertices[b], self.vertices[c])
    }

    /// Replaces every vertex by what `move_fn` makes of it.
    pub fn transform<F: Fn(V) -> V>(&mut self, move_fn: F)
        requires
            old(self).wf(),
            forall|v: V| call_requires(move_fn, (v,)),
        ensures
            final(self).wf(),
            final(self).indices() == old(self).indices(),
            final(self).vertices().len() == old(self).vertices().len(),
            forall|i: int|
                0 <= i < old(self).vertices().len() ==> call_ensures(
                    move_fn,
                    (old(self).vertices()[i],),
                    #[trigger] final(self).vertices()[i],
                ),
    {
        let mut i: usize = 0;
        while i < self.vertices.len()
            invariant
                i <= self.vertices.len(),
                self.indices@ == old(self).indices(),
                self.vertices@.len() == old(self).vertices().len(),
                forall|v: V| call_requires(move_fn, (v,)),
                forall|k: int|
                    0 <= k < i ==> call_ensures(
                        move_fn,
                        (old(self).vertices()[k],),
                        #[trigger] self.vertices@[k],
                    ),
                forall|k: int|
                    i <= k < self.vertices@.len() ==> self.vertices@[k] == old(self).vertices()[k],
            decreases self.vertices.len() - i,
        {
            let moved = move_fn(self.vertices[i]);
            self.vertices.set(i, moved);
            i += 1;
        }
    }
}

/// A table of primitives of one kind, each with its material.
pub struct Primitives<T> {
    shapes: Vec<T>,
    material_ids: Vec<u32>,
}

impl<T> Primitives<T> {
    pub closed spec fn shapes(&self) -> Seq<T> {
        self.shapes@
    }

    pub closed spec fn material_ids(&self) -> Seq<u32> {
        self.material_ids@
    }

    /// Every shape has a material.
    pub open spec fn wf(&self) -> bool {
        self.shapes().len() == self.material_ids().len()
    }

    pub fn new() -> (table: Self)
        ensures
            table.wf(),
            table.shapes().len() == 0,
    {
        Self { shapes: Vec::new(), material_ids: Vec::new() }
    }

    /// Adds a shape at the end of the table.
    pub fn add(&mut self, shape: T, material_id: u32)
        requires
            old(self).wf(),
        ensures
            final(self).wf(),
            final(self).shapes() == old(self).shapes().push(shape),
            final(self).material_ids() == old(self).material_ids().push(material_id),
    {
        self.shapes.push(shape);
        self.material_ids.push(material_id);
    }

    pub fn len(&self) -> (n: usize)
        ensures
            n == self.shapes().len(),
    {
        self.shapes.len()
    }

    pub fn shape(&self, shape_id: usize) -> (shape: &T)
        requires
            shape_id < self.shapes().len(),
        ensures
            *shape == self.shapes()[shape_id as int],
    {
        &self.shapes[shape_id]
    }

    /// The material of the shape that was hit.
    pub fn material(&self, isect: &ShapeIntersection) -> (id: u32)
        requires
            self.wf(),
            isect.shape_id < self.shapes().len(),
        ensures
            id == self.material_ids()[isect.shape_id as int],
    {
        self.material_ids[isect.shape_id]
    }
}

/// The table of triangles: meshes, one material for each mesh, and one
/// handle for each triangle of each mesh, mesh after mesh.
pub struct Triangles<M> {
    meshes: Vec<M>,
    material_ids: Vec<u32>,
    triangles: Vec<Triangle>,
}

impl<M> Triangles<M> {
    pub closed spec fn meshes(&self) -> Seq<M> {
        self.meshes@
    }

    pub closed spec fn material_ids(&self) -> Seq<u32> {
        self.material_ids@
    }

    pub closed spec fn triangles(&self) -> Seq<Triangle> {
        self.triangles@
    }

    /// Every mesh has a material, and every handle names a mesh of the table.
    pub open spec fn wf(&self) -> bool {
        &&& self.meshes().len() == self.material_ids().len()
        &&& self.meshes().len() <= u32::MAX
        &&& forall|i: int|
            0 <= i < self.triangles().len() ==> (#[trigger] self.triangles()[i]).mesh_id
                < self.meshes().len()
    }

    pub fn new() -> (table: Self)
        ensures
            table.wf(),
            table.meshes().len() == 0,
            table.triangles().len() == 0,
    {
        Self { meshes: Vec::new(), material_ids: Vec::new(), triangles: Vec::new() }
    }

    /// Adds a mesh of `triangle_count` triangles: the mesh and its material
    /// at the end of their lists, and a handle for each of its triangles, in
    /// order, at the end of the handles.
    pub fn add(&mut self, mesh: M, triangle_count: u32, material_id: u32)
        requires
            old(self).wf(),
            old(self).meshes().len() < u32::MAX,
        ensures
            final(self).wf(),
            final(self).meshes() == old(self).meshes().push(mesh),
            final(self).material_ids() == old(self).material_ids().push(material_id),
            final(self).triangles() == old(self).triangles() + Seq::new(
                triangle_count as nat,
                |i: int| Triangle { mesh_id: old(self).meshes().len() as u32, triangle_id: i as u32 },
            ),
    {
        let mesh_id = self.meshes.len() as u32;
        let ghost handles = Seq::new(
            triangle_count as nat,
            |i: int| Triangle { mesh_id, triangle_id: i as u32 },
        );
        self.meshes.push(mesh);
        self.material_ids.push(material_id);
        let mut i: u32 = 0;
        while i < triangle_count
            invariant
                i <= triangle_count,
                mesh_id == old(self).meshes().len(),
                self.meshes@ == old(self).meshes().push(mesh),
                self.material_ids@ == old(self).material_ids().push(material_id),
                self.triangles@ == old(self).triangles() + handles.subrange(0, i as int),
                handles == Seq::new(
                    triangle_count as nat,
                    |i: int| Triangle { mesh_id, triangle_id: i as u32 },
                ),
            decreases triangle_count - i,
        {
            self.triangles.push(Triangle { mesh_id, triangle_id: i });
            assert(self.triangles@ =~= old(self).triangles() + handles.subrange(0, i + 1));
            i += 1;
        }
        assert(handles.subrange(0, triangle_count as int) =~= handles);
    }

    /// The number of triangles.
    pub fn len(&self) -> (n: usize)
        ensures
            n == self.triangles().len(),
    {
        self.triangles.len()
    }

    /// The handle of the triangle that was hit.
    pub fn triangle(&self, shape_id: usize) -> (handle: Triangle)
        requires
            shape_id < self.triangles().len(),
        ensures
            handle == self.triangles()[shape_id as int],
    {
        self.triangles[shape_id]
    }

    /// The mesh of the triangle that was hit.
    pub fn mesh(&self, shape_id: usize) -> (mesh: &M)
        requires
            self.wf(),
            shape_id < self.triangles().len(),
        ensures
            *mesh == self.meshes()[self.triangles()[shape_id as int].mesh_id as int],
    {
        &self.meshes[self.triangles[shape_id].mesh_id as usize]
    }

    /// The material of the triangle that was hit: that of its mesh.
    pub fn material(&self, isect: &ShapeIntersection) -> (id: u32)
        requires
            self.wf(),
            isect.shape_id < self.triangles().len(),
        ensures
            id == self.material_ids()[self.triangles()[isect.shape_id as int].mesh_id as int],
    {
        self.material_ids[self.triangles[isect.shape_id].mesh_id as usize]
    }
}

/// The reference intersector: it keeps the volume of every primitive and
/// tests them one after the other.
pub struct LinearIntersector<B> {
    bboxes: Vec<B>,
}

/// The best hit after the first `count` primitives were tested in order,
/// starting from `best`: a primitive whose volume the ray misses is skipped.
pub open spec fn scan<B, H: Fn(&B) -> bool, I: Fn(usize) -> Option<u32>>(
    bboxes: Seq<B>,
    hit_fn: H,
    isect_fn: I,
    count: int,
    best: ShapeIntersection,
) -> ShapeIntersection
    decreases count,
{
    if count <= 0 {
        best
    } else {
        let before = scan(bboxes, hit_fn, isect_fn, count - 1, best);
        if box_hit(hit_fn, bboxes[count - 1]) {
            closer_spec(before, prim_hit(isect_fn, (count - 1) as usize), (count - 1) as usize)
        } else {
            before
        }
    }
}

impl<B> LinearIntersector<B> {
    /// The volumes of the primitives, in their order.
    pub closed spec fn bboxes(&self) -> Seq<B> {
        self.bboxes@
    }

    pub fn new() -> (intersector: Self)
        ensures
            intersector.bboxes().len() == 0,
    {
        Self { bboxes: Vec::new() }
    }

    /// Takes up the volumes of the primitives `0 .. n_primitives`.
    pub fn prepare_for_rendering<F: Fn(usize) -> B>(&mut self, n_primitives: usize, bbox_fn: F)
        requires
            forall|i: usize| i < n_primitives ==> call_requires(bbox_fn, (i,)),
        ensures
            final(self).bboxes().len() == n_primitives,
            forall|i: int|
                0 <= i < n_primitives ==> call_ensures(
                    bbox_fn,
                    (i as usize,),
                    #[trigger] final(self).bboxes()[i],
                ),
    {
        let mut bboxes: Vec<B> = Vec::new();
        let mut i: usize = 0;
        while i < n_primitives
            invariant
                i <= n_primitives,
                bboxes.len() == i,
                forall|i: usize| i < n_primitives ==> call_requires(bbox_fn, (i,)),
                forall|k: int|
                    0 <= k < i ==> call_ensures(bbox_fn, (k as usize,), #[trigger] bboxes[k]),
            decreases n_primitives - i,
        {
            bboxes.push(bbox_fn(i));
            i += 1;
        }
        self.bboxes = bboxes;
    }

    /// The hit that a scan of all primitives ends with.
    pub open spec fn closest<H: Fn(&B) -> bool, I: Fn(usize) -> Option<u32>>(
        &self,
        hit_fn: H,
        isect_fn: I,
    ) -> Option<ShapeIntersection> {
        let best = scan(
            self.bboxes(),
            hit_fn,
            isect_fn,
            self.bboxes().len() as int,
            ShapeIntersection { t: HORIZON, shape_id: 0 },
        );
        if best.t < HORIZON {
            Some(best)
        } else {
            None
        }
    }

    /// Finds the closest primitive that a ray meets, testing every primitive
    /// whose volume the ray meets. Of two hits with the same key the one of
    /// the earlier primitive stays.
    pub fn intersect<H, I>(&self, hit_fn: H, isect_fn: I) -> (r: Option<ShapeIntersection>) where
        H: Fn(&B) -> bool,
        I: Fn(usize) -> Option<u32>,

        requires
            forall|b: &B| call_requires(hit_fn, (b,)),
            forall|i: usize| i < self.bboxes().len() ==> call_requires(isect_fn, (i,)),
            box_test_is_function(hit_fn),
            prim_test_is_function(isect_fn),
        ensures
            r == self.closest(hit_fn, isect_fn),
    {
        let mut best = ShapeIntersection { t: HORIZON, shape_id: 0 };
        let ghost start = best;
        let mut idx: usize = 0;
        while idx < self.bboxes.len()
            invariant
                idx <= self.bboxes.len(),
                forall|b: &B| call_requires(hit_fn, (b,)),
                forall|i: usize| i < self.bboxes().len() ==> call_requires(isect_fn, (i,)),
                box_test_is_function(hit_fn),
                prim_test_is_function(isect_fn),
                best == scan(self.bboxes@, hit_fn, isect_fn, idx as int, start),
            decreases self.bboxes.len() - idx,
        {
            let hit = hit_fn(&self.bboxes[idx]);
            assert(hit == box_hit(hit_fn, self.bboxes@[idx as int]));
            if hit {
                let result = isect_fn(idx);
                assert(result == prim_hit(isect_fn, idx));
                best = closer(best, result, idx);
            }
            idx += 1;
        }
        if best.t < HORIZON {
            Some(best)
        } else {
            None
        }
    }
}

} // verus!
