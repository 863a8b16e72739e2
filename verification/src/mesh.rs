//! Assemble indexed mesh data into the world's triangles.
//!
//! Parsing a model file and decoding its numbers is outside work; what
//! arrives here is plain fixed-point data, and everything built from it
//! is pinned by the contract.

use vstd::prelude::*;

verus! {

use crate::vec3::{Vec3, Point3, vec_bounded};
use crate::triangle::{Triangle, tri_wf, tri_normal_spec, uv_wf, TRI_LIMIT};
use crate::primitive::Primitive;
use crate::world::{World, world_wf};

/// Well-formed mesh data: bounded vertices, unit-square texture
/// coordinates, triples of in-bounds indices.
pub open spec fn mesh_wf(positions: Seq<Vec3>, uvs: Seq<(i64, i64)>, indices: Seq<usize>) -> bool {
    &&& forall|i: int| 0 <= i < positions.len() ==> vec_bounded(
        #[trigger] positions[i],
        TRI_LIMIT as int,
    )
    &&& forall|i: int| 0 <= i < uvs.len() ==> uv_wf(#[trigger] uvs[i])
    &&& forall|i: int| 0 <= i < indices.len() ==> (#[trigger] indices[i]) < positions.len()
    &&& indices.len() % 3 == 0
}

/// The texture coordinate for a vertex index, defaulting to the corner.
pub open spec fn uv_at(uvs: Seq<(i64, i64)>, i: int) -> (i64, i64) {
    if 0 <= i < uvs.len() {
        uvs[i]
    } else {
        (0i64, 0i64)
    }
}

/// The triangle the `k`-th index triple describes.
pub open spec fn mesh_tri_spec(
    positions: Seq<Vec3>,
    uvs: Seq<(i64, i64)>,
    indices: Seq<usize>,
    mat: usize,
    k: int,
) -> Triangle {
    let i0 = indices[3 * k] as int;
    let i1 = indices[3 * k + 1] as int;
    let i2 = indices[3 * k + 2] as int;
    Triangle {
        p0: positions[i0],
        p1: positions[i1],
        p2: positions[i2],
        uv0: uv_at(uvs, i0),
        uv1: uv_at(uvs, i1),
        uv2: uv_at(uvs, i2),
        normal: tri_normal_spec(positions[i0], positions[i1], positions[i2]),
        mat,
    }
}

/// Add every index triple of a mesh to the world as a triangle.
pub fn add_mesh(
    world: &mut World,
    positions: &Vec<Vec3>,
    uvs: &Vec<(i64, i64)>,
    indices: &Vec<usize>,
    mat: usize,
)
    requires
        world_wf(*old(world)),
        mesh_wf(positions@, uvs@, indices@),
    ensures
        world_wf(*final(world)),
        final(world).lights@ == old(world).lights@,
        final(world).materials@ == old(world).materials@,
        final(world).primitives@.len() == old(world).primitives@.len() + indices@.len() / 3,
        forall|k: int| 0 <= k < indices@.len() / 3 ==> final(world).primitives@[old(
            world,
        ).primitives@.len() + k] == Primitive::Triangle(
            #[trigger] mesh_tri_spec(positions@, uvs@, indices@, mat, k),
        ),
        forall|k: int| 0 <= k < old(world).primitives@.len()
            ==> final(world).primitives@[k] == #[trigger] old(world).primitives@[k],
{
    let base: usize = world.primitives.len();
    let triples: usize = indices.len() / 3;
    let mut k: usize = 0;
    while k < triples
        invariant
            world_wf(*world),
            mesh_wf(positions@, uvs@, indices@),
            triples == indices@.len() / 3,
            indices@.len() <= usize::MAX,
            base == old(world).primitives@.len(),
            k <= triples,
            world.lights@ == old(world).lights@,
            world.materials@ == old(world).materials@,
            world.primitives@.len() == base + k,
            forall|j: int| 0 <= j < k ==> world.primitives@[base + j] == Primitive::Triangle(
                #[trigger] mesh_tri_spec(positions@, uvs@, indices@, mat, j),
            ),
            forall|j: int| 0 <= j < base ==> world.primitives@[j] == #[trigger] old(
                world,
            ).primitives@[j],
        decreases triples - k,
    {
        proof {
            assert(3 * (k as int) + 2 < indices@.len()) by (nonlinear_arith)
                requires
                    k < triples,
                    triples == indices@.len() / 3,
                    indices@.len() % 3 == 0,
            ;
        }
        let at: usize = 3 * k;
        let i0: usize = indices[at];
        let i1: usize = indices[at + 1];
        let i2: usize = indices[at + 2];
        let uv0 = uv_lookup(uvs, i0);
        let uv1 = uv_lookup(uvs, i1);
        let uv2 = uv_lookup(uvs, i2);
        let tri = Triangle::new(positions[i0], positions[i1], positions[i2], uv0, uv1, uv2, mat);
        world.add_hittable(Primitive::Triangle(tri));
        proof {
            assert(at as int == 3 * (k as int));
            assert(world.primitives@[base + k as int] == Primitive::Triangle(
                mesh_tri_spec(positions@, uvs@, indices@, mat, k as int),
            ));
        }
        k += 1;
    }
}

/// The texture coordinate for a vertex index, defaulting to the corner.
fn uv_lookup(uvs: &Vec<(i64, i64)>, i: usize) -> (r: (i64, i64))
    requires
        forall|j: int| 0 <= j < uvs@.len() ==> uv_wf(#[trigger] uvs@[j]),
    ensures
        r == uv_at(uvs@, i as int),
        uv_wf(r),
{
    if i < uvs.len() {
        uvs[i]
    } else {
        (0, 0)
    }
}

/// The componentwise bounds of a vertex list.
pub open spec fn mesh_min_spec(positions: Seq<Vec3>, n: int) -> Vec3
    decreases n,
{
    if n <= 1 {
        positions[0]
    } else {
        let prev = mesh_min_spec(positions, n - 1);
        let p = positions[n - 1];
        Vec3 {
            x: if p.x <= prev.x { p.x } else { prev.x },
            y: if p.y <= prev.y { p.y } else { prev.y },
            z: if p.z <= prev.z { p.z } else { prev.z },
        }
    }
}

/// The componentwise upper bounds of a vertex list.
pub open spec fn mesh_max_spec(positions: Seq<Vec3>, n: int) -> Vec3
    decreases n,
{
    if n <= 1 {
        positions[0]
    } else {
        let prev = mesh_max_spec(positions, n - 1);
        let p = positions[n - 1];
        Vec3 {
            x: if p.x >= prev.x { p.x } else { prev.x },
            y: if p.y >= prev.y { p.y } else { prev.y },
            z: if p.z >= prev.z { p.z } else { prev.z },
        }
    }
}

/// The componentwise bounds of a non-empty vertex list.
pub fn mesh_bounds(positions: &Vec<Vec3>) -> (r: (Point3, Point3))
    requires
        positions@.len() >= 1,
    ensures
        r.0 == mesh_min_spec(positions@, positions@.len() as int),
        r.1 == mesh_max_spec(positions@, positions@.len() as int),
{
    let mut min: Point3 = positions[0];
    let mut max: Point3 = positions[0];
    let mut i: usize = 1;
    while i < positions.len()
        invariant
            1 <= i <= positions@.len(),
            min == mesh_min_spec(positions@, i as int),
            max == mesh_max_spec(positions@, i as int),
        decreases positions@.len() - i,
    {
        let p = positions[i];
        min = Vec3 {
            x: if p.x <= min.x { p.x } else { min.x },
            y: if p.y <= min.y { p.y } else { min.y },
            z: if p.z <= min.z { p.z } else { min.z },
        };
        max = Vec3 {
            x: if p.x >= max.x { p.x } else { max.x },
            y: if p.y >= max.y { p.y } else { max.y },
            z: if p.z >= max.z { p.z } else { max.z },
        };
        i += 1;
    }
    (min, max)
}

} // verus!
