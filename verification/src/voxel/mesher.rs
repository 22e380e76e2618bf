use vstd::prelude::*;
use crate::voxel::{VoxelId, CHUNK_SIZE_I32};
use bevy::ecs::entity::Entity;
use crate::voxel::components::ConstructChunkMesh;
use crate::voxel::store::Voxels;

verus! {

/// A point of the block grid of one chunk, in blocks from the chunk's origin.
#[derive(Copy, Clone, Debug, PartialEq, Eq, Structural)]
pub struct GridPoint {
    pub x: i32,
    pub y: i32,
    pub z: i32,
}

/// The surface of one chunk as a triangle list: four vertices and four
/// normals a face, six indices a face. Positions are in blocks.
pub struct ChunkMesh {
    pub vertices: Vec<GridPoint>,
    pub normals: Vec<GridPoint>,
    pub indices: Vec<u32>,
}

/// One side of one block of a chunk: the block's place in the chunk, and
/// which of its six sides.
pub ghost struct Face {
    pub x: int,
    pub y: int,
    pub z: int,
    pub side: int,
}

/// The step from a block to its neighbour across a side: `+x`, `+y`, `+z`,
/// `-x`, `-y`, `-z`, in this order.
pub open spec fn side_step(side: int) -> (int, int, int) {
    if side == 0 {
        (1, 0, 0)
    } else if side == 1 {
        (0, 1, 0)
    } else if side == 2 {
        (0, 0, 1)
    } else if side == 3 {
        (-1, 0, 0)
    } else if side == 4 {
        (0, -1, 0)
    } else {
        (0, 0, -1)
    }
}

/// Corner `j` of a side of the unit cube. The four corners of a side run
/// counter-clockwise for one who looks at it from outside.
pub open spec fn side_corner(side: int, j: int) -> (int, int, int) {
    if side == 0 {
        if j == 0 { (1, 0, 0) } else if j == 1 { (1, 1, 0) } else if j == 2 { (1, 1, 1) } else { (1, 0, 1) }
    } else if side == 1 {
        if j == 0 { (0, 1, 0) } else if j == 1 { (0, 1, 1) } else if j == 2 { (1, 1, 1) } else { (1, 1, 0) }
    } else if side == 2 {
        if j == 0 { (0, 0, 1) } else if j == 1 { (1, 0, 1) } else if j == 2 { (1, 1, 1) } else { (0, 1, 1) }
    } else if side == 3 {
        if j == 0 { (0, 0, 0) } else if j == 1 { (0, 0, 1) } else if j == 2 { (0, 1, 1) } else { (0, 1, 0) }
    } else if side == 4 {
        if j == 0 { (0, 0, 0) } else if j == 1 { (1, 0, 0) } else if j == 2 { (1, 0, 1) } else { (0, 0, 1) }
    } else {
        if j == 0 { (0, 0, 0) } else if j == 1 { (0, 1, 0) } else if j == 2 { (1, 1, 0) } else { (1, 0, 0) }
    }
}

/// Which corner of its side index `j` of a face's six names: two triangles,
/// `0 1 2` and `0 2 3`.
pub open spec fn quad_corner(j: int) -> int {
    if j == 0 { 0 } else if j == 1 { 1 } else if j == 2 { 2 } else if j == 3 { 0 } else if j == 4 { 2 } else { 3 }
}

/// Whether blocks of this type are drawn.
pub open spec fn shown(voxels: &Voxels, id: VoxelId) -> bool {
    voxels.registered(id) && voxels.configs()[id.index() as int].render
}

/// The `n`-th side of a chunk in the order the mesher visits them: blocks in
/// array order, the six sides of each in the order of `side_step`.
pub open spec fn face_at(n: int) -> Face {
    let i = n / 6;
    Face { x: i / 1024, y: (i / 32) % 32, z: i % 32, side: n % 6 }
}

/// Whether a side is part of the surface: its block is drawn and the
/// neighbour across it, in this chunk or the next, is not.
pub open spec fn exposed(voxels: &Voxels, cx: int, cy: int, cz: int, f: Face) -> bool {
    let (dx, dy, dz) = side_step(f.side);
    &&& shown(voxels, voxels.block(32 * cx + f.x, 32 * cy + f.y, 32 * cz + f.z))
    &&& !shown(voxels, voxels.block(32 * cx + f.x + dx, 32 * cy + f.y + dy, 32 * cz + f.z + dz))
}

/// The exposed sides among the first `n` of the chunk at `(cx, cy, cz)`, in
/// visiting order.
pub open spec fn faces_upto(voxels: &Voxels, cx: int, cy: int, cz: int, n: nat) -> Seq<Face>
    decreases n,
{
    if n == 0 {
        Seq::empty()
    } else {
        let before = faces_upto(voxels, cx, cy, cz, (n - 1) as nat);
        if exposed(voxels, cx, cy, cz, face_at(n - 1)) {
            before.push(face_at(n - 1))
        } else {
            before
        }
    }
}

/// The surface of the chunk at `(cx, cy, cz)`: all its exposed sides.
pub open spec fn surface(voxels: &Voxels, cx: int, cy: int, cz: int) -> Seq<Face> {
    faces_upto(voxels, cx, cy, cz, 196608)
}

/// The exposed sides of the chunk at `(cx, cy, cz)`: the pairs of a block of
/// the chunk and one of its six sides such that the block is drawn and the
/// neighbour across the side is not.
pub open spec fn exposed_sides(voxels: &Voxels, cx: int, cy: int, cz: int) -> Set<Face> {
    Set::new(|f: Face| face_in_chunk(f) && exposed(voxels, cx, cy, cz, f))
}

/// Whether a face names a side of a block of a chunk.
pub open spec fn face_in_chunk(f: Face) -> bool {
    0 <= f.x < 32 && 0 <= f.y < 32 && 0 <= f.z < 32 && 0 <= f.side < 6
}

/// The vertex buffer of a list of faces: the four corners of each.
pub open spec fn mesh_vertices(faces: Seq<Face>) -> Seq<GridPoint> {
    Seq::new(
        4 * faces.len(),
        |i: int|
            {
                let f = faces[i / 4];
                let c = side_corner(f.side, i % 4);
                GridPoint { x: (f.x + c.0) as i32, y: (f.y + c.1) as i32, z: (f.z + c.2) as i32 }
            },
    )
}

/// The normal buffer of a list of faces: for each corner the step across
/// its side.
pub open spec fn mesh_normals(faces: Seq<Face>) -> Seq<GridPoint> {
    Seq::new(
        4 * faces.len(),
        |i: int|
            {
                let n = side_step(faces[i / 4].side);
                GridPoint { x: n.0 as i32, y: n.1 as i32, z: n.2 as i32 }
            },
    )
}

/// The index buffer of a list of faces: two triangles over the four
/// vertices of each.
pub open spec fn mesh_indices(faces: Seq<Face>) -> Seq<u32> {
    Seq::new(6 * faces.len(), |i: int| (4 * (i / 6) + quad_corner(i % 6)) as u32)
}

/// The chunk at `(cx, cy, cz)` can be meshed: every block of it and of the
/// six chunks around it has an entry in the registry.
#[verifier::opaque]
pub open spec fn meshable(voxels: &Voxels, cx: i32, cy: i32, cz: i32) -> bool {
    &&& voxels.chunk_registered((cx, cy, cz))
    &&& voxels.chunk_registered(((cx + 1) as i32, cy, cz))
    &&& voxels.chunk_registered(((cx - 1) as i32, cy, cz))
    &&& voxels.chunk_registered((cx, (cy + 1) as i32, cz))
    &&& voxels.chunk_registered((cx, (cy - 1) as i32, cz))
    &&& voxels.chunk_registered((cx, cy, (cz + 1) as i32))
    &&& voxels.chunk_registered((cx, cy, (cz - 1) as i32))
}

/// Chunk coordinates whose blocks, and the blocks one step around them, have
/// world coordinates that fit the machine's integers.
pub open spec fn chunk_in_reach(c: i32) -> bool {
    -67108864 < c < 67108863
}

} // verus!

verus! {

/// Whether blocks of this type are drawn.
fn renders(voxels: &Voxels, id: VoxelId) -> (drawn: bool)
    requires
        voxels.registered(id),
    ensures
        drawn == shown(voxels, id),
{
    id.config(voxels).render
}

/// The step from a block to its neighbour across a side.
fn side_offset(side: usize) -> (step: (i32, i32, i32))
    requires
        side < 6,
    ensures
        (step.0 as int, step.1 as int, step.2 as int) == side_step(side as int),
{
    if side == 0 {
        (1, 0, 0)
    } else if side == 1 {
        (0, 1, 0)
    } else if side == 2 {
        (0, 0, 1)
    } else if side == 3 {
        (-1, 0, 0)
    } else if side == 4 {
        (0, -1, 0)
    } else {
        (0, 0, -1)
    }
}

/// The four corners of a side of the unit cube, counter-clockwise from
/// outside.
fn side_corners(side: usize) -> (corners: [(i32, i32, i32); 4])
    requires
        side < 6,
    ensures
        forall|j: int|
            0 <= j < 4 ==> (corners@[j].0 as int, corners@[j].1 as int, corners@[j].2 as int)
                == #[trigger] side_corner(side as int, j),
{
    if side == 0 {
        [(1, 0, 0), (1, 1, 0), (1, 1, 1), (1, 0, 1)]
    } else if side == 1 {
        [(0, 1, 0), (0, 1, 1), (1, 1, 1), (1, 1, 0)]
    } else if side == 2 {
        [(0, 0, 1), (1, 0, 1), (1, 1, 1), (0, 1, 1)]
    } else if side == 3 {
        [(0, 0, 0), (0, 0, 1), (0, 1, 1), (0, 1, 0)]
    } else if side == 4 {
        [(0, 0, 0), (1, 0, 0), (1, 0, 1), (0, 0, 1)]
    } else {
        [(0, 0, 0), (0, 1, 0), (1, 1, 0), (1, 0, 0)]
    }
}

impl ChunkMesh {
    /// The buffers are those of `faces`.
    pub open spec fn holds(&self, faces: Seq<Face>) -> bool {
        &&& self.vertices@ == mesh_vertices(faces)
        &&& self.normals@ == mesh_normals(faces)
        &&& self.indices@ == mesh_indices(faces)
    }

    /// The number of faces in the mesh.
    pub fn face_count(&self) -> (n: usize)
        ensures
            n == self.vertices@.len() / 4,
    {
        self.vertices.len() / 4
    }
}

/// Adds one face to the buffers.
fn emit_face(mesh: &mut ChunkMesh, x: i32, y: i32, z: i32, side: usize, Ghost(faces): Ghost<Seq<Face>>)
    requires
        0 <= x < 32,
        0 <= y < 32,
        0 <= z < 32,
        side < 6,
        faces.len() < 196608,
        old(mesh).holds(faces),
    ensures
        final(mesh).holds(faces.push(Face { x: x as int, y: y as int, z: z as int, side: side as int })),
{
    let ghost face = Face { x: x as int, y: y as int, z: z as int, side: side as int };
    let ghost more = faces.push(face);
    let base = mesh.vertices.len() as u32;
    mesh.indices.push(base);
    mesh.indices.push(base + 1);
    mesh.indices.push(base + 2);
    mesh.indices.push(base);
    mesh.indices.push(base + 2);
    mesh.indices.push(base + 3);
    assert(mesh.indices@ =~= mesh_indices(more));
    let step = side_offset(side);
    let normal = GridPoint { x: step.0, y: step.1, z: step.2 };
    mesh.normals.push(normal);
    mesh.normals.push(normal);
    mesh.normals.push(normal);
    mesh.normals.push(normal);
    assert(mesh.normals@ =~= mesh_normals(more)) by {
        assert forall|i: int| 0 <= i < 4 * more.len() implies mesh.normals@[i] == mesh_normals(
            more,
        )[i] by {
            if i < 4 * faces.len() {
                assert(more[i / 4] == faces[i / 4]);
            } else {
                assert(i / 4 == faces.len());
            }
        }
    }
    let corners = side_corners(side);
    let mut j: usize = 0;
    while j < 4
        invariant
            0 <= j <= 4,
            0 <= x < 32,
            0 <= y < 32,
            0 <= z < 32,
            side < 6,
            more == faces.push(face),
            face == (Face { x: x as int, y: y as int, z: z as int, side: side as int }),
            forall|k: int|
                0 <= k < 4 ==> (corners@[k].0 as int, corners@[k].1 as int, corners@[k].2 as int)
                    == #[trigger] side_corner(side as int, k),
            mesh.vertices@.len() == 4 * faces.len() + j,
            forall|i: int|
                0 <= i < 4 * faces.len() + j ==> mesh.vertices@[i] == #[trigger] mesh_vertices(
                    more,
                )[i],
            mesh.normals@ == mesh_normals(more),
            mesh.indices@ == mesh_indices(more),
        decreases 4 - j,
    {
        let c = corners[j];
        assert((c.0 as int, c.1 as int, c.2 as int) == side_corner(side as int, j as int));
        let ghost at = mesh.vertices@.len() as int;
        assert(at / 4 == faces.len() && at % 4 == j);
        mesh.vertices.push(GridPoint { x: x + c.0, y: y + c.1, z: z + c.2 });
        j = j + 1;
    }
    assert(mesh.vertices@ =~= mesh_vertices(more));
}

} // verus!

verus! {

/// No more sides are exposed than were visited.
pub proof fn lemma_faces_upto_len(voxels: &Voxels, cx: int, cy: int, cz: int, n: nat)
    ensures
        faces_upto(voxels, cx, cy, cz, n).len() <= n,
    decreases n,
{
    if n > 0 {
        lemma_faces_upto_len(voxels, cx, cy, cz, (n - 1) as nat);
    }
}

/// In a meshable chunk within reach, every block of the chunk and every
/// neighbour across a side has an entry in the registry.
proof fn lemma_reach_registered(
    voxels: &Voxels,
    cx: i32,
    cy: i32,
    cz: i32,
    x: int,
    y: int,
    z: int,
    side: int,
)
    requires
        voxels.wf(),
        chunk_in_reach(cx),
        chunk_in_reach(cy),
        chunk_in_reach(cz),
        meshable(voxels, cx, cy, cz),
        0 <= x < 32,
        0 <= y < 32,
        0 <= z < 32,
        0 <= side < 6,
    ensures
        voxels.registered(voxels.block(32 * cx + x, 32 * cy + y, 32 * cz + z)),
        voxels.registered(
            voxels.block(
                32 * cx + x + side_step(side).0,
                32 * cy + y + side_step(side).1,
                32 * cz + z + side_step(side).2,
            ),
        ),
{
    reveal(meshable);
    voxels.lemma_wf_bounds();
    VoxelId::lemma_air(VoxelId::air_spec());
    let (dx, dy, dz) = side_step(side);
    let here = Voxels::key_of(32 * cx + x, 32 * cy + y, 32 * cz + z);
    assert(here == (cx, cy, cz));
    if voxels.chunks().dom().contains(here) {
        let slot = Voxels::slot_of(32 * cx + x, 32 * cy + y, 32 * cz + z);
        assert(0 <= slot < 32768);
        assert(voxels.registered(voxels.chunks()[here]@[slot]));
    }
    let there = Voxels::key_of(32 * cx + x + dx, 32 * cy + y + dy, 32 * cz + z + dz);
    assert(voxels.chunk_registered(there));
    if voxels.chunks().dom().contains(there) {
        let slot = Voxels::slot_of(32 * cx + x + dx, 32 * cy + y + dy, 32 * cz + z + dz);
        assert(0 <= slot < 32768);
        assert(voxels.registered(voxels.chunks()[there]@[slot]));
    }
}

/// Visiting one more side adds it to the faces where it is exposed, and
/// leaves them as they were where it is not.
proof fn lemma_side_step(voxels: &Voxels, cx: int, cy: int, cz: int, x: int, y: int, z: int, side: int)
    requires
        0 <= x < 32,
        0 <= y < 32,
        0 <= z < 32,
        0 <= side < 6,
    ensures
        ({
            let n = 6 * (x * 1024 + y * 32 + z) + side;
            let face = Face { x, y, z, side };
            let before = faces_upto(voxels, cx, cy, cz, n as nat);
            &&& before.len() < 196608
            &&& faces_upto(voxels, cx, cy, cz, (n + 1) as nat) == if exposed(
                voxels,
                cx,
                cy,
                cz,
                face,
            ) {
                before.push(face)
            } else {
                before
            }
        }),
{
    let face = Face { x, y, z, side };
    let n = face_number(face);
    lemma_face_numbers(face, 0);
    lemma_faces_upto_len(voxels, cx, cy, cz, n as nat);
}

/// The sides of one block, visited in order.
fn mesh_cell(voxels: &Voxels, cx: i32, cy: i32, cz: i32, x: i32, y: i32, z: i32, mesh: &mut ChunkMesh)
    requires
        voxels.wf(),
        chunk_in_reach(cx),
        chunk_in_reach(cy),
        chunk_in_reach(cz),
        meshable(voxels, cx, cy, cz),
        0 <= x < 32,
        0 <= y < 32,
        0 <= z < 32,
        old(mesh).holds(
            faces_upto(
                voxels,
                cx as int,
                cy as int,
                cz as int,
                (6 * (x * 1024 + y * 32 + z)) as nat,
            ),
        ),
    ensures
        final(mesh).holds(
            faces_upto(
                voxels,
                cx as int,
                cy as int,
                cz as int,
                (6 * (x * 1024 + y * 32 + z) + 6) as nat,
            ),
        ),
{
    let ghost cell = x * 1024 + y * 32 + z;
    let ghost start = 6 * cell;
    let px = CHUNK_SIZE_I32 * cx + x;
    let py = CHUNK_SIZE_I32 * cy + y;
    let pz = CHUNK_SIZE_I32 * cz + z;
    proof {
        lemma_reach_registered(voxels, cx, cy, cz, x as int, y as int, z as int, 0);
    }
    let voxel = voxels.get_block(px, py, pz);
    let drawn = renders(voxels, voxel);
    let mut side: usize = 0;
    while side < 6
        invariant
            0 <= side <= 6,
            voxels.wf(),
            chunk_in_reach(cx),
            chunk_in_reach(cy),
            chunk_in_reach(cz),
            meshable(voxels, cx, cy, cz),
            0 <= x < 32,
            0 <= y < 32,
            0 <= z < 32,
            cell == x * 1024 + y * 32 + z,
            start == 6 * cell,
            px == 32 * cx + x,
            py == 32 * cy + y,
            pz == 32 * cz + z,
            drawn == shown(voxels, voxels.block(px as int, py as int, pz as int)),
            mesh.holds(faces_upto(voxels, cx as int, cy as int, cz as int, (start + side) as nat)),
        decreases 6 - side,
    {
        let ghost n = start + side;
        let ghost face = Face { x: x as int, y: y as int, z: z as int, side: side as int };
        proof {
            lemma_reach_registered(voxels, cx, cy, cz, x as int, y as int, z as int, side as int);
            lemma_side_step(voxels, cx as int, cy as int, cz as int, x as int, y as int, z as int,
                side as int);
        }
        if drawn {
            let step = side_offset(side);
            let neighbor = voxels.get_block(px + step.0, py + step.1, pz + step.2);
            if !renders(voxels, neighbor) {
                emit_face(
                    mesh,
                    x,
                    y,
                    z,
                    side,
                    Ghost(faces_upto(voxels, cx as int, cy as int, cz as int, n as nat)),
                );
            }
        }
        side = side + 1;
    }
}

/// Builds the surface of the chunk at `(chunk_x, chunk_y, chunk_z)`: one
/// face for every side of a drawn block whose neighbour across it, in this
/// chunk or the next, is not drawn. Sides between two drawn blocks are left
/// out. A chunk that is not resident reads as air and gives an empty mesh.
/// The mesh has four vertices and two triangles for each exposed side, and
/// nothing more.
pub fn construct_chunk(chunk_x: i32, chunk_y: i32, chunk_z: i32, voxels: &Voxels) -> (mesh: ChunkMesh)
    requires
        voxels.wf(),
        chunk_in_reach(chunk_x),
        chunk_in_reach(chunk_y),
        chunk_in_reach(chunk_z),
        meshable(voxels, chunk_x, chunk_y, chunk_z),
    ensures
        mesh.holds(surface(voxels, chunk_x as int, chunk_y as int, chunk_z as int)),
        mesh.vertices@.len() == 4 * exposed_sides(
            voxels,
            chunk_x as int,
            chunk_y as int,
            chunk_z as int,
        ).len(),
        mesh.normals@.len() == mesh.vertices@.len(),
        mesh.indices@.len() == 6 * exposed_sides(
            voxels,
            chunk_x as int,
            chunk_y as int,
            chunk_z as int,
        ).len(),
{
    let mut mesh = ChunkMesh { vertices: Vec::new(), normals: Vec::new(), indices: Vec::new() };
    assert(mesh.vertices@ =~= mesh_vertices(Seq::empty()));
    assert(mesh.normals@ =~= mesh_normals(Seq::empty()));
    assert(mesh.indices@ =~= mesh_indices(Seq::empty()));
    let mut x: i32 = 0;
    while x < CHUNK_SIZE_I32
        invariant
            0 <= x <= 32,
            voxels.wf(),
            chunk_in_reach(chunk_x),
            chunk_in_reach(chunk_y),
            chunk_in_reach(chunk_z),
            meshable(voxels, chunk_x, chunk_y, chunk_z),
            mesh.holds(
                faces_upto(
                    voxels,
                    chunk_x as int,
                    chunk_y as int,
                    chunk_z as int,
                    (6 * (x * 1024)) as nat,
                ),
            ),
        decreases 32 - x,
    {
        let mut y: i32 = 0;
        while y < CHUNK_SIZE_I32
            invariant
                0 <= x < 32,
                0 <= y <= 32,
                voxels.wf(),
                chunk_in_reach(chunk_x),
                chunk_in_reach(chunk_y),
                chunk_in_reach(chunk_z),
                meshable(voxels, chunk_x, chunk_y, chunk_z),
                mesh.holds(
                    faces_upto(
                        voxels,
                        chunk_x as int,
                        chunk_y as int,
                        chunk_z as int,
                        (6 * (x * 1024 + y * 32)) as nat,
                    ),
                ),
            decreases 32 - y,
        {
            let mut z: i32 = 0;
            while z < CHUNK_SIZE_I32
                invariant
                    0 <= x < 32,
                    0 <= y < 32,
                    0 <= z <= 32,
                    voxels.wf(),
                    chunk_in_reach(chunk_x),
                    chunk_in_reach(chunk_y),
                    chunk_in_reach(chunk_z),
                    meshable(voxels, chunk_x, chunk_y, chunk_z),
                    mesh.holds(
                        faces_upto(
                            voxels,
                            chunk_x as int,
                            chunk_y as int,
                            chunk_z as int,
                            (6 * (x * 1024 + y * 32 + z)) as nat,
                        ),
                    ),
                decreases 32 - z,
            {
                mesh_cell(voxels, chunk_x, chunk_y, chunk_z, x, y, z, &mut mesh);
                z = z + 1;
            }
            y = y + 1;
        }
        x = x + 1;
    }
    proof {
        lemma_surface_counts_exposed(voxels, chunk_x as int, chunk_y as int, chunk_z as int);
    }
    mesh
}

} // verus!

verus! {

/// The scene entity that the surface asked for is to be attached to; `None`
/// where the chunk is not resident, and the request is to be dropped.
pub fn mesh_target(voxels: &Voxels, request: &ConstructChunkMesh) -> (entity: Option<Entity>)
    ensures
        entity == if voxels.resident(request.x, request.y, request.z) {
            Some(voxels.chunks()[(request.x, request.y, request.z)].spec_entity())
        } else {
            None
        },
{
    match voxels.get_chunk(request.x, request.y, request.z) {
        Some(chunk) => Some(chunk.entity()),
        None => None,
    }
}

} // verus!

verus! {

/// The place of a face in the order the mesher visits the sides.
pub open spec fn face_number(f: Face) -> int {
    6 * (f.x * 1024 + f.y * 32 + f.z) + f.side
}

/// Faces and their numbers stand for each other.
pub proof fn lemma_face_numbers(f: Face, n: int)
    ensures
        face_in_chunk(f) ==> 0 <= face_number(f) < 196608 && face_at(face_number(f)) == f,
        0 <= n < 196608 ==> face_in_chunk(face_at(n)) && face_number(face_at(n)) == n,
{
    if face_in_chunk(f) {
        let cell = f.x * 1024 + f.y * 32 + f.z;
        let k = 6 * cell + f.side;
        assert(k / 6 == cell && k % 6 == f.side);
        assert(cell / 1024 == f.x && (cell / 32) % 32 == f.y && cell % 32 == f.z);
    }
    if 0 <= n < 196608 {
        let i = n / 6;
        assert(0 <= i < 32768);
        assert(n == 6 * i + n % 6);
        assert(i == (i / 1024) * 1024 + ((i / 32) % 32) * 32 + i % 32);
    }
}

/// Among the first `n` sides, the faces are the exposed ones.
pub proof fn lemma_faces_upto_member(voxels: &Voxels, cx: int, cy: int, cz: int, n: nat, f: Face)
    requires
        n <= 196608,
    ensures
        faces_upto(voxels, cx, cy, cz, n).contains(f) <==> face_in_chunk(f) && face_number(f) < n
            && exposed(voxels, cx, cy, cz, f),
    decreases n,
{
    if n > 0 {
        let before = faces_upto(voxels, cx, cy, cz, (n - 1) as nat);
        let last = face_at(n - 1);
        lemma_faces_upto_member(voxels, cx, cy, cz, (n - 1) as nat, f);
        lemma_face_numbers(f, n - 1);
        if exposed(voxels, cx, cy, cz, last) {
            let now = before.push(last);
            assert(now[before.len() as int] == last);
            if now.contains(f) {
                let i = choose|i: int| 0 <= i < now.len() && now[i] == f;
                if i < before.len() {
                    assert(before[i] == f);
                }
            }
            if before.contains(f) {
                let i = choose|i: int| 0 <= i < before.len() && before[i] == f;
                assert(now[i] == f);
            }
        }
    }
}

/// Among the first `n` sides, no face stands twice.
pub proof fn lemma_faces_upto_distinct(voxels: &Voxels, cx: int, cy: int, cz: int, n: nat)
    requires
        n <= 196608,
    ensures
        faces_upto(voxels, cx, cy, cz, n).no_duplicates(),
    decreases n,
{
    if n > 0 {
        let before = faces_upto(voxels, cx, cy, cz, (n - 1) as nat);
        let last = face_at(n - 1);
        lemma_faces_upto_distinct(voxels, cx, cy, cz, (n - 1) as nat);
        lemma_faces_upto_member(voxels, cx, cy, cz, (n - 1) as nat, last);
        lemma_face_numbers(last, n - 1);
        if exposed(voxels, cx, cy, cz, last) {
            let now = before.push(last);
            assert forall|i: int, j: int| 0 <= i < now.len() && 0 <= j < now.len() && i
                != j implies now[i] != now[j] by {
                if i == before.len() {
                    assert(before[j] == now[j]);
                    assert(before.contains(now[j]));
                } else if j == before.len() {
                    assert(before[i] == now[i]);
                    assert(before.contains(now[i]));
                }
            }
        }
    }
}

/// Every exposed side has one face in the surface, and only one.
pub proof fn lemma_surface_is_distinct(voxels: &Voxels, cx: int, cy: int, cz: int)
    ensures
        surface(voxels, cx, cy, cz).no_duplicates(),
{
    lemma_faces_upto_distinct(voxels, cx, cy, cz, 196608);
}

/// The surface has as many faces as the chunk has exposed sides: as many as
/// there are pairs of a block of the chunk and a side of it such that the
/// block is drawn and the neighbour across the side is not.
pub proof fn lemma_surface_counts_exposed(voxels: &Voxels, cx: int, cy: int, cz: int)
    ensures
        surface(voxels, cx, cy, cz).to_set() == exposed_sides(voxels, cx, cy, cz),
        surface(voxels, cx, cy, cz).len() == exposed_sides(voxels, cx, cy, cz).len(),
        exposed_sides(voxels, cx, cy, cz).finite(),
{
    let faces = surface(voxels, cx, cy, cz);
    assert forall|f: Face| faces.to_set().contains(f) <==> exposed_sides(
        voxels,
        cx,
        cy,
        cz,
    ).contains(f) by {
        lemma_surface_is_exposed(voxels, cx, cy, cz, f);
    }
    assert(faces.to_set() =~= exposed_sides(voxels, cx, cy, cz));
    lemma_surface_is_distinct(voxels, cx, cy, cz);
    faces.unique_seq_to_set();
    vstd::seq_lib::seq_to_set_is_finite(faces);
}

/// The mesh has a face exactly for each exposed side: a side of a block of
/// the chunk is in the surface if and only if its block is drawn and the
/// neighbour across it is not.
pub proof fn lemma_surface_is_exposed(voxels: &Voxels, cx: int, cy: int, cz: int, f: Face)
    ensures
        surface(voxels, cx, cy, cz).contains(f) <==> face_in_chunk(f) && exposed(
            voxels,
            cx,
            cy,
            cz,
            f,
        ),
{
    lemma_faces_upto_member(voxels, cx, cy, cz, 196608, f);
    lemma_face_numbers(f, 0);
}

/// Two drawn blocks that touch have no face between them: the side of a
/// drawn block whose neighbour across it is drawn too is not in the surface.
pub proof fn lemma_shared_side_culled(voxels: &Voxels, cx: int, cy: int, cz: int, f: Face)
    requires
        shown(
            voxels,
            voxels.block(
                32 * cx + f.x + side_step(f.side).0,
                32 * cy + f.y + side_step(f.side).1,
                32 * cz + f.z + side_step(f.side).2,
            ),
        ),
    ensures
        !surface(voxels, cx, cy, cz).contains(f),
{
    lemma_surface_is_exposed(voxels, cx, cy, cz, f);
}

/// A drawn block with no drawn neighbour has all its six sides in the
/// surface.
pub proof fn lemma_lone_block_has_six_faces(
    voxels: &Voxels,
    cx: int,
    cy: int,
    cz: int,
    x: int,
    y: int,
    z: int,
)
    requires
        0 <= x < 32,
        0 <= y < 32,
        0 <= z < 32,
        shown(voxels, voxels.block(32 * cx + x, 32 * cy + y, 32 * cz + z)),
        !shown(voxels, voxels.block(32 * cx + x + 1, 32 * cy + y, 32 * cz + z)),
        !shown(voxels, voxels.block(32 * cx + x, 32 * cy + y + 1, 32 * cz + z)),
        !shown(voxels, voxels.block(32 * cx + x, 32 * cy + y, 32 * cz + z + 1)),
        !shown(voxels, voxels.block(32 * cx + x - 1, 32 * cy + y, 32 * cz + z)),
        !shown(voxels, voxels.block(32 * cx + x, 32 * cy + y - 1, 32 * cz + z)),
        !shown(voxels, voxels.block(32 * cx + x, 32 * cy + y, 32 * cz + z - 1)),
    ensures
        surface(voxels, cx, cy, cz).contains(Face { x, y, z, side: 0 }),
        surface(voxels, cx, cy, cz).contains(Face { x, y, z, side: 1 }),
        surface(voxels, cx, cy, cz).contains(Face { x, y, z, side: 2 }),
        surface(voxels, cx, cy, cz).contains(Face { x, y, z, side: 3 }),
        surface(voxels, cx, cy, cz).contains(Face { x, y, z, side: 4 }),
        surface(voxels, cx, cy, cz).contains(Face { x, y, z, side: 5 }),
{
    lemma_surface_is_exposed(voxels, cx, cy, cz, Face { x, y, z, side: 0 });
    lemma_surface_is_exposed(voxels, cx, cy, cz, Face { x, y, z, side: 1 });
    lemma_surface_is_exposed(voxels, cx, cy, cz, Face { x, y, z, side: 2 });
    lemma_surface_is_exposed(voxels, cx, cy, cz, Face { x, y, z, side: 3 });
    lemma_surface_is_exposed(voxels, cx, cy, cz, Face { x, y, z, side: 4 });
    lemma_surface_is_exposed(voxels, cx, cy, cz, Face { x, y, z, side: 5 });
}

} // verus!

verus! {

/// Whether the surface of the chunk at `(chunk_x, chunk_y, chunk_z)` can be
/// built: the chunk is within reach, and every block of it and of the six
/// chunks around it has an entry in the registry.
pub fn can_mesh(voxels: &Voxels, chunk_x: i32, chunk_y: i32, chunk_z: i32) -> (ok: bool)
    ensures
        ok == (chunk_in_reach(chunk_x) && chunk_in_reach(chunk_y) && chunk_in_reach(chunk_z)
            && meshable(voxels, chunk_x, chunk_y, chunk_z)),
{
    reveal(meshable);
    if !(-67108864 < chunk_x && chunk_x < 67108863 && -67108864 < chunk_y && chunk_y < 67108863
        && -67108864 < chunk_z && chunk_z < 67108863) {
        return false;
    }
    voxels.blocks_registered(chunk_x, chunk_y, chunk_z) && voxels.blocks_registered(
        chunk_x + 1,
        chunk_y,
        chunk_z,
    ) && voxels.blocks_registered(chunk_x - 1, chunk_y, chunk_z) && voxels.blocks_registered(
        chunk_x,
        chunk_y + 1,
        chunk_z,
    ) && voxels.blocks_registered(chunk_x, chunk_y - 1, chunk_z) && voxels.blocks_registered(
        chunk_x,
        chunk_y,
        chunk_z + 1,
    ) && voxels.blocks_registered(chunk_x, chunk_y, chunk_z - 1)
}

} // verus!

verus! {

/// The cross product of the two edges that leave corner `a` for `b` and `c`:
/// the direction a triangle `a b c` faces, for one who sees it run
/// counter-clockwise.
pub open spec fn facing(a: (int, int, int), b: (int, int, int), c: (int, int, int)) -> (
    int,
    int,
    int,
) {
    let u = (b.0 - a.0, b.1 - a.1, b.2 - a.2);
    let v = (c.0 - a.0, c.1 - a.1, c.2 - a.2);
    (u.1 * v.2 - u.2 * v.1, u.2 * v.0 - u.0 * v.2, u.0 * v.1 - u.1 * v.0)
}

/// Both triangles of a face look away from the block: each faces along the
/// step across its side, which is the normal the mesh gives its corners.
pub proof fn lemma_triangles_face_outward(side: int)
    requires
        0 <= side < 6,
    ensures
        facing(
            side_corner(side, quad_corner(0)),
            side_corner(side, quad_corner(1)),
            side_corner(side, quad_corner(2)),
        ) == side_step(side),
        facing(
            side_corner(side, quad_corner(3)),
            side_corner(side, quad_corner(4)),
            side_corner(side, quad_corner(5)),
        ) == side_step(side),
{
    if side == 0 {
        assert(facing(
            (1int, 0int, 0int),
            (1int, 1int, 0int),
            (1int, 1int, 1int),
        ) == (1int, 0int, 0int)) by (nonlinear_arith);
        assert(facing(
            (1int, 0int, 0int),
            (1int, 1int, 1int),
            (1int, 0int, 1int),
        ) == (1int, 0int, 0int)) by (nonlinear_arith);
    } else if side == 1 {
        assert(facing(
            (0int, 1int, 0int),
            (0int, 1int, 1int),
            (1int, 1int, 1int),
        ) == (0int, 1int, 0int)) by (nonlinear_arith);
        assert(facing(
            (0int, 1int, 0int),
            (1int, 1int, 1int),
            (1int, 1int, 0int),
        ) == (0int, 1int, 0int)) by (nonlinear_arith);
    } else if side == 2 {
        assert(facing(
            (0int, 0int, 1int),
            (1int, 0int, 1int),
            (1int, 1int, 1int),
        ) == (0int, 0int, 1int)) by (nonlinear_arith);
        assert(facing(
            (0int, 0int, 1int),
            (1int, 1int, 1int),
            (0int, 1int, 1int),
        ) == (0int, 0int, 1int)) by (nonlinear_arith);
    } else if side == 3 {
        assert(facing(
            (0int, 0int, 0int),
            (0int, 0int, 1int),
            (0int, 1int, 1int),
        ) == (-1int, 0int, 0int)) by (nonlinear_arith);
        assert(facing(
            (0int, 0int, 0int),
            (0int, 1int, 1int),
            (0int, 1int, 0int),
        ) == (-1int, 0int, 0int)) by (nonlinear_arith);
    } else if side == 4 {
        assert(facing(
            (0int, 0int, 0int),
            (1int, 0int, 0int),
            (1int, 0int, 1int),
        ) == (0int, -1int, 0int)) by (nonlinear_arith);
        assert(facing(
            (0int, 0int, 0int),
            (1int, 0int, 1int),
            (0int, 0int, 1int),
        ) == (0int, -1int, 0int)) by (nonlinear_arith);
    } else {
        assert(facing(
            (0int, 0int, 0int),
            (0int, 1int, 0int),
            (1int, 1int, 0int),
        ) == (0int, 0int, -1int)) by (nonlinear_arith);
        assert(facing(
            (0int, 0int, 0int),
            (1int, 1int, 0int),
            (1int, 0int, 0int),
        ) == (0int, 0int, -1int)) by (nonlinear_arith);
    }
}

} // verus!
