use vstd::prelude::*;
use crate::voxel::mesher::{
    Face, exposed, face_at, face_in_chunk, faces_upto, lemma_face_numbers, shown,
    side_step, surface,
};
use crate::voxel::store::Voxels;

verus! {

/// Whether a side of a block of a chunk lies on the outside of the chunk.
pub open spec fn on_shell(f: Face) -> bool {
    ||| f.side == 0 && f.x == 31
    ||| f.side == 1 && f.y == 31
    ||| f.side == 2 && f.z == 31
    ||| f.side == 3 && f.x == 0
    ||| f.side == 4 && f.y == 0
    ||| f.side == 5 && f.z == 0
}

/// The chunk at `(cx, cy, cz)` is drawn through and through, and nothing
/// around it is drawn: every block of the chunk is drawn, and no block one
/// step outside it.
pub open spec fn solid_alone(voxels: &Voxels, cx: int, cy: int, cz: int) -> bool {
    forall|x: int, y: int, z: int|
        -1 <= x <= 32 && -1 <= y <= 32 && -1 <= z <= 32 ==> #[trigger] shown(
            voxels,
            voxels.block(32 * cx + x, 32 * cy + y, 32 * cz + z),
        ) == (0 <= x < 32 && 0 <= y < 32 && 0 <= z < 32)
}

/// The number of sides on the outside of a chunk among the first `n` in
/// visiting order.
pub open spec fn shell_faces(n: nat) -> nat
    decreases n,
{
    if n == 0 {
        0
    } else {
        shell_faces((n - 1) as nat) + if on_shell(face_at(n - 1)) {
            1nat
        } else {
            0nat
        }
    }
}

/// `k` for a coordinate at either end of a chunk, nothing for one between.
pub open spec fn at_end(c: int, k: int) -> int {
    if c == 0 || c == 31 {
        k
    } else {
        0
    }
}

/// How many of the two ends of a chunk lie before coordinate `c`.
pub open spec fn ends_before(c: int) -> int {
    (if c > 0 { 1int } else { 0int }) + (if c > 31 { 1int } else { 0int })
}

/// The number of sides on the outside of a chunk that belong to the blocks
/// before `(x, y, z)` in array order.
pub open spec fn shell_before(x: int, y: int, z: int) -> int {
    128 * x + 1024 * ends_before(x) + 32 * (at_end(x, y) + ends_before(y)) + 2 * y + at_end(x, z)
        + at_end(y, z) + ends_before(z)
}

/// The sides of one block that lie on the outside of the chunk: one for
/// each axis along which the block stands at an end.
proof fn lemma_shell_cell(x: int, y: int, z: int)
    requires
        0 <= x < 32,
        0 <= y < 32,
        0 <= z < 32,
    ensures
        shell_faces((6 * (x * 1024 + y * 32 + z) + 6) as nat) == shell_faces(
            (6 * (x * 1024 + y * 32 + z)) as nat,
        ) + at_end(x, 1) + at_end(y, 1) + at_end(z, 1),
{
    let start = 6 * (x * 1024 + y * 32 + z);
    lemma_face_numbers(Face { x, y, z, side: 0 }, 0);
    lemma_face_numbers(Face { x, y, z, side: 1 }, 0);
    lemma_face_numbers(Face { x, y, z, side: 2 }, 0);
    lemma_face_numbers(Face { x, y, z, side: 3 }, 0);
    lemma_face_numbers(Face { x, y, z, side: 4 }, 0);
    lemma_face_numbers(Face { x, y, z, side: 5 }, 0);
    assert(face_at(start) == (Face { x, y, z, side: 0 }));
    assert(face_at(start + 1) == (Face { x, y, z, side: 1 }));
    assert(face_at(start + 2) == (Face { x, y, z, side: 2 }));
    assert(face_at(start + 3) == (Face { x, y, z, side: 3 }));
    assert(face_at(start + 4) == (Face { x, y, z, side: 4 }));
    assert(face_at(start + 5) == (Face { x, y, z, side: 5 }));
    assert(shell_faces((start + 1) as nat) == shell_faces(start as nat) + if x == 31 { 1nat } else { 0nat });
    assert(shell_faces((start + 2) as nat) == shell_faces((start + 1) as nat) + if y == 31 { 1nat } else { 0nat });
    assert(shell_faces((start + 3) as nat) == shell_faces((start + 2) as nat) + if z == 31 { 1nat } else { 0nat });
    assert(shell_faces((start + 4) as nat) == shell_faces((start + 3) as nat) + if x == 0 { 1nat } else { 0nat });
    assert(shell_faces((start + 5) as nat) == shell_faces((start + 4) as nat) + if y == 0 { 1nat } else { 0nat });
    assert(shell_faces((start + 6) as nat) == shell_faces((start + 5) as nat) + if z == 0 { 1nat } else { 0nat });
}

/// The sides on the outside of a chunk among those of its first `i` blocks.
proof fn lemma_shell_prefix(i: nat)
    requires
        i <= 32768,
    ensures
        shell_faces(6 * i) == shell_before(i as int / 1024, (i as int / 32) % 32, i as int % 32),
    decreases i,
{
    if i > 0 {
        let j = (i - 1) as int;
        let (x, y, z) = (j / 1024, (j / 32) % 32, j % 32);
        lemma_shell_prefix((i - 1) as nat);
        assert(j == x * 1024 + y * 32 + z);
        lemma_shell_cell(x, y, z);
        assert(6 * i == 6 * (x * 1024 + y * 32 + z) + 6);
        if z < 31 {
            assert(i as int / 1024 == x && (i as int / 32) % 32 == y && i as int % 32 == z + 1);
        } else if y < 31 {
            assert(i as int / 1024 == x && (i as int / 32) % 32 == y + 1 && i as int % 32 == 0);
        } else {
            assert(i as int / 1024 == x + 1 && (i as int / 32) % 32 == 0 && i as int % 32 == 0);
        }
    }
}

/// Where the sides on the outside of the chunk are the exposed ones, the
/// faces among the first `n` sides are as many as the sides on the outside.
proof fn lemma_faces_follow_shell(voxels: &Voxels, cx: int, cy: int, cz: int, n: nat)
    requires
        n <= 196608,
        forall|f: Face| face_in_chunk(f) ==> #[trigger] exposed(voxels, cx, cy, cz, f) == on_shell(f),
    ensures
        faces_upto(voxels, cx, cy, cz, n).len() == shell_faces(n),
    decreases n,
{
    if n > 0 {
        lemma_faces_follow_shell(voxels, cx, cy, cz, (n - 1) as nat);
        lemma_face_numbers(face_at(n - 1), n - 1);
        assert(exposed(voxels, cx, cy, cz, face_at(n - 1)) == on_shell(face_at(n - 1)));
    }
}

/// A chunk that is drawn through and through, with nothing drawn around it,
/// has its six outer sides for a surface and nothing inside: six times
/// thirty-two squared faces.
pub proof fn lemma_solid_chunk_alone(voxels: &Voxels, cx: int, cy: int, cz: int)
    requires
        solid_alone(voxels, cx, cy, cz),
    ensures
        surface(voxels, cx, cy, cz).len() == 6 * 32 * 32,
        forall|f: Face|
            surface(voxels, cx, cy, cz).contains(f) <==> face_in_chunk(f) && on_shell(f),
{
    assert forall|f: Face| face_in_chunk(f) implies #[trigger] exposed(voxels, cx, cy, cz, f)
        == on_shell(f) by {
        let (dx, dy, dz) = side_step(f.side);
        assert(shown(voxels, voxels.block(32 * cx + f.x, 32 * cy + f.y, 32 * cz + f.z)) == (0 <= f.x
            < 32 && 0 <= f.y < 32 && 0 <= f.z < 32));
        assert(shown(
            voxels,
            voxels.block(32 * cx + (f.x + dx), 32 * cy + (f.y + dy), 32 * cz + (f.z + dz)),
        ) == (0 <= f.x + dx < 32 && 0 <= f.y + dy < 32 && 0 <= f.z + dz < 32));
    }
    lemma_faces_follow_shell(voxels, cx, cy, cz, 196608);
    lemma_shell_prefix(32768);
    assert forall|f: Face|
        surface(voxels, cx, cy, cz).contains(f) <==> face_in_chunk(f) && on_shell(f) by {
        crate::voxel::mesher::lemma_surface_is_exposed(voxels, cx, cy, cz, f);
        if face_in_chunk(f) {
            assert(exposed(voxels, cx, cy, cz, f) == on_shell(f));
        }
    }
}

} // verus!
