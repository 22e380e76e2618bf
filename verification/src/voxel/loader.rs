use vstd::prelude::*;
use bevy::ecs::system::Commands;
use crate::voxel::chunk::all_air;
use crate::voxel::components::{Chunk, ChunkLoader, GenerateChunk};
use crate::voxel::store::Voxels;

verus! {

/// An observer of the world: its reach, and the chunk it stands in.
#[derive(Copy, Clone, Debug, PartialEq, Eq, Structural)]
pub struct Observer {
    pub loader: ChunkLoader,
    pub chunk_x: i32,
    pub chunk_y: i32,
    pub chunk_z: i32,
}

/// Whether a chunk coordinate lies in an observer's box: within its reach
/// along each axis, the ends included.
pub open spec fn in_box(o: Observer, key: (i32, i32, i32)) -> bool {
    &&& o.chunk_x - o.loader.x_radius <= key.0 <= o.chunk_x + o.loader.x_radius
    &&& o.chunk_y - o.loader.y_radius <= key.1 <= o.chunk_y + o.loader.y_radius
    &&& o.chunk_z - o.loader.z_radius <= key.2 <= o.chunk_z + o.loader.z_radius
}

/// Whether the corners of an observer's box are chunk coordinates that the
/// machine's integers hold.
pub open spec fn box_fits(o: Observer) -> bool {
    &&& i32::MIN <= o.chunk_x - o.loader.x_radius && o.chunk_x + o.loader.x_radius <= i32::MAX
    &&& i32::MIN <= o.chunk_y - o.loader.y_radius && o.chunk_y + o.loader.y_radius <= i32::MAX
    &&& i32::MIN <= o.chunk_z - o.loader.z_radius && o.chunk_z + o.loader.z_radius <= i32::MAX
}

/// Whether a chunk coordinate lies in the box of one of the first `count`
/// observers.
pub open spec fn wanted_by(observers: Seq<Observer>, count: int, key: (i32, i32, i32)) -> bool {
    exists|i: int| 0 <= i < count && i < observers.len() && in_box(#[trigger] observers[i], key)
}

/// Whether a chunk coordinate lies in the box of any observer.
pub open spec fn wanted(observers: Seq<Observer>, key: (i32, i32, i32)) -> bool {
    wanted_by(observers, observers.len() as int, key)
}

/// What the eviction pass makes of a chunk's state: a chunk without the
/// tick's stamp is hidden; its stamp stays.
pub open spec fn evicted(state: Chunk, mark: bool) -> Chunk {
    if state.mark != mark {
        Chunk { loaded: false, mark: state.mark }
    } else {
        state
    }
}

/// Whether a list of requests asks for the chunk at `key`.
pub open spec fn asks_for(requests: Seq<GenerateChunk>, key: (i32, i32, i32)) -> bool {
    requests.contains(GenerateChunk { x: key.0, y: key.1, z: key.2 })
}

} // verus!

verus! {

/// What touching the chunk at `key` makes of the world `before`: the chunk
/// is resident, shown and stamped; its blocks are those it had, or air if it
/// is new; nothing else changes.
pub open spec fn after_touch(now: &Voxels, before: &Voxels, key: (i32, i32, i32)) -> bool {
    &&& now.same_registry(before)
    &&& now.same_chunks_but(before, key)
    &&& now.chunks().dom().contains(key)
    &&& now.chunks()[key]@ == if before.chunks().dom().contains(key) {
        before.chunks()[key]@
    } else {
        all_air()
    }
    &&& before.chunks().dom().contains(key) ==> now.chunks()[key].spec_entity()
        == before.chunks()[key].spec_entity()
    &&& now.chunks()[key].spec_state() == (Chunk { loaded: true, mark: before.mark() })
}

/// The requests are those of `before`, and one more for `key` where `asked`.
pub open spec fn requests_grown(
    now: Seq<GenerateChunk>,
    before: Seq<GenerateChunk>,
    key: (i32, i32, i32),
    asked: bool,
) -> bool {
    now == if asked {
        before.push(GenerateChunk { x: key.0, y: key.1, z: key.2 })
    } else {
        before
    }
}

/// Makes one chunk resident, shown and stamped, and asks for its generation
/// if it is new.
fn touch(
    voxels: &mut Voxels,
    commands: &mut Commands,
    x: i32,
    y: i32,
    z: i32,
    requests: &mut Vec<GenerateChunk>,
)
    ensures
        after_touch(final(voxels), old(voxels), (x, y, z)),
        requests_grown(final(requests)@, old(requests)@, (x, y, z), !old(voxels).resident(x, y, z)),
        old(voxels).resident(x, y, z) ==> *final(commands) == *old(commands),
        old(voxels).wf() ==> final(voxels).wf(),
{
    if voxels.add_chunk(commands, x, y, z) {
        requests.push(GenerateChunk::new(x, y, z));
    }
    let ghost added = *voxels;
    let mark = voxels.loaded_mark();
    match voxels.get_chunk_mut(x, y, z) {
        Some(chunk) => {
            chunk.set_state(Chunk { loaded: true, mark });
        },
        None => {},
    }
    proof {
        let key = (x, y, z);
        assert(voxels.chunks() =~= old(voxels).chunks().insert(key, voxels.chunks()[key]));
    }
}

} // verus!

verus! {

/// Whether `key` lies in an observer's box before the place `(x, y, z)` in
/// the order the sweep visits it: `x` slowest, `z` fastest.
pub open spec fn behind(o: Observer, x: int, y: int, z: int, key: (i32, i32, i32)) -> bool {
    in_box(o, key) && (key.0 < x || (key.0 == x && (key.1 < y || (key.1 == y && key.2 < z))))
}

/// Whether the sweep has touched `key` when it has done the boxes of the
/// observers in `past` and the part of `o`'s box before `(x, y, z)`.
pub open spec fn reached(
    past: Seq<Observer>,
    o: Observer,
    x: int,
    y: int,
    z: int,
    key: (i32, i32, i32),
) -> bool {
    wanted(past, key) || behind(o, x, y, z, key)
}

/// What a sweep that has touched `key`, or has not, makes of the chunk
/// there.
pub open spec fn key_swept(now: &Voxels, before: &Voxels, key: (i32, i32, i32), touched: bool)
    -> bool {
    &&& now.chunks().dom().contains(key) == (before.chunks().dom().contains(key) || touched)
    &&& now.chunks().dom().contains(key) ==> {
        &&& now.chunks()[key]@ == if before.chunks().dom().contains(key) {
            before.chunks()[key]@
        } else {
            all_air()
        }
        &&& before.chunks().dom().contains(key) ==> now.chunks()[key].spec_entity()
            == before.chunks()[key].spec_entity()
        &&& now.chunks()[key].spec_state() == if touched {
            Chunk { loaded: true, mark: before.mark() }
        } else {
            before.chunks()[key].spec_state()
        }
    }
}

/// The world `now` is `before` after a sweep that has done the boxes of the
/// observers in `past` and the part of `o`'s box before `(x, y, z)`.
pub open spec fn sweep_at(
    now: &Voxels,
    before: &Voxels,
    past: Seq<Observer>,
    o: Observer,
    x: int,
    y: int,
    z: int,
) -> bool {
    &&& now.same_registry(before)
    &&& forall|key: (i32, i32, i32)| #[trigger]
        key_swept(now, before, key, reached(past, o, x, y, z, key))
}

/// The requests ask once for each chunk that is resident now and was not
/// before, and for nothing else.
pub open spec fn requests_match(requests: Seq<GenerateChunk>, now: &Voxels, before: &Voxels)
    -> bool {
    &&& requests.no_duplicates()
    &&& forall|key: (i32, i32, i32)| #[trigger]
        asks_for(requests, key) <==> now.chunks().dom().contains(key)
            && !before.chunks().dom().contains(key)
}

/// One step of the sweep: touching the chunk at `(x, y, z)` moves the sweep
/// from before that place to after it.
proof fn lemma_sweep_step(
    next: &Voxels,
    now: &Voxels,
    before: &Voxels,
    past: Seq<Observer>,
    o: Observer,
    x: i32,
    y: i32,
    z: i32,
    asked: Seq<GenerateChunk>,
    requests: Seq<GenerateChunk>,
)
    requires
        in_box(o, (x, y, z)),
        sweep_at(now, before, past, o, x as int, y as int, z as int),
        after_touch(next, now, (x, y, z)),
        requests_match(requests, now, before),
        requests_grown(asked, requests, (x, y, z), !now.resident(x, y, z)),
    ensures
        sweep_at(next, before, past, o, x as int, y as int, z + 1),
        requests_match(asked, next, before),
{
    let here = (x, y, z);
    assert forall|key: (i32, i32, i32)| #[trigger]
        key_swept(
            next,
            before,
            key,
            reached(past, o, x as int, y as int, z + 1, key),
        ) by {
        assert(key_swept(
            now,
            before,
            key,
            reached(past, o, x as int, y as int, z as int, key),
        ));
        assert(next.chunks().dom().insert(here).contains(key) == now.chunks().dom().insert(
            here,
        ).contains(key));
        if key != here {
            assert(behind(o, x as int, y as int, z + 1, key) == behind(
                o,
                x as int,
                y as int,
                z as int,
                key,
            ));
        }
    }
    let fresh = GenerateChunk { x, y, z };
    assert forall|key: (i32, i32, i32)| #[trigger]
        asks_for(asked, key) <==> next.chunks().dom().contains(key)
            && !before.chunks().dom().contains(key) by {
        let want = GenerateChunk { x: key.0, y: key.1, z: key.2 };
        assert(asks_for(requests, key) <==> now.chunks().dom().contains(key)
            && !before.chunks().dom().contains(key));
        assert(key_swept(
            now,
            before,
            key,
            reached(past, o, x as int, y as int, z as int, key),
        ));
        assert(next.chunks().dom().insert(here).contains(key) == now.chunks().dom().insert(
            here,
        ).contains(key));
        if !now.resident(x, y, z) {
            assert(asked == requests.push(fresh));
            if asks_for(asked, key) {
                let i = choose|i: int| 0 <= i < asked.len() && asked[i] == want;
                if i < requests.len() {
                    assert(requests[i] == want);
                } else {
                    assert(key == here);
                }
            }
            if asks_for(requests, key) {
                let i = choose|i: int| 0 <= i < requests.len() && requests[i] == want;
                assert(asked[i] == want);
            }
            if key == here {
                assert(asked[requests.len() as int] == want);
            }
        }
    }
    if !now.resident(x, y, z) {
        assert(!asks_for(requests, here));
        assert forall|i: int, j: int|
            0 <= i < asked.len() && 0 <= j < asked.len() && i != j implies asked[i] != asked[j] by {
            if i == requests.len() && j < requests.len() {
                assert(requests[j] != fresh);
            }
            if j == requests.len() && i < requests.len() {
                assert(requests[i] != fresh);
            }
        }
    }
}

} // verus!

verus! {

/// The world `now` is `before` after a sweep over the boxes of `past`.
pub open spec fn sweep_done(now: &Voxels, before: &Voxels, past: Seq<Observer>) -> bool {
    &&& now.same_registry(before)
    &&& forall|key: (i32, i32, i32)| #[trigger] key_swept(now, before, key, wanted(past, key))
}

/// Two places of the sweep with the same chunks behind them are the same
/// state of the sweep.
proof fn lemma_sweep_shift(
    now: &Voxels,
    before: &Voxels,
    past: Seq<Observer>,
    o: Observer,
    x: int,
    y: int,
    z: int,
    u: int,
    v: int,
    w: int,
)
    requires
        sweep_at(now, before, past, o, x, y, z),
        forall|key: (i32, i32, i32)| in_box(o, key) ==> (behind(o, x, y, z, key) == behind(o, u, v, w, key)),
    ensures
        sweep_at(now, before, past, o, u, v, w),
{
    assert forall|key: (i32, i32, i32)| #[trigger]
        key_swept(now, before, key, reached(past, o, u, v, w, key)) by {
        assert(key_swept(now, before, key, reached(past, o, x, y, z, key)));
    }
}

/// A chunk is wanted by a list of observers with one more at its end where
/// it was wanted before or lies in the new one's box.
proof fn lemma_wanted_push(past: Seq<Observer>, o: Observer, key: (i32, i32, i32))
    ensures
        wanted(past.push(o), key) == (wanted(past, key) || in_box(o, key)),
{
    let more = past.push(o);
    if wanted(past, key) {
        let i = choose|i: int| 0 <= i < past.len() && in_box(#[trigger] past[i], key);
        assert(in_box(more[i], key));
    }
    if in_box(o, key) {
        assert(in_box(more[past.len() as int], key));
    }
    if wanted(more, key) {
        let i = choose|i: int| 0 <= i < more.len() && in_box(#[trigger] more[i], key);
        if i < past.len() {
            assert(in_box(past[i], key));
        }
    }
}

/// Whether the sweep of a box comes to the chunk at `a` before the chunk at
/// `b`: `x` counts slowest, `z` fastest.
pub open spec fn swept_first(a: (i32, i32, i32), b: (i32, i32, i32)) -> bool {
    a.0 < b.0 || (a.0 == b.0 && (a.1 < b.1 || (a.1 == b.1 && a.2 < b.2)))
}

/// Whether a tick for `observers` comes to the chunk at `a` before it first
/// comes to the chunk at `b`: the boxes are swept in the order of the
/// observers.
pub open spec fn touched_first(
    observers: Seq<Observer>,
    a: (i32, i32, i32),
    b: (i32, i32, i32),
) -> bool {
    exists|i: int|
        0 <= i < observers.len() && #[trigger] in_box(observers[i], a) && !wanted_by(
            observers,
            i,
            b,
        ) && (in_box(observers[i], b) ==> swept_first(a, b))
}

/// The chunk coordinate that a request names.
pub open spec fn asked_key(request: GenerateChunk) -> (i32, i32, i32) {
    (request.x, request.y, request.z)
}

/// The requests stand in the order in which the tick first came to their
/// chunks.
pub open spec fn requests_in_order(requests: Seq<GenerateChunk>, observers: Seq<Observer>) -> bool {
    forall|j: int, k: int|
        0 <= j < k < requests.len() ==> touched_first(
            observers,
            asked_key(#[trigger] requests[j]),
            asked_key(#[trigger] requests[k]),
        )
}

/// What was first touched before, still is when one more observer follows.
proof fn lemma_order_grows(requests: Seq<GenerateChunk>, past: Seq<Observer>, o: Observer)
    requires
        requests_in_order(requests, past),
    ensures
        requests_in_order(requests, past.push(o)),
{
    let more = past.push(o);
    assert forall|j: int, k: int| 0 <= j < k < requests.len() implies touched_first(
        more,
        asked_key(#[trigger] requests[j]),
        asked_key(#[trigger] requests[k]),
    ) by {
        let a = asked_key(requests[j]);
        let b = asked_key(requests[k]);
        let i = choose|i: int|
            0 <= i < past.len() && #[trigger] in_box(past[i], a) && !wanted_by(past, i, b) && (
            in_box(past[i], b) ==> swept_first(a, b));
        assert(more[i] == past[i]);
        if wanted_by(more, i, b) {
            let h = choose|h: int| 0 <= h < i && h < more.len() && in_box(#[trigger] more[h], b);
            assert(in_box(past[h], b));
        }
        assert(in_box(more[i], a));
    }
}

/// A request for a chunk that the sweep comes to now, and that no sweep has
/// come to yet, stands after all the requests before it.
proof fn lemma_order_step(
    now: &Voxels,
    before: &Voxels,
    past: Seq<Observer>,
    o: Observer,
    x: i32,
    y: i32,
    z: i32,
    requests: Seq<GenerateChunk>,
)
    requires
        in_box(o, (x, y, z)),
        !now.resident(x, y, z),
        sweep_at(now, before, past, o, x as int, y as int, z as int),
        requests_match(requests, now, before),
        requests_in_order(requests, past.push(o)),
    ensures
        requests_in_order(requests.push(GenerateChunk { x, y, z }), past.push(o)),
{
    let here = (x, y, z);
    let more = past.push(o);
    let asked = requests.push(GenerateChunk { x, y, z });
    assert(key_swept(now, before, here, reached(past, o, x as int, y as int, z as int, here)));
    assert(!wanted(past, here));
    assert forall|j: int, k: int| 0 <= j < k < asked.len() implies touched_first(
        more,
        asked_key(#[trigger] asked[j]),
        asked_key(#[trigger] asked[k]),
    ) by {
        if k < requests.len() {
            assert(asked[j] == requests[j] && asked[k] == requests[k]);
        } else {
            let a = asked_key(requests[j]);
            assert(asked[j] == requests[j]);
            assert(requests[j] == (GenerateChunk { x: a.0, y: a.1, z: a.2 }));
            assert(asks_for(requests, a));
            assert(key_swept(now, before, a, reached(past, o, x as int, y as int, z as int, a)));
            assert(reached(past, o, x as int, y as int, z as int, a));
            if wanted(past, a) {
                let i = choose|i: int| 0 <= i < past.len() && in_box(#[trigger] past[i], a);
                assert(more[i] == past[i]);
                assert(in_box(more[i], a));
                if wanted_by(more, i, here) {
                    let h = choose|h: int|
                        0 <= h < i && h < more.len() && in_box(#[trigger] more[h], here);
                    assert(in_box(past[h], here));
                }
                if in_box(more[i], here) {
                    assert(in_box(past[i], here));
                }
            } else {
                let i = past.len() as int;
                assert(more[i] == o);
                assert(in_box(more[i], a));
                if wanted_by(more, i, here) {
                    let h = choose|h: int|
                        0 <= h < i && h < more.len() && in_box(#[trigger] more[h], here);
                    assert(in_box(past[h], here));
                }
            }
        }
    }
}

/// The sweep over one observer's box: every chunk in it is touched.
fn sweep_box(
    voxels: &mut Voxels,
    commands: &mut Commands,
    o: Observer,
    requests: &mut Vec<GenerateChunk>,
    Ghost(before): Ghost<&Voxels>,
    Ghost(past): Ghost<Seq<Observer>>,
)
    requires
        box_fits(o),
        sweep_done(old(voxels), before, past),
        requests_match(old(requests)@, old(voxels), before),
        requests_in_order(old(requests)@, past),
    ensures
        sweep_done(final(voxels), before, past.push(o)),
        requests_match(final(requests)@, final(voxels), before),
        requests_in_order(final(requests)@, past.push(o)),
        final(requests)@.len() >= old(requests)@.len(),
        final(requests)@.len() == old(requests)@.len() ==> *final(commands) == *old(commands),
        old(voxels).wf() ==> final(voxels).wf(),
{
    let x_lo: i64 = o.chunk_x as i64 - o.loader.x_radius as i64;
    let x_hi: i64 = o.chunk_x as i64 + o.loader.x_radius as i64;
    let y_lo: i64 = o.chunk_y as i64 - o.loader.y_radius as i64;
    let y_hi: i64 = o.chunk_y as i64 + o.loader.y_radius as i64;
    let z_lo: i64 = o.chunk_z as i64 - o.loader.z_radius as i64;
    let z_hi: i64 = o.chunk_z as i64 + o.loader.z_radius as i64;
    proof {
        assert forall|key: (i32, i32, i32)| #[trigger]
            key_swept(
                voxels,
                before,
                key,
                reached(past, o, x_lo as int, y_lo as int, z_lo as int, key),
            ) by {
            assert(key_swept(voxels, before, key, wanted(past, key)));
        }
        lemma_order_grows(requests@, past, o);
    }
    let mut x: i64 = x_lo;
    while x <= x_hi
        invariant
            box_fits(o),
            x_lo == o.chunk_x - o.loader.x_radius,
            x_hi == o.chunk_x + o.loader.x_radius,
            y_lo == o.chunk_y - o.loader.y_radius,
            y_hi == o.chunk_y + o.loader.y_radius,
            z_lo == o.chunk_z - o.loader.z_radius,
            z_hi == o.chunk_z + o.loader.z_radius,
            x_lo <= x,
            x <= x_hi + 1 || x == x_lo,
            sweep_at(voxels, before, past, o, x as int, y_lo as int, z_lo as int),
            requests_match(requests@, voxels, before),
            requests_in_order(requests@, past.push(o)),
            requests@.len() >= old(requests)@.len(),
            requests@.len() == old(requests)@.len() ==> *commands == *old(commands),
            old(voxels).wf() ==> voxels.wf(),
        decreases x_hi + 1 - x,
    {
        let mut y: i64 = y_lo;
        while y <= y_hi
            invariant
                box_fits(o),
                x_lo == o.chunk_x - o.loader.x_radius,
                x_hi == o.chunk_x + o.loader.x_radius,
                y_lo == o.chunk_y - o.loader.y_radius,
                y_hi == o.chunk_y + o.loader.y_radius,
                z_lo == o.chunk_z - o.loader.z_radius,
                z_hi == o.chunk_z + o.loader.z_radius,
                x_lo <= x <= x_hi,
                y_lo <= y,
                y <= y_hi + 1 || y == y_lo,
                sweep_at(voxels, before, past, o, x as int, y as int, z_lo as int),
                requests_match(requests@, voxels, before),
                requests_in_order(requests@, past.push(o)),
                requests@.len() >= old(requests)@.len(),
                requests@.len() == old(requests)@.len() ==> *commands == *old(commands),
                old(voxels).wf() ==> voxels.wf(),
            decreases y_hi + 1 - y,
        {
            let mut z: i64 = z_lo;
            while z <= z_hi
                invariant
                    box_fits(o),
                    x_lo == o.chunk_x - o.loader.x_radius,
                    x_hi == o.chunk_x + o.loader.x_radius,
                    y_lo == o.chunk_y - o.loader.y_radius,
                    y_hi == o.chunk_y + o.loader.y_radius,
                    z_lo == o.chunk_z - o.loader.z_radius,
                    z_hi == o.chunk_z + o.loader.z_radius,
                    x_lo <= x <= x_hi,
                    y_lo <= y <= y_hi,
                    z_lo <= z,
                    z <= z_hi + 1 || z == z_lo,
                    sweep_at(voxels, before, past, o, x as int, y as int, z as int),
                    requests_match(requests@, voxels, before),
                    requests_in_order(requests@, past.push(o)),
                    requests@.len() >= old(requests)@.len(),
                    requests@.len() == old(requests)@.len() ==> *commands == *old(commands),
                    old(voxels).wf() ==> voxels.wf(),
                decreases z_hi + 1 - z,
            {
                let ghost now = *voxels;
                let ghost asked = requests@;
                touch(voxels, commands, x as i32, y as i32, z as i32, requests);
                proof {
                    if !now.resident(x as i32, y as i32, z as i32) {
                        lemma_order_step(
                            &now,
                            before,
                            past,
                            o,
                            x as i32,
                            y as i32,
                            z as i32,
                            asked,
                        );
                    }
                    lemma_sweep_step(
                        voxels,
                        &now,
                        before,
                        past,
                        o,
                        x as i32,
                        y as i32,
                        z as i32,
                        requests@,
                        asked,
                    );
                }
                z = z + 1;
            }
            proof {
                lemma_sweep_shift(
                    voxels,
                    before,
                    past,
                    o,
                    x as int,
                    y as int,
                    z as int,
                    x as int,
                    y + 1,
                    z_lo as int,
                );
            }
            y = y + 1;
        }
        proof {
            lemma_sweep_shift(
                voxels,
                before,
                past,
                o,
                x as int,
                y as int,
                z_lo as int,
                x + 1,
                y_lo as int,
                z_lo as int,
            );
        }
        x = x + 1;
    }
    proof {
        assert forall|key: (i32, i32, i32)| #[trigger]
            key_swept(voxels, before, key, wanted(past.push(o), key)) by {
            assert(key_swept(
                voxels,
                before,
                key,
                reached(past, o, x as int, y_lo as int, z_lo as int, key),
            ));
            lemma_wanted_push(past, o, key);
        }
    }
}

} // verus!

verus! {

/// What a streaming tick makes of the chunk at `key`, wanted or not: a
/// wanted chunk is resident, shown and stamped; any other stays as resident
/// as it was and is hidden unless it carries the tick's stamp. Blocks and
/// entity of a chunk that was resident stay; a new chunk is air.
pub open spec fn key_ticked(now: &Voxels, before: &Voxels, key: (i32, i32, i32), wanted: bool)
    -> bool {
    &&& now.chunks().dom().contains(key) == (before.chunks().dom().contains(key) || wanted)
    &&& now.chunks().dom().contains(key) ==> {
        &&& now.chunks()[key]@ == if before.chunks().dom().contains(key) {
            before.chunks()[key]@
        } else {
            all_air()
        }
        &&& before.chunks().dom().contains(key) ==> now.chunks()[key].spec_entity()
            == before.chunks()[key].spec_entity()
        &&& now.chunks()[key].spec_state() == if wanted {
            Chunk { loaded: true, mark: before.mark() }
        } else {
            evicted(before.chunks()[key].spec_state(), before.mark())
        }
    }
}

/// What a streaming tick for `observers` makes of the world `before`.
pub open spec fn after_tick(now: &Voxels, before: &Voxels, observers: Seq<Observer>) -> bool {
    &&& now.configs() == before.configs()
    &&& now.names() == before.names()
    &&& now.mark() == !before.mark()
    &&& forall|key: (i32, i32, i32)| #[trigger]
        key_ticked(now, before, key, wanted(observers, key))
}

/// After a streaming tick on a world whose stamps were fresh, the resident
/// chunks that are shown are those in the box of an observer: every wanted
/// chunk is shown, every other is hidden. The blocks of every chunk that was
/// resident are what they were, and the stamps are fresh again.
pub proof fn lemma_tick_shows_wanted(now: &Voxels, before: &Voxels, observers: Seq<Observer>)
    requires
        after_tick(now, before, observers),
        before.stamps_fresh(),
    ensures
        now.stamps_fresh(),
        forall|key: (i32, i32, i32)|
            wanted(observers, key) ==> #[trigger] now.chunks().dom().contains(key)
                && now.chunks()[key].spec_state().loaded,
        forall|key: (i32, i32, i32)| #[trigger]
            now.chunks().dom().contains(key) && !wanted(observers, key)
                ==> !now.chunks()[key].spec_state().loaded,
        forall|key: (i32, i32, i32)| #[trigger]
            before.chunks().dom().contains(key) ==> now.chunks().dom().contains(key)
                && now.chunks()[key]@ == before.chunks()[key]@,
{
    assert forall|key: (i32, i32, i32)|
        wanted(observers, key) implies #[trigger] now.chunks().dom().contains(key)
        && now.chunks()[key].spec_state().loaded by {
        assert(key_ticked(now, before, key, wanted(observers, key)));
    }
    assert forall|key: (i32, i32, i32)| #[trigger]
        now.chunks().dom().contains(key) && !wanted(
            observers,
            key,
        ) implies !now.chunks()[key].spec_state().loaded by {
        assert(key_ticked(now, before, key, wanted(observers, key)));
    }
    assert forall|key: (i32, i32, i32)| #[trigger]
        before.chunks().dom().contains(key) implies now.chunks().dom().contains(key)
        && now.chunks()[key]@ == before.chunks()[key]@ by {
        assert(key_ticked(now, before, key, wanted(observers, key)));
    }
    assert forall|key: (i32, i32, i32)| #[trigger]
        now.chunks().dom().contains(key) && now.chunks()[key].spec_state().loaded
            implies now.chunks()[key].spec_state().mark != now.mark() by {
        assert(key_ticked(now, before, key, wanted(observers, key)));
    }
}

/// The eviction pass: every resident chunk without the tick's stamp is
/// hidden. No chunk leaves the world, and no block changes.
fn evict(voxels: &mut Voxels)
    ensures
        final(voxels).same_registry(old(voxels)),
        final(voxels).chunks().dom() == old(voxels).chunks().dom(),
        forall|key: (i32, i32, i32)| #[trigger]
            old(voxels).chunks().dom().contains(key) ==> {
                &&& final(voxels).chunks()[key]@ == old(voxels).chunks()[key]@
                &&& final(voxels).chunks()[key].spec_entity() == old(voxels).chunks()[key].spec_entity()
                &&& final(voxels).chunks()[key].spec_state() == evicted(
                    old(voxels).chunks()[key].spec_state(),
                    old(voxels).mark(),
                )
            },
        old(voxels).wf() ==> final(voxels).wf(),
{
    let keys = voxels.chunk_keys();
    let mark = voxels.loaded_mark();
    let mut i: usize = 0;
    while i < keys.len()
        invariant
            0 <= i <= keys.len(),
            mark == old(voxels).mark(),
            voxels.same_registry(old(voxels)),
            voxels.chunks().dom() == old(voxels).chunks().dom(),
            forall|key: (i32, i32, i32)|
                keys@.contains(key) <==> old(voxels).chunks().dom().contains(key),
            forall|key: (i32, i32, i32)| #[trigger]
                old(voxels).chunks().dom().contains(key) ==> {
                    &&& voxels.chunks()[key]@ == old(voxels).chunks()[key]@
                    &&& voxels.chunks()[key].spec_entity() == old(voxels).chunks()[key].spec_entity()
                    &&& (voxels.chunks()[key].spec_state() == old(voxels).chunks()[key].spec_state()
                        || voxels.chunks()[key].spec_state() == evicted(
                        old(voxels).chunks()[key].spec_state(),
                        mark,
                    ))
                },
            forall|j: int|
                0 <= j < i ==> voxels.chunks()[#[trigger] keys@[j]].spec_state() == evicted(
                    old(voxels).chunks()[keys@[j]].spec_state(),
                    mark,
                ),
            old(voxels).wf() ==> voxels.wf(),
        decreases keys.len() - i,
    {
        let (x, y, z) = keys[i];
        let ghost key = (x, y, z);
        let ghost now = *voxels;
        assert(keys@.contains(key));
        assert(old(voxels).chunks().dom().contains(key));
        match voxels.get_chunk_mut(x, y, z) {
            Some(chunk) => {
                let state = chunk.state();
                if state.mark != mark {
                    chunk.set_state(Chunk { loaded: false, mark: state.mark });
                }
            },
            None => {},
        }
        proof {
            assert(voxels.chunks().dom() =~= now.chunks().dom());
            assert forall|j: int| 0 <= j < i + 1 implies voxels.chunks()[#[trigger] keys@[j]].spec_state()
                == evicted(old(voxels).chunks()[keys@[j]].spec_state(), mark) by {
                if keys@[j] != key {
                    assert(now.chunks()[keys@[j]].spec_state() == evicted(
                        old(voxels).chunks()[keys@[j]].spec_state(),
                        mark,
                    ));
                }
            }
        }
        i = i + 1;
    }
    proof {
        assert forall|key: (i32, i32, i32)| #[trigger]
            old(voxels).chunks().dom().contains(key) implies voxels.chunks()[key].spec_state()
            == evicted(old(voxels).chunks()[key].spec_state(), mark) by {
            assert(keys@.contains(key));
            let j = choose|j: int| 0 <= j < keys@.len() && keys@[j] == key;
            assert(voxels.chunks()[keys@[j]].spec_state() == evicted(
                old(voxels).chunks()[keys@[j]].spec_state(),
                mark,
            ));
        }
    }
}

/// One streaming tick. Every chunk in the box of an observer is made
/// resident, if it was not, and shown; every other resident chunk is hidden
/// and keeps its blocks. Returns one generation request for each chunk that
/// the tick made resident, in the order in which it came to them. A tick that
/// makes no chunk resident, as where every wanted chunk was resident already,
/// asks nothing of the scene graph.
pub fn load_chunks(voxels: &mut Voxels, commands: &mut Commands, observers: &Vec<Observer>) -> (requests:
    Vec<GenerateChunk>)
    requires
        forall|i: int| 0 <= i < observers@.len() ==> box_fits(#[trigger] observers@[i]),
    ensures
        after_tick(final(voxels), old(voxels), observers@),
        requests_match(requests@, final(voxels), old(voxels)),
        requests_in_order(requests@, observers@),
        requests@.len() == 0 ==> *final(commands) == *old(commands),
        (forall|key: (i32, i32, i32)|
            wanted(observers@, key) ==> #[trigger] old(voxels).chunks().dom().contains(key))
            ==> requests@.len() == 0,
        old(voxels).wf() ==> final(voxels).wf(),
        old(voxels).stamps_fresh() ==> final(voxels).stamps_fresh(),
{
    let mut requests: Vec<GenerateChunk> = Vec::new();
    let ghost before = *voxels;
    proof {
        assert forall|key: (i32, i32, i32)| #[trigger]
            key_swept(voxels, &before, key, wanted(Seq::<Observer>::empty(), key)) by {}
    }
    let mut i: usize = 0;
    while i < observers.len()
        invariant
            0 <= i <= observers.len(),
            before == *old(voxels),
            forall|i: int| 0 <= i < observers@.len() ==> box_fits(#[trigger] observers@[i]),
            sweep_done(voxels, &before, observers@.take(i as int)),
            requests_match(requests@, voxels, &before),
            requests_in_order(requests@, observers@.take(i as int)),
            requests@.len() == 0 ==> *commands == *old(commands),
            before.wf() ==> voxels.wf(),
        decreases observers.len() - i,
    {
        sweep_box(
            voxels,
            commands,
            observers[i],
            &mut requests,
            Ghost(&before),
            Ghost(observers@.take(i as int)),
        );
        assert(observers@.take(i as int).push(observers@[i as int]) =~= observers@.take(i + 1));
        i = i + 1;
    }
    assert(observers@.take(i as int) =~= observers@);
    let ghost mid = *voxels;
    evict(voxels);
    voxels.flip_mark();
    proof {
        assert forall|key: (i32, i32, i32)| #[trigger]
            key_ticked(voxels, &before, key, wanted(observers@, key)) by {
            assert(key_swept(&mid, &before, key, wanted(observers@, key)));
        }
        if before.stamps_fresh() {
            lemma_tick_shows_wanted(voxels, &before, observers@);
        }
        if requests@.len() > 0 {
            let key = asked_key(requests@[0]);
            assert(requests@[0] == (GenerateChunk { x: key.0, y: key.1, z: key.2 }));
            assert(asks_for(requests@, key));
            assert(key_ticked(voxels, &before, key, wanted(observers@, key)));
            assert(wanted(observers@, key) && !before.chunks().dom().contains(key));
        }
    }
    requests
}

} // verus!
