//! The particle decay pass: transient visual-effect entities age by the
//! elapsed time and are queued for deletion once expired.

use vstd::prelude::*;
use crate::components::ParticleLifetime;
use crate::world::World;

verus! {

/// The particle decay pass. Every particle's remaining lifetime drops by
/// `frame_ms`; a particle whose lifetime ran out is queued for deletion
/// and loses its lifetime component. Nothing else changes.
pub fn cull_dead_particles(world: &mut World, frame_ms: i32)
    requires
        old(world).wf(),
        0 <= frame_ms <= 100000,
    ensures
        final(world).wf(),
        final(world).n() == old(world).n(),
        *final(world) == (World {
            particle_lifetime: final(world).particle_lifetime,
            pending_delete: final(world).pending_delete,
            ..*old(world)
        }),
        old(world).pending_delete@.is_prefix_of(final(world).pending_delete@),
        forall|e: int|
            0 <= e < old(world).n() && (#[trigger] old(world).particle_lifetime@[e]) is Some
                ==> (if old(world).particle_lifetime@[e]->0.remaining_ms - frame_ms >= 0 {
                final(world).particle_lifetime@[e] == Some(
                    ParticleLifetime {
                        remaining_ms: (old(world).particle_lifetime@[e]->0.remaining_ms
                            - frame_ms) as i32,
                    },
                )
            } else {
                final(world).particle_lifetime@[e] is None && final(world).pending_delete@.contains(e as usize)
            }),
        forall|e: int|
            0 <= e < old(world).n() && (#[trigger] old(world).particle_lifetime@[e]) is None
                ==> final(world).particle_lifetime@[e] is None,
{
    let n = world.alive.len();
    let mut e: usize = 0;
    while e < n
        invariant
            world.wf(),
            n == old(world).n(),
            world.n() == n,
            e <= n,
            0 <= frame_ms <= 100000,
            *world == (World {
                particle_lifetime: world.particle_lifetime,
                pending_delete: world.pending_delete,
                ..*old(world)
            }),
            old(world).pending_delete@.is_prefix_of(world.pending_delete@),
            forall|e2: int|
                0 <= e2 < e && (#[trigger] old(world).particle_lifetime@[e2]) is Some
                    ==> (if old(world).particle_lifetime@[e2]->0.remaining_ms - frame_ms >= 0 {
                    world.particle_lifetime@[e2] == Some(
                        ParticleLifetime {
                            remaining_ms: (old(world).particle_lifetime@[e2]->0.remaining_ms
                                - frame_ms) as i32,
                        },
                    )
                } else {
                    world.particle_lifetime@[e2] is None && world.pending_delete@.contains(
                        e2 as usize,
                    )
                }),
            forall|e2: int|
                ((0 <= e2 < e && (#[trigger] old(world).particle_lifetime@[e2]) is None) || e <= e2
                    < n) ==> world.particle_lifetime@[e2] == old(world).particle_lifetime@[e2],
        decreases n - e,
    {
        let ghost pd0 = world.pending_delete@;
        match world.particle_lifetime[e] {
            Some(p) => {
                if p.remaining_ms >= frame_ms {
                    world.particle_lifetime.set(
                        e,
                        Some(ParticleLifetime { remaining_ms: p.remaining_ms - frame_ms }),
                    );
                } else {
                    world.particle_lifetime.set(e, None);
                    world.delete_entity(e);
                    proof {
                        assert(world.pending_delete@[world.pending_delete@.len() - 1] == e);
                    }
                }
            },
            None => {},
        }
        proof {
            assert forall|e2: int|
                0 <= e2 < e + 1 && (#[trigger] old(world).particle_lifetime@[e2]) is Some && !(old(world).particle_lifetime@[e2]->0.remaining_ms - frame_ms >= 0) implies world.particle_lifetime@[e2] is None
                && world.pending_delete@.contains(e2 as usize) by {
                if e2 < e {
                    assert(pd0.contains(e2 as usize));
                    let k = choose|k: int| 0 <= k < pd0.len() && pd0[k] == e2 as usize;
                    assert(world.pending_delete@[k] == e2 as usize);
                }
            }
        }
        e = e + 1;
    }
}

} // verus!
