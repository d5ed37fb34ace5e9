//! The physics engine, behind its contracts.
//!
//! Integration itself (what a step does to poses and velocities) is the
//! engine's own black box; what the library relies on, and states, is the
//! bookkeeping around it: which bodies exist, the 128-bit user-data tag each
//! carries (the composite instance id, or zero for untagged level
//! geometry), and that stepping neither adds, removes nor re-tags bodies.
//! Bodies are addressed by the raw (index, generation) parts of their arena
//! handles; `body_tags` names the tag map a body set holds.

use vstd::prelude::*;

use crate::extcol::RawHandle;

verus! {

#[verifier::external_type_specification]
#[verifier::external_body]
pub struct ExPhysicsPipeline(rapier3d::prelude::PhysicsPipeline);

#[verifier::external_type_specification]
#[verifier::external_body]
pub struct ExIslandManager(rapier3d::prelude::IslandManager);

#[verifier::external_type_specification]
#[verifier::external_body]
pub struct ExBroadPhaseBvh(rapier3d::prelude::BroadPhaseBvh);

#[verifier::external_type_specification]
#[verifier::external_body]
pub struct ExNarrowPhase(rapier3d::prelude::NarrowPhase);

#[verifier::external_type_specification]
#[verifier::external_body]
pub struct ExRigidBodySet(rapier3d::prelude::RigidBodySet);

#[verifier::external_type_specification]
#[verifier::external_body]
pub struct ExColliderSet(rapier3d::prelude::ColliderSet);

#[verifier::external_type_specification]
#[verifier::external_body]
pub struct ExImpulseJointSet(rapier3d::prelude::ImpulseJointSet);

#[verifier::external_type_specification]
#[verifier::external_body]
pub struct ExMultibodyJointSet(rapier3d::prelude::MultibodyJointSet);

#[verifier::external_type_specification]
#[verifier::external_body]
pub struct ExSoftBodySet(rapier3d::prelude::SoftBodySet);

#[verifier::external_type_specification]
#[verifier::external_body]
pub struct ExCCDSolver(rapier3d::prelude::CCDSolver);

/// What a rigid-body set holds, as far as the library reads it: the
/// user-data tag of every live body, keyed by the raw parts of its handle.
pub uninterp spec fn body_tags(s: rapier3d::prelude::RigidBodySet) -> Map<RawHandle, u128>;

/// The whole physics state: the body and collider sets the scene
/// choreographs, and the solver plumbing stepping needs.
pub struct PhysicsWorld {
    pub pipeline: rapier3d::prelude::PhysicsPipeline,
    pub islands: rapier3d::prelude::IslandManager,
    pub broad_phase: rapier3d::prelude::BroadPhaseBvh,
    pub narrow_phase: rapier3d::prelude::NarrowPhase,
    pub bodies: rapier3d::prelude::RigidBodySet,
    pub colliders: rapier3d::prelude::ColliderSet,
    pub impulse_joints: rapier3d::prelude::ImpulseJointSet,
    pub multibody_joints: rapier3d::prelude::MultibodyJointSet,
    pub soft_bodies: rapier3d::prelude::SoftBodySet,
    pub ccd_solver: rapier3d::prelude::CCDSolver,
}

/// Relies on the `new` constructors of rapier3d's pipeline and set types:
/// fresh sets hold no bodies.
#[verifier::external_body]
fn world_parts_new() -> (r: PhysicsWorld)
    ensures
        body_tags(r.bodies).dom() == Set::<RawHandle>::empty(),
{
    PhysicsWorld {
        pipeline: rapier3d::prelude::PhysicsPipeline::new(),
        islands: rapier3d::prelude::IslandManager::new(),
        broad_phase: rapier3d::prelude::BroadPhaseBvh::new(),
        narrow_phase: rapier3d::prelude::NarrowPhase::new(),
        bodies: rapier3d::prelude::RigidBodySet::new(),
        colliders: rapier3d::prelude::ColliderSet::new(),
        impulse_joints: rapier3d::prelude::ImpulseJointSet::new(),
        multibody_joints: rapier3d::prelude::MultibodyJointSet::new(),
        soft_bodies: rapier3d::prelude::SoftBodySet::new(),
        ccd_solver: rapier3d::prelude::CCDSolver::new(),
    }
}

/// Relies on rapier3d's RigidBodyBuilder (fixed, at the given translation
/// and axis-angle rotation) and RigidBodySet::insert: the new body gets a
/// fresh handle and the default zero user-data tag.
#[verifier::external_body]
pub fn insert_fixed_body(
    bodies: &mut rapier3d::prelude::RigidBodySet,
    translation: &[u32; 3],
    rotation: &[u32; 3],
) -> (h: RawHandle)
    ensures
        !body_tags(*old(bodies)).dom().contains(h),
        body_tags(*final(bodies)) == body_tags(*old(bodies)).insert(h, 0u128),
{
    let t = rapier3d::math::Vector::new(
        bytemuck::cast(translation[0]),
        bytemuck::cast(translation[1]),
        bytemuck::cast(translation[2]),
    );
    let rot = rapier3d::math::AngVector::new(
        bytemuck::cast(rotation[0]),
        bytemuck::cast(rotation[1]),
        bytemuck::cast(rotation[2]),
    );
    let rb = rapier3d::prelude::RigidBodyBuilder::fixed().translation(t).rotation(rot).build();
    bodies.insert(rb).into_raw_parts()
}

#[verifier::external_type_specification]
#[verifier::external_body]
pub struct ExCollider(rapier3d::prelude::Collider);

/// Whether the engine accepts a triangle mesh built from these points and
/// triangle triples: rapier3d's trimesh validation is a function of the
/// geometry alone (it refuses, at least, an empty triangle list).
pub uninterp spec fn trimesh_accepted(points: Seq<Seq<u32>>, tris: Seq<Seq<u32>>) -> bool;

/// Relies on rapier3d's ColliderBuilder::trimesh: builds a triangle-mesh
/// collider from vertex positions and triangle index triples, or refuses
/// the mesh. The engine does not bound-check the indices before using them
/// (an out-of-range index is a caller error), so every index must address
/// a point.
#[verifier::external_body]
pub fn try_trimesh_collider(points: &Vec<[u32; 3]>, tris: &Vec<[u32; 3]>) -> (r: Option<
    rapier3d::prelude::Collider,
>)
    requires
        forall|t: int, c: int|
            0 <= t < tris@.len() && 0 <= c < 3 ==> (tris@[t]@[c] as int) < points@.len(),
    ensures
        r is Some <==> trimesh_accepted(
            crate::mathops::spec_rows3(points@),
            crate::mathops::spec_rows3(tris@),
        ),
{
    let pts: Vec<rapier3d::math::Vector> = points.iter().map(
        |p| rapier3d::math::Vector::new(
            bytemuck::cast(p[0]),
            bytemuck::cast(p[1]),
            bytemuck::cast(p[2]),
        ),
    ).collect();
    match rapier3d::prelude::ColliderBuilder::trimesh(pts, tris.clone()) {
        Ok(b) => Some(b.build()),
        Err(_) => None,
    }
}

/// Relies on rapier3d's ColliderSet::insert_with_parent: attaches a built
/// collider to a live parent body (a dead parent is a caller error to the
/// engine). No body tag changes.
#[verifier::external_body]
pub fn attach_collider(
    colliders: &mut rapier3d::prelude::ColliderSet,
    bodies: &mut rapier3d::prelude::RigidBodySet,
    collider: rapier3d::prelude::Collider,
    parent: RawHandle,
) -> (r: RawHandle)
    requires
        body_tags(*old(bodies)).dom().contains(parent),
    ensures
        body_tags(*final(bodies)) == body_tags(*old(bodies)),
{
    let ph = rapier3d::prelude::RigidBodyHandle::from_raw_parts(parent.0, parent.1);
    colliders.insert_with_parent(collider, ph, bodies).into_raw_parts()
}

/// Relies on rapier3d's RigidBodyBuilder (dynamic, tagged with the given
/// user data, at the given position and linear velocity), ColliderBuilder
/// (a ball of the given radius at unit density) and the two set insertions:
/// the new body gets a fresh handle and carries the tag. The radius bits
/// must not have the float sign bit set (a ball of negative radius is a
/// caller error to the engine).
#[verifier::external_body]
pub fn insert_dynamic_ball(
    bodies: &mut rapier3d::prelude::RigidBodySet,
    colliders: &mut rapier3d::prelude::ColliderSet,
    id: u128,
    position: &[u32; 3],
    velocity: &[u32; 3],
    radius: u32,
) -> (r: (RawHandle, RawHandle))
    requires
        radius < 0x8000_0000,
    ensures
        !body_tags(*old(bodies)).dom().contains(r.0),
        body_tags(*final(bodies)) == body_tags(*old(bodies)).insert(r.0, id),
{
    let p = rapier3d::math::Vector::new(bytemuck::cast(position[0]), bytemuck::cast(position[1]), bytemuck::cast(position[2]));
    let v = rapier3d::math::Vector::new(bytemuck::cast(velocity[0]), bytemuck::cast(velocity[1]), bytemuck::cast(velocity[2]));
    let rb = rapier3d::prelude::RigidBodyBuilder::dynamic().translation(p).linvel(v).user_data(id).build();
    let bh = bodies.insert(rb);
    let ball = rapier3d::prelude::ColliderBuilder::ball(bytemuck::cast(radius)).density(bytemuck::cast(0x3F80_0000u32)).build();
    let ch = colliders.insert_with_parent(ball, bh, bodies);
    (bh.into_raw_parts(), ch.into_raw_parts())
}

/// Relies on rapier3d's ColliderSet::remove: the collider (if still live)
/// leaves the set and is detached from its parent body; no body tag
/// changes.
#[verifier::external_body]
pub fn remove_collider(w: &mut PhysicsWorld, ch: RawHandle)
    ensures
        body_tags(final(w).bodies) == body_tags(old(w).bodies),
{
    let h = rapier3d::prelude::ColliderHandle::from_raw_parts(ch.0, ch.1);
    w.colliders.remove(h, &mut w.islands, &mut w.bodies, &mut w.soft_bodies, true);
}

/// Relies on rapier3d's RigidBodySet::remove: the body (if still live)
/// leaves the set together with its attached colliders and joints.
#[verifier::external_body]
pub fn remove_body(w: &mut PhysicsWorld, bh: RawHandle)
    ensures
        body_tags(final(w).bodies) == body_tags(old(w).bodies).remove(bh),
{
    let h = rapier3d::prelude::RigidBodyHandle::from_raw_parts(bh.0, bh.1);
    w.bodies.remove(
        h,
        &mut w.islands,
        &mut w.colliders,
        &mut w.impulse_joints,
        &mut w.multibody_joints,
        &mut w.soft_bodies,
        true,
    );
}

/// Relies on rapier3d's RigidBodySet::get_mut and the body's user_data
/// field: re-tags one live body, and does nothing for a dead handle.
#[verifier::external_body]
pub fn set_body_user_data(bodies: &mut rapier3d::prelude::RigidBodySet, bh: RawHandle, data: u128)
    ensures
        body_tags(*final(bodies)) == if body_tags(*old(bodies)).dom().contains(bh) {
            body_tags(*old(bodies)).insert(bh, data)
        } else {
            body_tags(*old(bodies))
        },
{
    let h = rapier3d::prelude::RigidBodyHandle::from_raw_parts(bh.0, bh.1);
    if let Some(b) = bodies.get_mut(h) {
        b.user_data = data;
    }
}

/// Relies on rapier3d's RigidBodySet::iter and the body accessors: every
/// live body exactly once, as its raw handle, its tag, and the bits of its
/// current translation and rotation quaternion (the pose is simulation
/// state; nothing relates it to earlier poses).
#[verifier::external_body]
pub fn body_poses(bodies: &rapier3d::prelude::RigidBodySet) -> (r: Vec<
    (RawHandle, u128, [u32; 3], [u32; 4]),
>)
    ensures
        forall|j: int|
            0 <= j < r@.len() ==> body_tags(*bodies).dom().contains((#[trigger] r@[j]).0)
                && body_tags(*bodies)[r@[j].0] == r@[j].1,
        forall|h: RawHandle| #[trigger]
            body_tags(*bodies).dom().contains(h) ==> exists|j: int|
                0 <= j < r@.len() && (#[trigger] r@[j]).0 == h,
        forall|i: int, j: int| 0 <= i < j < r@.len() ==> r@[i].0 != r@[j].0,
{
    bodies.iter().map(
        |(h, b)| {
            let t = b.translation();
            let q = b.rotation();
            let tb = [t.x.to_bits(), t.y.to_bits(), t.z.to_bits()];
            let qb = [q.x.to_bits(), q.y.to_bits(), q.z.to_bits(), q.w.to_bits()];
            (h.into_raw_parts(), b.user_data, tb, qb)
        },
    ).collect()
}

/// Relies on rapier3d's PhysicsPipeline::step with default integration
/// parameters at the given timestep: one solver substep. Integration moves
/// bodies but neither adds, removes nor re-tags them.
#[verifier::external_body]
fn step_once(w: &mut PhysicsWorld, gravity: &[u32; 3], dt_bits: u32)
    ensures
        body_tags(final(w).bodies) == body_tags(old(w).bodies),
{
    let mut p = rapier3d::prelude::IntegrationParameters::default();
    p.dt = bytemuck::cast(dt_bits);
    let g = rapier3d::math::Vector::new(
        bytemuck::cast(gravity[0]),
        bytemuck::cast(gravity[1]),
        bytemuck::cast(gravity[2]),
    );
    w.pipeline.step(
        g, &p, &mut w.islands, &mut w.broad_phase, &mut w.narrow_phase, &mut w.bodies,
        &mut w.colliders, &mut w.impulse_joints, &mut w.multibody_joints, &mut w.soft_bodies,
        &mut w.ccd_solver, &(), &(),
    );
}

impl PhysicsWorld {
    /// A fresh physics state with no bodies.
    pub fn new() -> (r: PhysicsWorld)
        ensures
            body_tags(r.bodies).dom() == Set::<RawHandle>::empty(),
    {
        world_parts_new()
    }

    /// Advance the simulation by `substeps` solver steps of `dt_bits`
    /// seconds each (the caller divides its frame delta). Stepping never
    /// changes which bodies exist or how they are tagged.
    pub fn step(&mut self, gravity: &[u32; 3], dt_bits: u32, substeps: u8)
        ensures
            body_tags(final(self).bodies) == body_tags(old(self).bodies),
    {
        let mut i: u8 = 0;
        while i < substeps
            invariant
                body_tags(self.bodies) == body_tags(old(self).bodies),
            decreases substeps - i,
        {
            step_once(self, gravity, dt_bits);
            i += 1;
        }
    }
}

} // verus!
