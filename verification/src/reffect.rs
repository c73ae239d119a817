//! The effect definition: the serializable, engine-independent description
//! of one particle effect.
//!
//! A definition owns a fixed catalog of modifier slots in three phases —
//! initial state, per-frame update, render-time appearance. Most slots are
//! optional; the position generator always holds exactly one of its shape
//! variants, and the texture reference is a tri-state of its own. The
//! runtime engine consumes not this type but the pipeline built from it by
//! [`REffect::to_effect_asset`].

use vstd::prelude::*;
use crate::gradient::{ColorGradient, GradientKey, SizeGradient};
use crate::value::{Rgba, Size2, Value, Vec3i, UNBOUNDED, UNIT};

verus! {

/// Whether particles simulate in the effect's local frame or in world
/// space.
#[derive(Clone, Copy, Debug, PartialEq, Eq, Structural)]
pub enum SimulationSpace {
    Local,
    Global,
}

impl Default for SimulationSpace {
    fn default() -> (r: Self)
        ensures
            r == SimulationSpace::Global,
    {
        SimulationSpace::Global
    }
}

/// Whether the simulation runs always or only while the effect is visible.
#[derive(Clone, Copy, Debug, PartialEq, Eq, Structural)]
pub enum SimulationCondition {
    Always,
    WhenVisible,
}

impl Default for SimulationCondition {
    fn default() -> (r: Self)
        ensures
            r == SimulationCondition::WhenVisible,
    {
        SimulationCondition::WhenVisible
    }
}

/// Whether a shape spawns on its surface or through its volume.
#[derive(Clone, Copy, Debug, PartialEq, Eq, Structural)]
pub enum ShapeDimension {
    Surface,
    Volume,
}

/// Spawn positions on or in a circle.
#[derive(Clone, Copy, Debug, PartialEq, Eq, Structural)]
pub struct InitPositionCircle {
    pub center: Vec3i,
    pub axis: Vec3i,
    pub radius: u32,
    pub dimension: ShapeDimension,
}

/// Spawn positions on or in a sphere.
#[derive(Clone, Copy, Debug, PartialEq, Eq, Structural)]
pub struct InitPositionSphere {
    pub center: Vec3i,
    pub radius: u32,
    pub dimension: ShapeDimension,
}

/// Spawn positions on or in a truncated cone.
#[derive(Clone, Copy, Debug, PartialEq, Eq, Structural)]
pub struct InitPositionCone {
    pub height: u32,
    pub base_radius: u32,
    pub top_radius: u32,
    pub dimension: ShapeDimension,
}

/// The required position generator: exactly one shape variant is always
/// present.
#[derive(Clone, Copy, Debug, PartialEq, Eq, Structural)]
pub enum InitPosition {
    Circle(InitPositionCircle),
    Sphere(InitPositionSphere),
    Cone(InitPositionCone),
}

impl Default for InitPosition {
    /// A unit circle facing up the depth axis.
    fn default() -> (r: Self)
        ensures
            r == InitPosition::Circle(
                InitPositionCircle {
                    center: Vec3i { x: 0, y: 0, z: 0 },
                    axis: Vec3i { x: 0, y: 0, z: UNIT as i32 },
                    radius: UNIT,
                    dimension: ShapeDimension::Surface,
                },
            ),
    {
        InitPosition::Circle(
            InitPositionCircle {
                center: Vec3i { x: 0, y: 0, z: 0 },
                axis: Vec3i { x: 0, y: 0, z: UNIT as i32 },
                radius: UNIT,
                dimension: ShapeDimension::Surface,
            },
        )
    }
}

/// Velocities tangent to a circle around an axis.
#[derive(Clone, Copy, Debug, PartialEq, Eq, Structural)]
pub struct InitVelocityCircle {
    pub center: Vec3i,
    pub axis: Vec3i,
    pub speed: Value<u32>,
}

/// Velocities radially away from a center.
#[derive(Clone, Copy, Debug, PartialEq, Eq, Structural)]
pub struct InitVelocitySphere {
    pub center: Vec3i,
    pub speed: Value<u32>,
}

/// Velocities tangent to a plane through an origin and axis.
#[derive(Clone, Copy, Debug, PartialEq, Eq, Structural)]
pub struct InitVelocityTangent {
    pub origin: Vec3i,
    pub axis: Vec3i,
    pub speed: Value<u32>,
}

/// The optional velocity generator's shape variants.
#[derive(Clone, Copy, Debug, PartialEq, Eq, Structural)]
pub enum InitVelocity {
    Circle(InitVelocityCircle),
    Sphere(InitVelocitySphere),
    Cone(InitVelocityTangent),
}

impl InitVelocity {
    /// The speed keeps its bounds ordered.
    pub open spec fn wf(self) -> bool {
        match self {
            InitVelocity::Circle(v) => v.speed.wf(),
            InitVelocity::Sphere(v) => v.speed.wf(),
            InitVelocity::Cone(v) => v.speed.wf(),
        }
    }
}

impl Default for InitVelocity {
    /// Unit speed around the depth axis.
    fn default() -> (r: Self)
        ensures
            r == InitVelocity::Circle(
                InitVelocityCircle {
                    center: Vec3i { x: 0, y: 0, z: 0 },
                    axis: Vec3i { x: 0, y: 0, z: UNIT as i32 },
                    speed: Value::Single(UNIT),
                },
            ),
    {
        InitVelocity::Circle(
            InitVelocityCircle {
                center: Vec3i { x: 0, y: 0, z: 0 },
                axis: Vec3i { x: 0, y: 0, z: UNIT as i32 },
                speed: Value::Single(UNIT),
            },
        )
    }
}

/// The initial particle size.
#[derive(Clone, Copy, Debug, PartialEq, Eq, Structural)]
pub struct InitSizeModifier {
    pub size: Value<u32>,
}

/// The initial particle age.
#[derive(Clone, Copy, Debug, PartialEq, Eq, Structural)]
pub struct InitAgeModifier {
    pub age: Value<u32>,
}

/// The particle lifetime. Effectively required for a meaningful simulation;
/// its absence is surfaced as a warning, never silently repaired.
#[derive(Clone, Copy, Debug, PartialEq, Eq, Structural)]
pub struct InitLifetimeModifier {
    pub lifetime: Value<u32>,
}

/// A point force (attractor or repulsor) acting on particles.
#[derive(Clone, Copy, Debug, PartialEq, Eq, Structural)]
pub struct ForceFieldModifier {
    pub position: Vec3i,
    pub max_radius: u32,
    pub min_radius: u32,
    pub mass: i32,
    pub force_exponent: u32,
    pub conform_to_sphere: bool,
}

/// Linear drag slowing particles down.
#[derive(Clone, Copy, Debug, PartialEq, Eq, Structural)]
pub struct LinearDragModifier {
    pub drag: u32,
}

/// Kill particles leaving (or entering) an axis-aligned box.
#[derive(Clone, Copy, Debug, PartialEq, Eq, Structural)]
pub struct AabbKillModifier {
    pub center: Vec3i,
    pub half_size: Vec3i,
}

/// A constant acceleration.
#[derive(Clone, Copy, Debug, PartialEq, Eq, Structural)]
pub struct AccelModifier {
    pub accel: Vec3i,
}

/// Acceleration toward or away from an origin.
#[derive(Clone, Copy, Debug, PartialEq, Eq, Structural)]
pub struct RadialAccelModifier {
    pub origin: Vec3i,
    pub accel: i32,
}

/// Acceleration tangent to the circle around an axis through an origin.
#[derive(Clone, Copy, Debug, PartialEq, Eq, Structural)]
pub struct TangentAccelModifier {
    pub origin: Vec3i,
    pub axis: Vec3i,
    pub accel: i32,
}

/// The optional acceleration modifier's variants.
#[derive(Clone, Copy, Debug, PartialEq, Eq, Structural)]
pub enum UpdateAccel {
    Linear(AccelModifier),
    Radial(RadialAccelModifier),
    Tangent(TangentAccelModifier),
}

impl Default for UpdateAccel {
    /// A constant unit acceleration along the depth axis.
    fn default() -> (r: Self)
        ensures
            r == UpdateAccel::Linear(
                AccelModifier { accel: Vec3i { x: 0, y: 0, z: UNIT as i32 } },
            ),
    {
        UpdateAccel::Linear(AccelModifier { accel: Vec3i { x: 0, y: 0, z: UNIT as i32 } })
    }
}

/// Which acceleration variant a selector picked.
#[derive(Clone, Copy, Debug, PartialEq, Eq, Structural)]
pub enum AccelKind {
    Linear,
    Radial,
    Tangent,
}

impl UpdateAccel {
    /// The variant this acceleration currently has.
    pub open spec fn spec_kind(self) -> AccelKind {
        match self {
            UpdateAccel::Linear(_) => AccelKind::Linear,
            UpdateAccel::Radial(_) => AccelKind::Radial,
            UpdateAccel::Tangent(_) => AccelKind::Tangent,
        }
    }

    /// The value a freshly selected variant starts from.
    pub open spec fn spec_variant_default(kind: AccelKind) -> UpdateAccel {
        match kind {
            AccelKind::Linear => UpdateAccel::Linear(
                AccelModifier { accel: Vec3i { x: 0, y: 0, z: 0 } },
            ),
            AccelKind::Radial => UpdateAccel::Radial(
                RadialAccelModifier { origin: Vec3i { x: 0, y: 0, z: 0 }, accel: UNIT as i32 },
            ),
            AccelKind::Tangent => UpdateAccel::Tangent(
                TangentAccelModifier {
                    origin: Vec3i { x: 0, y: 0, z: 0 },
                    axis: Vec3i { x: 0, y: UNIT as i32, z: 0 },
                    accel: UNIT as i32,
                },
            ),
        }
    }

    /// Select a variant from the selector: picking the variant already
    /// active changes nothing; picking another replaces the whole value
    /// with that variant's default and reports the change.
    pub fn select(&mut self, kind: AccelKind) -> (changed: bool)
        ensures
            old(self).spec_kind() == kind ==> *final(self) == *old(self) && !changed,
            old(self).spec_kind() != kind ==> *final(self) == UpdateAccel::spec_variant_default(
                kind,
            ) && changed,
    {
        let same = match (&*self, kind) {
            (UpdateAccel::Linear(_), AccelKind::Linear) => true,
            (UpdateAccel::Radial(_), AccelKind::Radial) => true,
            (UpdateAccel::Tangent(_), AccelKind::Tangent) => true,
            _ => false,
        };
        if same {
            false
        } else {
            *self = match kind {
                AccelKind::Linear => UpdateAccel::Linear(
                    AccelModifier { accel: Vec3i { x: 0, y: 0, z: 0 } },
                ),
                AccelKind::Radial => UpdateAccel::Radial(
                    RadialAccelModifier { origin: Vec3i { x: 0, y: 0, z: 0 }, accel: UNIT as i32 },
                ),
                AccelKind::Tangent => UpdateAccel::Tangent(
                    TangentAccelModifier {
                        origin: Vec3i { x: 0, y: 0, z: 0 },
                        axis: Vec3i { x: 0, y: UNIT as i32, z: 0 },
                        accel: UNIT as i32,
                    },
                ),
            };
            true
        }
    }
}

/// Orient particles along their velocity (no parameters).
#[derive(Clone, Copy, Debug, PartialEq, Eq, Structural)]
pub struct OrientAlongVelocityModifier {
}

/// A fixed or randomized particle color.
#[derive(Clone, Copy, Debug, PartialEq, Eq, Structural)]
pub struct SetColorModifier {
    pub color: Value<Rgba>,
}

/// A fixed or randomized particle size.
#[derive(Clone, Copy, Debug, PartialEq, Eq, Structural)]
pub struct SetSizeModifier {
    pub size: Value<Size2>,
}

/// The texture reference of an effect: absent, a portable path as
/// serialized assets carry it, or a resolved resource handle as the runtime
/// uses it. Only the path form appears on disk; loading resolves it to a
/// handle, and saving looks the handle's origin path up again.
#[derive(Clone, Debug, PartialEq, Eq)]
pub enum ParticleTexture {
    Unset,
    Path(Vec<u8>),
    Texture(u64),
}

/// The ghost shape of a texture reference.
pub enum TextureView {
    Unset,
    Path(Seq<u8>),
    Texture(u64),
}

impl View for ParticleTexture {
    type V = TextureView;

    open spec fn view(&self) -> TextureView {
        match self {
            ParticleTexture::Unset => TextureView::Unset,
            ParticleTexture::Path(p) => TextureView::Path(p@),
            ParticleTexture::Texture(h) => TextureView::Texture(*h),
        }
    }
}

impl ParticleTexture {
    /// The resolved handle, if this reference holds one. A path form here
    /// means the reference was never resolved at load time; it yields no
    /// handle (the caller logs the configuration error).
    pub fn handle(&self) -> (r: Option<u64>)
        ensures
            r == (match self@ {
                TextureView::Texture(h) => Some(h),
                _ => None::<u64>,
            }),
    {
        match self {
            ParticleTexture::Unset => None,
            ParticleTexture::Path(_) => None,
            ParticleTexture::Texture(h) => Some(*h),
        }
    }
}

impl REffect {
    /// The texture path this definition still needs resolved: a freshly
    /// parsed effect carries its texture as a portable path until the
    /// loader requests the image and swaps the handle in.
    pub fn texture_dependency(&self) -> (r: Option<&Vec<u8>>)
        ensures
            match r {
                Some(p) => self@.render_particle_texture == TextureView::Path(p@),
                None => !(self@.render_particle_texture is Path),
            },
    {
        match &self.render_particle_texture {
            ParticleTexture::Path(p) => Some(p),
            _ => None,
        }
    }

    /// Whether the editor must warn that this effect has no lifetime: a
    /// lifetime is effectively required for a meaningful simulation, but
    /// its absence is only ever flagged, never silently repaired.
    pub fn needs_lifetime_warning(&self) -> (r: bool)
        ensures
            r == (self.init_lifetime is None),
    {
        self.init_lifetime.is_none()
    }

    /// The same definition with another texture reference — what the
    /// save-time rewrite builds just before serialization.
    pub fn with_texture(&self, texture: ParticleTexture) -> (r: REffect)
        requires
            self.wf(),
        ensures
            r@ == (EffectView { render_particle_texture: texture@, ..self@ }),
            r.wf(),
    {
        REffect {
            name: vstd::slice::slice_to_vec(self.name.as_slice()),
            capacity: self.capacity,
            spawner: self.spawner,
            simulation_space: self.simulation_space,
            simulation_condition: self.simulation_condition,
            init_position: self.init_position,
            init_velocity: self.init_velocity,
            init_size: self.init_size,
            init_age: self.init_age,
            init_lifetime: self.init_lifetime,
            update_accel: self.update_accel,
            update_force_field: self.update_force_field,
            update_linear_drag: self.update_linear_drag,
            update_aabb_kill: self.update_aabb_kill,
            render_particle_texture: texture,
            render_set_color: self.render_set_color,
            render_color_over_lifetime: match &self.render_color_over_lifetime {
                Some(g) => Some(g.duplicate()),
                None => None,
            },
            render_set_size: self.render_set_size,
            render_size_over_lifetime: match &self.render_size_over_lifetime {
                Some(g) => Some(g.duplicate()),
                None => None,
            },
            render_billboard: self.render_billboard,
            render_orient_along_velocity: self.render_orient_along_velocity,
        }
    }

    /// What the texture picker does when an entry is chosen: picking "no
    /// texture" clears the reference, picking an image (already resolved to
    /// its handle by the caller) selects it; re-picking the current state
    /// changes nothing.
    pub fn select_texture(&mut self, choice: Option<u64>) -> (changed: bool)
        ensures
            match choice {
                Some(h) => final(self)@ == (EffectView {
                    render_particle_texture: TextureView::Texture(h),
                    ..old(self)@
                }) && changed == (old(self)@.render_particle_texture != TextureView::Texture(h)),
                None => final(self)@ == (EffectView {
                    render_particle_texture: TextureView::Unset,
                    ..old(self)@
                }) && changed == !(old(self)@.render_particle_texture is Unset),
            },
            final(self).wf() == old(self).wf(),
    {
        match choice {
            Some(h) => {
                let same = match &self.render_particle_texture {
                    ParticleTexture::Texture(cur) => *cur == h,
                    _ => false,
                };
                self.render_particle_texture = ParticleTexture::Texture(h);
                !same
            },
            None => {
                let same = matches!(&self.render_particle_texture, ParticleTexture::Unset);
                self.render_particle_texture = ParticleTexture::Unset;
                !same
            },
        }
    }

    /// Swap the loaded image's handle in for the texture path, as the
    /// loader does once the dependency resolves. Without a pending path
    /// this changes nothing.
    pub fn resolve_texture(&mut self, handle: u64)
        ensures
            old(self)@.render_particle_texture is Path ==> final(self)@ == (EffectView {
                render_particle_texture: TextureView::Texture(handle),
                ..old(self)@
            }),
            !(old(self)@.render_particle_texture is Path) ==> final(self)@ == old(self)@,
            final(self).wf() == old(self).wf(),
    {
        match &self.render_particle_texture {
            ParticleTexture::Path(_) => {
                self.render_particle_texture = ParticleTexture::Texture(handle);
            },
            _ => {},
        }
    }
}

/// The spawn-rate descriptor: how many particles, over what time, at what
/// period, and whether spawning starts active and immediately.
#[derive(Clone, Copy, Debug, PartialEq, Eq, Structural)]
pub struct Spawner {
    pub num_particles: Value<u32>,
    pub spawn_time: Value<u32>,
    pub period: Value<u32>,
    pub starts_active: bool,
    pub starts_immediately: bool,
}

impl Spawner {
    /// Every numeric field keeps its bounds ordered.
    pub open spec fn wf(self) -> bool {
        self.num_particles.wf() && self.spawn_time.wf() && self.period.wf()
    }

    /// Spawn a burst once: everything at time zero, never repeating.
    pub fn once(count: Value<u32>, spawn_immediately: bool) -> (s: Spawner)
        ensures
            s == (Spawner {
                num_particles: count,
                spawn_time: Value::Single(0),
                period: Value::Single(UNBOUNDED),
                starts_active: true,
                starts_immediately: spawn_immediately,
            }),
    {
        Spawner {
            num_particles: count,
            spawn_time: Value::Single(0),
            period: Value::Single(UNBOUNDED),
            starts_active: true,
            starts_immediately: spawn_immediately,
        }
    }
}

impl Default for Spawner {
    /// One particle, at once, never again.
    fn default() -> (s: Self)
        ensures
            s == (Spawner {
                num_particles: Value::Single(1),
                spawn_time: Value::Single(0),
                period: Value::Single(UNBOUNDED),
                starts_active: true,
                starts_immediately: true,
            }),
    {
        Spawner {
            num_particles: Value::Single(1),
            spawn_time: Value::Single(0),
            period: Value::Single(UNBOUNDED),
            starts_active: true,
            starts_immediately: true,
        }
    }
}

/// The serializable description of one particle effect: identity, spawning,
/// and the three modifier phases in their fixed slot order.
#[derive(Clone, Debug)]
pub struct REffect {
    pub name: Vec<u8>,
    pub capacity: u32,
    pub spawner: Spawner,
    pub simulation_space: SimulationSpace,
    pub simulation_condition: SimulationCondition,
    pub init_position: InitPosition,
    pub init_velocity: Option<InitVelocity>,
    pub init_size: Option<InitSizeModifier>,
    pub init_age: Option<InitAgeModifier>,
    pub init_lifetime: Option<InitLifetimeModifier>,
    pub update_accel: Option<UpdateAccel>,
    pub update_force_field: Option<ForceFieldModifier>,
    pub update_linear_drag: Option<LinearDragModifier>,
    pub update_aabb_kill: Option<AabbKillModifier>,
    pub render_particle_texture: ParticleTexture,
    pub render_set_color: Option<SetColorModifier>,
    pub render_color_over_lifetime: Option<ColorGradient>,
    pub render_set_size: Option<SetSizeModifier>,
    pub render_size_over_lifetime: Option<SizeGradient>,
    pub render_billboard: bool,
    pub render_orient_along_velocity: Option<OrientAlongVelocityModifier>,
}

/// The ghost shape of an effect definition: every byte buffer and gradient
/// replaced by its sequence view.
pub struct EffectView {
    pub name: Seq<u8>,
    pub capacity: u32,
    pub spawner: Spawner,
    pub simulation_space: SimulationSpace,
    pub simulation_condition: SimulationCondition,
    pub init_position: InitPosition,
    pub init_velocity: Option<InitVelocity>,
    pub init_size: Option<InitSizeModifier>,
    pub init_age: Option<InitAgeModifier>,
    pub init_lifetime: Option<InitLifetimeModifier>,
    pub update_accel: Option<UpdateAccel>,
    pub update_force_field: Option<ForceFieldModifier>,
    pub update_linear_drag: Option<LinearDragModifier>,
    pub update_aabb_kill: Option<AabbKillModifier>,
    pub render_particle_texture: TextureView,
    pub render_set_color: Option<SetColorModifier>,
    pub render_color_over_lifetime: Option<Seq<GradientKey<Rgba>>>,
    pub render_set_size: Option<SetSizeModifier>,
    pub render_size_over_lifetime: Option<Seq<GradientKey<Size2>>>,
    pub render_billboard: bool,
    pub render_orient_along_velocity: Option<OrientAlongVelocityModifier>,
}

impl View for REffect {
    type V = EffectView;

    open spec fn view(&self) -> EffectView {
        EffectView {
            name: self.name@,
            capacity: self.capacity,
            spawner: self.spawner,
            simulation_space: self.simulation_space,
            simulation_condition: self.simulation_condition,
            init_position: self.init_position,
            init_velocity: self.init_velocity,
            init_size: self.init_size,
            init_age: self.init_age,
            init_lifetime: self.init_lifetime,
            update_accel: self.update_accel,
            update_force_field: self.update_force_field,
            update_linear_drag: self.update_linear_drag,
            update_aabb_kill: self.update_aabb_kill,
            render_particle_texture: self.render_particle_texture@,
            render_set_color: self.render_set_color,
            render_color_over_lifetime: match &self.render_color_over_lifetime {
                Some(g) => Some(g@),
                None => None,
            },
            render_set_size: self.render_set_size,
            render_size_over_lifetime: match &self.render_size_over_lifetime {
                Some(g) => Some(g@),
                None => None,
            },
            render_billboard: self.render_billboard,
            render_orient_along_velocity: self.render_orient_along_velocity,
        }
    }
}

impl REffect {
    /// Every ranged value keeps its bounds ordered and every gradient its
    /// keys on the strip with at least one key.
    pub open spec fn wf(&self) -> bool {
        &&& self.spawner.wf()
        &&& match self.init_velocity {
            Some(v) => v.wf(),
            None => true,
        }
        &&& match self.init_size {
            Some(m) => m.size.wf(),
            None => true,
        }
        &&& match self.init_age {
            Some(m) => m.age.wf(),
            None => true,
        }
        &&& match self.init_lifetime {
            Some(m) => m.lifetime.wf(),
            None => true,
        }
        &&& match &self.render_color_over_lifetime {
            Some(g) => g.wf(),
            None => true,
        }
        &&& match &self.render_size_over_lifetime {
            Some(g) => g.wf(),
            None => true,
        }
    }
}

impl Default for REffect {
    /// An empty, unnamed effect: every optional slot absent, the default
    /// circle position generator, no texture, no billboard.
    fn default() -> (r: Self)
        ensures
            r@.name == Seq::<u8>::empty(),
            r.capacity == 0,
            r.spawner == spawner_default(),
            r.simulation_space == SimulationSpace::Global,
            r.simulation_condition == SimulationCondition::WhenVisible,
            r.init_position == init_position_default(),
            r.init_velocity is None,
            r.init_size is None,
            r.init_age is None,
            r.init_lifetime is None,
            r.update_accel is None,
            r.update_force_field is None,
            r.update_linear_drag is None,
            r.update_aabb_kill is None,
            r@.render_particle_texture is Unset,
            r.render_set_color is None,
            r.render_color_over_lifetime is None,
            r.render_set_size is None,
            r.render_size_over_lifetime is None,
            !r.render_billboard,
            r.render_orient_along_velocity is None,
            r.wf(),
    {
        REffect {
            name: Vec::new(),
            capacity: 0,
            spawner: Spawner::default(),
            simulation_space: SimulationSpace::Global,
            simulation_condition: SimulationCondition::WhenVisible,
            init_position: InitPosition::default(),
            init_velocity: None,
            init_size: None,
            init_age: None,
            init_lifetime: None,
            update_accel: None,
            update_force_field: None,
            update_linear_drag: None,
            update_aabb_kill: None,
            render_particle_texture: ParticleTexture::Unset,
            render_set_color: None,
            render_color_over_lifetime: None,
            render_set_size: None,
            render_size_over_lifetime: None,
            render_billboard: false,
            render_orient_along_velocity: None,
        }
    }
}

/// One stage of the runtime pipeline's initial phase.
#[derive(Clone, Copy, Debug, PartialEq, Eq, Structural)]
pub enum InitModifier {
    Position(InitPosition),
    Velocity(InitVelocity),
    Size(InitSizeModifier),
    Age(InitAgeModifier),
    Lifetime(InitLifetimeModifier),
}

/// One stage of the runtime pipeline's update phase.
#[derive(Clone, Copy, Debug, PartialEq, Eq, Structural)]
pub enum UpdateModifier {
    Accel(UpdateAccel),
    ForceField(ForceFieldModifier),
    LinearDrag(LinearDragModifier),
    AabbKill(AabbKillModifier),
}

/// One stage of the runtime pipeline's render phase. Gradients arrive here
/// as their interpolation-ready keyframe sequences.
#[derive(Clone, Debug)]
pub enum RenderModifier {
    ParticleTexture(u64),
    SetColor(SetColorModifier),
    ColorOverLifetime(Vec<GradientKey<Rgba>>),
    SetSize(SetSizeModifier),
    SizeOverLifetime(Vec<GradientKey<Size2>>),
    Billboard,
    OrientAlongVelocity(OrientAlongVelocityModifier),
}

/// The ghost shape of a render stage.
pub enum RenderModifierView {
    ParticleTexture(u64),
    SetColor(SetColorModifier),
    ColorOverLifetime(Seq<GradientKey<Rgba>>),
    SetSize(SetSizeModifier),
    SizeOverLifetime(Seq<GradientKey<Size2>>),
    Billboard,
    OrientAlongVelocity(OrientAlongVelocityModifier),
}

/// The ghost shape of one render stage.
pub open spec fn render_mod_view(m: RenderModifier) -> RenderModifierView {
    match m {
        RenderModifier::ParticleTexture(h) => RenderModifierView::ParticleTexture(h),
        RenderModifier::SetColor(c) => RenderModifierView::SetColor(c),
        RenderModifier::ColorOverLifetime(ks) => RenderModifierView::ColorOverLifetime(ks@),
        RenderModifier::SetSize(s) => RenderModifierView::SetSize(s),
        RenderModifier::SizeOverLifetime(ks) => RenderModifierView::SizeOverLifetime(ks@),
        RenderModifier::Billboard => RenderModifierView::Billboard,
        RenderModifier::OrientAlongVelocity(o) => RenderModifierView::OrientAlongVelocity(o),
    }
}

/// The ghost shapes of a render phase, in stage order.
pub open spec fn render_views(s: Seq<RenderModifier>) -> Seq<RenderModifierView> {
    s.map_values(|m: RenderModifier| render_mod_view(m))
}

/// The runtime pipeline the engine consumes: the effect's identity and
/// spawning data beside the three phases' stages in document order.
#[derive(Clone, Debug)]
pub struct EffectAsset {
    pub name: Vec<u8>,
    pub capacity: u32,
    pub spawner: Spawner,
    pub simulation_space: SimulationSpace,
    pub simulation_condition: SimulationCondition,
    pub init_modifiers: Vec<InitModifier>,
    pub update_modifiers: Vec<UpdateModifier>,
    pub render_modifiers: Vec<RenderModifier>,
}

/// The initial phase an effect definition builds: the one required position
/// generator first, then each populated optional slot in slot order.
pub open spec fn spec_init_modifiers(e: EffectView) -> Seq<InitModifier> {
    seq![InitModifier::Position(e.init_position)] + (match e.init_velocity {
        Some(v) => seq![InitModifier::Velocity(v)],
        None => Seq::empty(),
    }) + (match e.init_size {
        Some(m) => seq![InitModifier::Size(m)],
        None => Seq::empty(),
    }) + (match e.init_age {
        Some(m) => seq![InitModifier::Age(m)],
        None => Seq::empty(),
    }) + (match e.init_lifetime {
        Some(m) => seq![InitModifier::Lifetime(m)],
        None => Seq::empty(),
    })
}

/// The update phase an effect definition builds, in slot order.
pub open spec fn spec_update_modifiers(e: EffectView) -> Seq<UpdateModifier> {
    (match e.update_accel {
        Some(m) => seq![UpdateModifier::Accel(m)],
        None => Seq::empty(),
    }) + (match e.update_force_field {
        Some(m) => seq![UpdateModifier::ForceField(m)],
        None => Seq::empty(),
    }) + (match e.update_linear_drag {
        Some(m) => seq![UpdateModifier::LinearDrag(m)],
        None => Seq::empty(),
    }) + (match e.update_aabb_kill {
        Some(m) => seq![UpdateModifier::AabbKill(m)],
        None => Seq::empty(),
    })
}

/// The render phase an effect definition builds, in slot order. A texture
/// still in path form was never resolved at load time: a configuration
/// error, so the stage is omitted (and logged by the caller), never a
/// failure. The billboard stage appears only when its flag is set.
pub open spec fn spec_render_modifiers(e: EffectView) -> Seq<RenderModifierView> {
    (match e.render_particle_texture {
        TextureView::Texture(h) => seq![RenderModifierView::ParticleTexture(h)],
        _ => Seq::empty(),
    }) + (match e.render_set_color {
        Some(m) => seq![RenderModifierView::SetColor(m)],
        None => Seq::empty(),
    }) + (match e.render_color_over_lifetime {
        Some(ks) => seq![RenderModifierView::ColorOverLifetime(ks)],
        None => Seq::empty(),
    }) + (match e.render_set_size {
        Some(m) => seq![RenderModifierView::SetSize(m)],
        None => Seq::empty(),
    }) + (match e.render_size_over_lifetime {
        Some(ks) => seq![RenderModifierView::SizeOverLifetime(ks)],
        None => Seq::empty(),
    }) + (if e.render_billboard {
        seq![RenderModifierView::Billboard]
    } else {
        Seq::empty()
    }) + (match e.render_orient_along_velocity {
        Some(m) => seq![RenderModifierView::OrientAlongVelocity(m)],
        None => Seq::empty(),
    })
}

impl REffect {
    /// The initial phase's stages, in slot order.
    fn build_init_modifiers(&self) -> (v: Vec<InitModifier>)
        ensures
            v@ == spec_init_modifiers(self@),
    {
        let mut init: Vec<InitModifier> = Vec::new();
        init.push(InitModifier::Position(self.init_position));
        if let Some(m) = &self.init_velocity {
            init.push(InitModifier::Velocity(*m));
        }
        if let Some(m) = &self.init_size {
            init.push(InitModifier::Size(*m));
        }
        if let Some(m) = &self.init_age {
            init.push(InitModifier::Age(*m));
        }
        if let Some(m) = &self.init_lifetime {
            init.push(InitModifier::Lifetime(*m));
        }
        proof {
            assert(init@ =~= spec_init_modifiers(self@));
        }
        init
    }

    /// The update phase's stages, in slot order.
    fn build_update_modifiers(&self) -> (v: Vec<UpdateModifier>)
        ensures
            v@ == spec_update_modifiers(self@),
    {
        let mut update: Vec<UpdateModifier> = Vec::new();
        if let Some(m) = &self.update_accel {
            update.push(UpdateModifier::Accel(*m));
        }
        if let Some(m) = &self.update_force_field {
            update.push(UpdateModifier::ForceField(*m));
        }
        if let Some(m) = &self.update_linear_drag {
            update.push(UpdateModifier::LinearDrag(*m));
        }
        if let Some(m) = &self.update_aabb_kill {
            update.push(UpdateModifier::AabbKill(*m));
        }
        proof {
            assert(update@ =~= spec_update_modifiers(self@));
        }
        update
    }

    /// The render phase's stages, in slot order.
    #[verifier::rlimit(80)]
    fn build_render_modifiers(&self) -> (v: Vec<RenderModifier>)
        ensures
            render_views(v@) == spec_render_modifiers(self@),
    {
        let mut render: Vec<RenderModifier> = Vec::new();
        match &self.render_particle_texture {
            ParticleTexture::Texture(h) => {
                render.push(RenderModifier::ParticleTexture(*h));
            },
            ParticleTexture::Path(_) => {
                // Never resolved at load time: omitted, the caller logs it.
            },
            ParticleTexture::Unset => {},
        }
        if let Some(m) = &self.render_set_color {
            render.push(RenderModifier::SetColor(*m));
        }
        if let Some(g) = &self.render_color_over_lifetime {
            render.push(RenderModifier::ColorOverLifetime(g.to_keyframes()));
        }
        if let Some(m) = &self.render_set_size {
            render.push(RenderModifier::SetSize(*m));
        }
        if let Some(g) = &self.render_size_over_lifetime {
            render.push(RenderModifier::SizeOverLifetime(g.to_keyframes()));
        }
        if self.render_billboard {
            render.push(RenderModifier::Billboard);
        }
        if let Some(m) = &self.render_orient_along_velocity {
            render.push(RenderModifier::OrientAlongVelocity(*m));
        }
        proof {
            assert(render_views(render@) =~= spec_render_modifiers(self@));
        }
        render
    }

    /// Build the runtime pipeline: identity and spawning copied over, then
    /// every populated slot's stage appended in document order — init,
    /// update, render, each in its fixed slot order. The conversion is
    /// total: each slot is independent, and the pipeline always builds.
    pub fn to_effect_asset(&self) -> (asset: EffectAsset)
        ensures
            asset.name@ == self@.name,
            asset.capacity == self.capacity,
            asset.spawner == self.spawner,
            asset.simulation_space == self.simulation_space,
            asset.simulation_condition == self.simulation_condition,
            asset.init_modifiers@ == spec_init_modifiers(self@),
            asset.update_modifiers@ == spec_update_modifiers(self@),
            render_views(asset.render_modifiers@) == spec_render_modifiers(self@),
    {
        let init = self.build_init_modifiers();
        let update = self.build_update_modifiers();
        let render = self.build_render_modifiers();
        let name = vstd::slice::slice_to_vec(self.name.as_slice());
        EffectAsset {
            name,
            capacity: self.capacity,
            spawner: self.spawner,
            simulation_space: self.simulation_space,
            simulation_condition: self.simulation_condition,
            init_modifiers: init,
            update_modifiers: update,
            render_modifiers: render,
        }
    }
}

/// The runtime pipeline of any effect definition opens its initial phase
/// with the one required position-generator stage, and no other stage of
/// the pipeline is a position generator. (That the conversion never fails
/// is its signature: it takes any definition and returns a pipeline.)
pub proof fn lemma_pipeline_position_stage(e: EffectView)
    ensures
        spec_init_modifiers(e).len() >= 1,
        spec_init_modifiers(e)[0] == InitModifier::Position(e.init_position),
        forall|i: int|
            1 <= i < spec_init_modifiers(e).len() ==> !((#[trigger] spec_init_modifiers(e)[i])
                is Position),
{
    let s = spec_init_modifiers(e);
    assert forall|i: int| 1 <= i < s.len() implies !((#[trigger] s[i]) is Position) by {
        let t1: Seq<InitModifier> = match e.init_velocity {
            Some(v) => seq![InitModifier::Velocity(v)],
            None => Seq::empty(),
        };
        let t2: Seq<InitModifier> = match e.init_size {
            Some(m) => seq![InitModifier::Size(m)],
            None => Seq::empty(),
        };
        let t3: Seq<InitModifier> = match e.init_age {
            Some(m) => seq![InitModifier::Age(m)],
            None => Seq::empty(),
        };
        let t4: Seq<InitModifier> = match e.init_lifetime {
            Some(m) => seq![InitModifier::Lifetime(m)],
            None => Seq::empty(),
        };
        assert(s == seq![InitModifier::Position(e.init_position)] + t1 + t2 + t3 + t4);
        assert(forall|j: int| 0 <= j < t1.len() ==> !((#[trigger] t1[j]) is Position));
        assert(forall|j: int| 0 <= j < t2.len() ==> !((#[trigger] t2[j]) is Position));
        assert(forall|j: int| 0 <= j < t3.len() ==> !((#[trigger] t3[j]) is Position));
        assert(forall|j: int| 0 <= j < t4.len() ==> !((#[trigger] t4[j]) is Position));
    }
}

/// What [`Spawner::default`] builds.
pub open spec fn spawner_default() -> Spawner {
    Spawner {
        num_particles: Value::Single(1),
        spawn_time: Value::Single(0),
        period: Value::Single(UNBOUNDED),
        starts_active: true,
        starts_immediately: true,
    }
}

/// What [`InitPosition::default`] builds.
pub open spec fn init_position_default() -> InitPosition {
    InitPosition::Circle(
        InitPositionCircle {
            center: Vec3i { x: 0, y: 0, z: 0 },
            axis: Vec3i { x: 0, y: 0, z: UNIT as i32 },
            radius: UNIT,
            dimension: ShapeDimension::Surface,
        },
    )
}

} // verus!
