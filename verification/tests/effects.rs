//! The effect definition, its runtime pipeline, and its text form.

use han_ed::asset::{save_effect, spawn_circle, PathError};
use han_ed::codec::{enc_u32, parse, serialize};
use han_ed::gradient::{ColorGradient, POS_HALF};
use han_ed::reffect::{
    AccelModifier, InitLifetimeModifier, InitModifier, InitPosition, ParticleTexture, REffect,
    RenderModifier, SimulationSpace, UpdateAccel, UpdateModifier, AccelKind,
};
use han_ed::value::{Rgba, Value, Vec3i, UNIT};

fn b(s: &str) -> Vec<u8> {
    s.as_bytes().to_vec()
}

fn white() -> Rgba {
    Rgba { r: 65535, g: 65535, b: 65535, a: 65535 }
}

fn sample_effect() -> REffect {
    let mut e = REffect::default();
    e.name = b("smoke");
    e.capacity = 4096;
    e.simulation_space = SimulationSpace::Local;
    e.init_lifetime = Some(InitLifetimeModifier { lifetime: Value::Uniform(UNIT, 3 * UNIT) });
    e.update_accel = Some(UpdateAccel::Linear(AccelModifier {
        accel: Vec3i { x: 0, y: -(UNIT as i32), z: 0 },
    }));
    e.render_particle_texture = ParticleTexture::Path(b("images/smoke.png"));
    e.render_color_over_lifetime = Some(ColorGradient::default());
    e.render_billboard = true;
    e
}

#[test]
fn numbers_write_as_fixed_width_hex() {
    let mut out: Vec<u8> = Vec::new();
    enc_u32(&mut out, 0xa3f0);
    assert_eq!(out, b("0000a3f0"));
}

#[test]
fn round_trip_with_path_texture() {
    let e = sample_effect();
    let bytes = serialize(&e);
    let d = parse(&bytes).expect("canonical form parses");
    assert_eq!(d.name, e.name);
    assert_eq!(d.capacity, e.capacity);
    assert_eq!(d.spawner, e.spawner);
    assert_eq!(d.simulation_space, e.simulation_space);
    assert_eq!(d.simulation_condition, e.simulation_condition);
    assert_eq!(d.init_position, e.init_position);
    assert_eq!(d.init_velocity, e.init_velocity);
    assert_eq!(d.init_lifetime, e.init_lifetime);
    assert_eq!(d.update_accel, e.update_accel);
    assert_eq!(d.render_particle_texture, e.render_particle_texture);
    assert_eq!(d.render_billboard, e.render_billboard);
    let dg = d.render_color_over_lifetime.as_ref().expect("gradient kept");
    assert_eq!(dg.len(), 1);
    assert_eq!(dg.key(0).pos, POS_HALF);
    assert_eq!(dg.key(0).value, white());
}

#[test]
fn round_trip_without_texture() {
    let mut e = sample_effect();
    e.render_particle_texture = ParticleTexture::Unset;
    let bytes = serialize(&e);
    let d = parse(&bytes).expect("canonical form parses");
    assert_eq!(d.render_particle_texture, ParticleTexture::Unset);
    assert_eq!(d.name, e.name);
}

#[test]
fn parse_rejects_garbage_and_truncation() {
    assert!(parse(&b("not an effect")).is_err());
    let e = sample_effect();
    let mut bytes = serialize(&e);
    bytes.pop();
    assert!(parse(&bytes).is_err());
    let mut longer = serialize(&e);
    longer.push(0);
    assert!(parse(&longer).is_err());
}

#[test]
fn pipeline_opens_with_the_position_stage() {
    let e = sample_effect();
    let asset = e.to_effect_asset();
    assert_eq!(asset.name, e.name);
    assert_eq!(asset.capacity, e.capacity);
    assert!(matches!(asset.init_modifiers[0], InitModifier::Position(_)));
    let positions = asset
        .init_modifiers
        .iter()
        .filter(|m| matches!(m, InitModifier::Position(_)))
        .count();
    assert_eq!(positions, 1);
}

#[test]
fn pipeline_stages_follow_slot_order() {
    let e = sample_effect();
    let asset = e.to_effect_asset();
    // Init: the position generator and the lifetime slot.
    assert_eq!(asset.init_modifiers.len(), 2);
    assert!(matches!(asset.init_modifiers[1], InitModifier::Lifetime(_)));
    // Update: only the acceleration slot.
    assert_eq!(asset.update_modifiers.len(), 1);
    assert!(matches!(asset.update_modifiers[0], UpdateModifier::Accel(_)));
    // Render: a path-form texture is omitted (never resolved), then the
    // color gradient and the billboard stage.
    assert_eq!(asset.render_modifiers.len(), 2);
    assert!(matches!(asset.render_modifiers[0], RenderModifier::ColorOverLifetime(_)));
    assert!(matches!(asset.render_modifiers[1], RenderModifier::Billboard));
}

#[test]
fn resolved_texture_reaches_the_pipeline() {
    let mut e = sample_effect();
    e.resolve_texture(77);
    assert_eq!(e.render_particle_texture, ParticleTexture::Texture(77));
    assert_eq!(e.texture_dependency(), None);
    let asset = e.to_effect_asset();
    assert!(matches!(asset.render_modifiers[0], RenderModifier::ParticleTexture(77)));
}

#[test]
fn texture_dependency_reports_the_pending_path() {
    let e = sample_effect();
    assert_eq!(e.texture_dependency(), Some(&b("images/smoke.png")));
    assert_eq!(e.render_particle_texture.handle(), None);
    let mut e2 = e;
    e2.resolve_texture(9);
    assert_eq!(e2.render_particle_texture.handle(), Some(9));
}

#[test]
fn accel_selector_switches_variants() {
    let mut a = UpdateAccel::Linear(AccelModifier { accel: Vec3i { x: 1, y: 2, z: 3 } });
    assert!(!a.select(AccelKind::Linear));
    assert_eq!(a, UpdateAccel::Linear(AccelModifier { accel: Vec3i { x: 1, y: 2, z: 3 } }));
    assert!(a.select(AccelKind::Radial));
    assert!(matches!(a, UpdateAccel::Radial(_)));
}

#[test]
fn save_rewrites_the_texture_to_its_origin_path() {
    let mut e = sample_effect();
    e.resolve_texture(5);
    let origin = b("images/smoke.png");
    let (full, bytes) =
        save_effect(&e, Some(&origin), &b("/assets"), &b("smoke.han")).expect("save prepares");
    assert_eq!(full, b("/assets/smoke.han"));
    let d = parse(&bytes).expect("saved bytes parse");
    assert_eq!(d.render_particle_texture, ParticleTexture::Path(origin));
}

#[test]
fn save_refuses_a_resolved_texture_without_an_origin() {
    // Writing the handle itself to disk is never allowed: without the
    // origin path the save is rejected, so the on-disk form stays free of
    // resolved handles.
    let mut e = sample_effect();
    e.resolve_texture(5);
    let r = save_effect(&e, None, &b("/assets"), &b("smoke.han"));
    assert_eq!(r, Err(PathError::UnknownOrigin));
}

#[test]
fn save_refuses_an_unportable_origin_path() {
    let mut e = sample_effect();
    e.resolve_texture(5);
    let origin = b("/absolute/origin.png");
    let r = save_effect(&e, Some(&origin), &b("/assets"), &b("smoke.han"));
    assert_eq!(r, Err(PathError::UnportablePath));
}

#[test]
fn save_without_a_resolved_texture_serializes_as_is() {
    let e = sample_effect();
    let (full, bytes) = save_effect(&e, None, &b("/assets"), &b("smoke.han")).expect("saves");
    assert_eq!(full, b("/assets/smoke.han"));
    let d = parse(&bytes).expect("parses");
    assert_eq!(d.render_particle_texture, e.render_particle_texture);
}

#[test]
fn texture_picker_switches_and_clears() {
    let mut e = sample_effect();
    assert!(e.select_texture(Some(4)));
    assert_eq!(e.render_particle_texture, ParticleTexture::Texture(4));
    assert!(!e.select_texture(Some(4)));
    assert!(e.select_texture(None));
    assert_eq!(e.render_particle_texture, ParticleTexture::Unset);
    assert!(!e.select_texture(None));
}

#[test]
fn missing_lifetime_is_flagged() {
    let mut e = sample_effect();
    assert!(!e.needs_lifetime_warning());
    e.init_lifetime = None;
    assert!(e.needs_lifetime_warning());
}

#[test]
fn demo_effect_shape() {
    let e = spawn_circle(12);
    assert_eq!(e.name, b("default"));
    assert_eq!(e.capacity, 32768);
    assert!(matches!(e.init_position, InitPosition::Circle(_)));
    assert_eq!(e.render_particle_texture, ParticleTexture::Texture(12));
    assert!(e.init_velocity.is_some());
    assert!(e.init_lifetime.is_some());
    assert!(e.render_color_over_lifetime.is_some());
}
