//! The text form of an effect definition.
//!
//! An effect file is ASCII: a version marker, then every field of the
//! definition in its fixed slot order. Numbers are fixed-width lowercase
//! hexadecimal, byte strings carry their length, optional slots and enum
//! variants open with a tag byte. The parser accepts exactly this canonical
//! form and rejects everything else with the offset where it gave up;
//! parsing what [`serialize`] wrote yields the definition back unchanged.

use vstd::prelude::*;
use crate::gradient::{ColorGradient, GradientKey, SizeGradient, POS_ONE};
use crate::value::{Rgba, Size2, Value, Vec3i};
use crate::reffect::{
    AabbKillModifier, AccelModifier, EffectView, ForceFieldModifier, InitAgeModifier, InitPosition,
    InitPositionCircle, InitPositionCone, InitPositionSphere, InitLifetimeModifier,
    InitSizeModifier, InitVelocity, InitVelocityCircle, InitVelocitySphere, InitVelocityTangent,
    LinearDragModifier, OrientAlongVelocityModifier, ParticleTexture, RadialAccelModifier,
    REffect, SetColorModifier, SetSizeModifier, ShapeDimension, SimulationCondition,
    SimulationSpace, Spawner, TangentAccelModifier, TextureView, UpdateAccel,
};

verus! {

/// One hexadecimal digit, lowercase.
pub open spec fn hex_digit(d: u32) -> u8
    recommends
        d < 16,
{
    if d < 10 {
        (48 + d) as u8
    } else {
        (87 + d) as u8
    }
}

/// The value of a hexadecimal digit byte, or -1.
pub open spec fn hex_val(b: u8) -> int {
    if 48 <= b && b <= 57 {
        b - 48
    } else if 97 <= b && b <= 102 {
        b - 87
    } else {
        -1
    }
}

/// A 32-bit number as eight hexadecimal digits, most significant first.
#[verifier::opaque]
pub open spec fn spec_enc_u32(n: u32) -> Seq<u8> {
    seq![
        hex_digit((n >> 28) & 15),
        hex_digit((n >> 24) & 15),
        hex_digit((n >> 20) & 15),
        hex_digit((n >> 16) & 15),
        hex_digit((n >> 12) & 15),
        hex_digit((n >> 8) & 15),
        hex_digit((n >> 4) & 15),
        hex_digit(n & 15),
    ]
}

/// Read eight hexadecimal digits as a 32-bit number, returning the rest of
/// the input.
#[verifier::opaque]
pub open spec fn spec_parse_u32(s: Seq<u8>) -> Option<(u32, Seq<u8>)> {
    if s.len() < 8 {
        None
    } else {
        let v7 = hex_val(s[0]);
        let v6 = hex_val(s[1]);
        let v5 = hex_val(s[2]);
        let v4 = hex_val(s[3]);
        let v3 = hex_val(s[4]);
        let v2 = hex_val(s[5]);
        let v1 = hex_val(s[6]);
        let v0 = hex_val(s[7]);
        if v7 >= 0 && v6 >= 0 && v5 >= 0 && v4 >= 0 && v3 >= 0 && v2 >= 0 && v1 >= 0 && v0 >= 0 {
            Some(
                (
                    (v7 * 268435456 + v6 * 16777216 + v5 * 1048576 + v4 * 65536 + v3 * 4096 + v2
                        * 256 + v1 * 16 + v0) as u32,
                    s.skip(8),
                ),
            )
        } else {
            None
        }
    }
}

/// Reading back what was written yields the number and the rest.
pub proof fn lemma_rt_u32(n: u32, rest: Seq<u8>)
    ensures
        spec_parse_u32(spec_enc_u32(n) + rest) == Some((n, rest)),
{
    reveal(spec_enc_u32);
    reveal(spec_parse_u32);
    let e = spec_enc_u32(n);
    let s = e + rest;
    assert((n >> 28) & 15 < 16 && (n >> 24) & 15 < 16 && (n >> 20) & 15 < 16 && (n >> 16) & 15 < 16
        && (n >> 12) & 15 < 16 && (n >> 8) & 15 < 16 && (n >> 4) & 15 < 16 && n & 15 < 16)
        by (bit_vector);
    assert(((n >> 28) & 15) * 268435456 + ((n >> 24) & 15) * 16777216 + ((n >> 20) & 15) * 1048576
        + ((n >> 16) & 15) * 65536 + ((n >> 12) & 15) * 4096 + ((n >> 8) & 15) * 256 + ((n >> 4)
        & 15) * 16 + (n & 15) == n) by (bit_vector);
    assert(s.len() == 8 + rest.len());
    assert(s[0] == e[0] && s[1] == e[1] && s[2] == e[2] && s[3] == e[3] && s[4] == e[4] && s[5]
        == e[5] && s[6] == e[6] && s[7] == e[7]);
    assert(s.skip(8) =~= rest);
}

/// Write a 32-bit number as eight hexadecimal digits.
pub fn enc_u32(out: &mut Vec<u8>, n: u32)
    ensures
        final(out)@ == old(out)@ + spec_enc_u32(n),
{
    proof {
        reveal(spec_enc_u32);
        assert((n >> 28) & 15 < 16 && (n >> 24) & 15 < 16 && (n >> 20) & 15 < 16 && (n >> 16) & 15
            < 16 && (n >> 12) & 15 < 16 && (n >> 8) & 15 < 16 && (n >> 4) & 15 < 16 && n & 15 < 16)
            by (bit_vector);
    }
    out.push(hex_digit_x((n >> 28) & 15));
    out.push(hex_digit_x((n >> 24) & 15));
    out.push(hex_digit_x((n >> 20) & 15));
    out.push(hex_digit_x((n >> 16) & 15));
    out.push(hex_digit_x((n >> 12) & 15));
    out.push(hex_digit_x((n >> 8) & 15));
    out.push(hex_digit_x((n >> 4) & 15));
    out.push(hex_digit_x(n & 15));
    proof {
        assert(out@ =~= old(out)@ + spec_enc_u32(n));
    }
}

/// One hexadecimal digit byte.
fn hex_digit_x(d: u32) -> (b: u8)
    requires
        d < 16,
    ensures
        b == hex_digit(d),
{
    if d < 10 {
        (48 + d) as u8
    } else {
        (87 + d) as u8
    }
}

/// The value of a hexadecimal digit byte, if it is one.
fn hex_val_x(b: u8) -> (r: Option<u32>)
    ensures
        match r {
            Some(v) => hex_val(b) == v && v < 16,
            None => hex_val(b) < 0,
        },
{
    if 48 <= b && b <= 57 {
        Some((b - 48) as u32)
    } else if 97 <= b && b <= 102 {
        Some((b - 87) as u32)
    } else {
        None
    }
}

/// Read eight hexadecimal digits at `pos`.
#[verifier::rlimit(100)]
pub fn parse_u32(s: &Vec<u8>, pos: usize) -> (r: Option<(u32, usize)>)
    requires
        pos <= s@.len(),
    ensures
        match r {
            Some(t) => pos < t.1 <= s@.len() && spec_parse_u32(s@.skip(pos as int)) == Some(
                (t.0, s@.skip(t.1 as int)),
            ),
            None => spec_parse_u32(s@.skip(pos as int)) is None,
        },
{
    proof {
        reveal(spec_parse_u32);
    }
    if s.len() - pos < 8 {
        return None;
    }
    let v7 = hex_val_x(s[pos]);
    let v6 = hex_val_x(s[pos + 1]);
    let v5 = hex_val_x(s[pos + 2]);
    let v4 = hex_val_x(s[pos + 3]);
    let v3 = hex_val_x(s[pos + 4]);
    let v2 = hex_val_x(s[pos + 5]);
    let v1 = hex_val_x(s[pos + 6]);
    let v0 = hex_val_x(s[pos + 7]);
    proof {
        let t = s@.skip(pos as int);
        assert(t[0] == s@[pos as int] && t[1] == s@[pos + 1] && t[2] == s@[pos + 2] && t[3] == s@[
            pos + 3
        ] && t[4] == s@[pos + 4] && t[5] == s@[pos + 5] && t[6] == s@[pos + 6] && t[7] == s@[pos
            + 7]);
    }
    match (v7, v6, v5, v4, v3, v2, v1, v0) {
        (Some(a7), Some(a6), Some(a5), Some(a4), Some(a3), Some(a2), Some(a1), Some(a0)) => {
            let n: u32 = a7 * 268435456 + a6 * 16777216 + a5 * 1048576 + a4 * 65536 + a3 * 4096
                + a2 * 256 + a1 * 16 + a0;
            proof {
                assert(s@.skip(pos as int).skip(8) =~= s@.skip(pos + 8));
            }
            Some((n, pos + 8))
        },
        _ => None,
    }
}

/// A signed number rides on its 32-bit two's-complement image.
pub open spec fn spec_enc_i32(x: i32) -> Seq<u8> {
    spec_enc_u32(x as u32)
}

/// Read a signed 32-bit number.
pub open spec fn spec_parse_i32(s: Seq<u8>) -> Option<(i32, Seq<u8>)> {
    match spec_parse_u32(s) {
        Some(t) => Some(((t.0 as i32), t.1)),
        None => None,
    }
}

pub proof fn lemma_rt_i32(x: i32, rest: Seq<u8>)
    ensures
        spec_parse_i32(spec_enc_i32(x) + rest) == Some((x, rest)),
{
    lemma_rt_u32(x as u32, rest);
    assert(x as u32 as i32 == x) by (bit_vector);
}

/// Write a signed 32-bit number.
pub fn enc_i32(out: &mut Vec<u8>, x: i32)
    ensures
        final(out)@ == old(out)@ + spec_enc_i32(x),
{
    enc_u32(out, x as u32);
}

/// Read a signed 32-bit number at `pos`.
pub fn parse_i32(s: &Vec<u8>, pos: usize) -> (r: Option<(i32, usize)>)
    requires
        pos <= s@.len(),
    ensures
        match r {
            Some(t) => pos < t.1 <= s@.len() && spec_parse_i32(s@.skip(pos as int)) == Some(
                (t.0, s@.skip(t.1 as int)),
            ),
            None => spec_parse_i32(s@.skip(pos as int)) is None,
        },
{
    match parse_u32(s, pos) {
        Some((n, p)) => Some((n as i32, p)),
        None => None,
    }
}

/// A single expected byte: a field or variant tag.
pub open spec fn spec_parse_tag(s: Seq<u8>, t: u8) -> Option<Seq<u8>> {
    if s.len() > 0 && s[0] == t {
        Some(s.skip(1))
    } else {
        None
    }
}

pub proof fn lemma_rt_tag(t: u8, rest: Seq<u8>)
    ensures
        spec_parse_tag(seq![t] + rest, t) == Some(rest),
{
    assert((seq![t] + rest).skip(1) =~= rest);
}

/// Expect the byte `t` at `pos`.
pub fn parse_tag(s: &Vec<u8>, pos: usize, t: u8) -> (r: Option<usize>)
    requires
        pos <= s@.len(),
    ensures
        match r {
            Some(p) => pos < p <= s@.len() && spec_parse_tag(s@.skip(pos as int), t) == Some(
                s@.skip(p as int),
            ),
            None => spec_parse_tag(s@.skip(pos as int), t) is None,
        },
{
    if pos < s.len() && s[pos] == t {
        proof {
            assert(s@.skip(pos as int).skip(1) =~= s@.skip(pos + 1));
        }
        Some(pos + 1)
    } else {
        None
    }
}

/// A boolean as one digit byte.
pub open spec fn spec_enc_bool(b: bool) -> Seq<u8> {
    if b {
        seq![49u8]
    } else {
        seq![48u8]
    }
}

/// Read a boolean.
pub open spec fn spec_parse_bool(s: Seq<u8>) -> Option<(bool, Seq<u8>)> {
    if s.len() > 0 && s[0] == 49 {
        Some((true, s.skip(1)))
    } else if s.len() > 0 && s[0] == 48 {
        Some((false, s.skip(1)))
    } else {
        None
    }
}

pub proof fn lemma_rt_bool(b: bool, rest: Seq<u8>)
    ensures
        spec_parse_bool(spec_enc_bool(b) + rest) == Some((b, rest)),
{
    assert((spec_enc_bool(b) + rest).skip(1) =~= rest);
}

/// Write a boolean.
pub fn enc_bool(out: &mut Vec<u8>, b: bool)
    ensures
        final(out)@ == old(out)@ + spec_enc_bool(b),
{
    out.push(if b {
        49
    } else {
        48
    });
    proof {
        assert(out@ =~= old(out)@ + spec_enc_bool(b));
    }
}

/// Read a boolean at `pos`.
pub fn parse_bool(s: &Vec<u8>, pos: usize) -> (r: Option<(bool, usize)>)
    requires
        pos <= s@.len(),
    ensures
        match r {
            Some(t) => pos < t.1 <= s@.len() && spec_parse_bool(s@.skip(pos as int)) == Some(
                (t.0, s@.skip(t.1 as int)),
            ),
            None => spec_parse_bool(s@.skip(pos as int)) is None,
        },
{
    if pos < s.len() && (s[pos] == 49 || s[pos] == 48) {
        proof {
            assert(s@.skip(pos as int).skip(1) =~= s@.skip(pos + 1));
        }
        Some((s[pos] == 49, pos + 1))
    } else {
        None
    }
}

/// A byte string: its length, then its bytes raw.
#[verifier::opaque]
pub open spec fn spec_enc_bytes(v: Seq<u8>) -> Seq<u8>
    recommends
        v.len() <= u32::MAX,
{
    spec_enc_u32(v.len() as u32) + v
}

/// Read a length-prefixed byte string.
#[verifier::opaque]
pub open spec fn spec_parse_bytes(s: Seq<u8>) -> Option<(Seq<u8>, Seq<u8>)> {
    match spec_parse_u32(s) {
        Some(t) => {
            if t.1.len() >= t.0 {
                Some((t.1.take(t.0 as int), t.1.skip(t.0 as int)))
            } else {
                None
            }
        },
        None => None,
    }
}

pub proof fn lemma_rt_bytes(v: Seq<u8>, rest: Seq<u8>)
    requires
        v.len() <= u32::MAX,
    ensures
        spec_parse_bytes(spec_enc_bytes(v) + rest) == Some((v, rest)),
{
    reveal(spec_enc_bytes);
    reveal(spec_parse_bytes);
    assert(spec_enc_bytes(v) + rest =~= spec_enc_u32(v.len() as u32) + (v + rest));
    lemma_rt_u32(v.len() as u32, v + rest);
    assert((v + rest).take(v.len() as int) =~= v);
    assert((v + rest).skip(v.len() as int) =~= rest);
}

/// Write a length-prefixed byte string.
pub fn enc_bytes(out: &mut Vec<u8>, v: &Vec<u8>)
    requires
        v@.len() <= u32::MAX,
    ensures
        final(out)@ == old(out)@ + spec_enc_bytes(v@),
{
    proof {
        reveal(spec_enc_bytes);
    }
    enc_u32(out, v.len() as u32);
    let mut i: usize = 0;
    while i < v.len()
        invariant
            i <= v@.len(),
            out@ == old(out)@ + spec_enc_u32(v@.len() as u32) + v@.take(i as int),
        decreases v@.len() - i,
    {
        out.push(v[i]);
        proof {
            assert(old(out)@ + spec_enc_u32(v@.len() as u32) + v@.take(i as int) + seq![v@[i as int]]
                =~= old(out)@ + spec_enc_u32(v@.len() as u32) + v@.take(i + 1));
        }
        i = i + 1;
    }
    proof {
        assert(v@.take(v@.len() as int) =~= v@);
        assert(out@ =~= old(out)@ + spec_enc_bytes(v@));
    }
}

/// Read a length-prefixed byte string at `pos`.
pub fn parse_bytes(s: &Vec<u8>, pos: usize) -> (r: Option<(Vec<u8>, usize)>)
    requires
        pos <= s@.len(),
    ensures
        match r {
            Some(t) => pos < t.1 <= s@.len() && spec_parse_bytes(s@.skip(pos as int)) == Some(
                (t.0@, s@.skip(t.1 as int)),
            ),
            None => spec_parse_bytes(s@.skip(pos as int)) is None,
        },
{
    proof {
        reveal(spec_parse_bytes);
    }
    match parse_u32(s, pos) {
        Some((n, p)) => {
            if s.len() - p >= n as usize {
                let q = p + n as usize;
                let v = vstd::slice::slice_to_vec(vstd::slice::slice_subrange(s.as_slice(), p, q));
                proof {
                    assert(v@ =~= s@.skip(p as int).take(n as int));
                    assert(s@.skip(p as int).skip(n as int) =~= s@.skip(q as int));
                }
                Some((v, q))
            } else {
                None
            }
        },
        None => None,
    }
}

/// A vector: its three components.
#[verifier::opaque]
pub open spec fn spec_enc_vec3(v: Vec3i) -> Seq<u8> {
    spec_enc_i32(v.x) + spec_enc_i32(v.y) + spec_enc_i32(v.z)
}

#[verifier::opaque]
pub open spec fn spec_parse_vec3(s: Seq<u8>) -> Option<(Vec3i, Seq<u8>)> {
    match spec_parse_i32(s) {
        Some(tx) => match spec_parse_i32(tx.1) {
            Some(ty) => match spec_parse_i32(ty.1) {
                Some(tz) => Some((Vec3i { x: tx.0, y: ty.0, z: tz.0 }, tz.1)),
                None => None,
            },
            None => None,
        },
        None => None,
    }
}

pub proof fn lemma_rt_vec3(v: Vec3i, rest: Seq<u8>)
    ensures
        spec_parse_vec3(spec_enc_vec3(v) + rest) == Some((v, rest)),
{
    reveal(spec_enc_vec3);
    reveal(spec_parse_vec3);
    assert(spec_enc_vec3(v) + rest =~= spec_enc_i32(v.x) + (spec_enc_i32(v.y) + (spec_enc_i32(v.z)
        + rest)));
    lemma_rt_i32(v.x, spec_enc_i32(v.y) + (spec_enc_i32(v.z) + rest));
    lemma_rt_i32(v.y, spec_enc_i32(v.z) + rest);
    lemma_rt_i32(v.z, rest);
}

pub fn enc_vec3(out: &mut Vec<u8>, v: Vec3i)
    ensures
        final(out)@ == old(out)@ + spec_enc_vec3(v),
{
    proof {
        reveal(spec_enc_vec3);
    }
    enc_i32(out, v.x);
    enc_i32(out, v.y);
    enc_i32(out, v.z);
    proof {
        assert(out@ =~= old(out)@ + spec_enc_vec3(v));
    }
}

pub fn parse_vec3(s: &Vec<u8>, pos: usize) -> (r: Option<(Vec3i, usize)>)
    requires
        pos <= s@.len(),
    ensures
        match r {
            Some(t) => pos < t.1 <= s@.len() && spec_parse_vec3(s@.skip(pos as int)) == Some(
                (t.0, s@.skip(t.1 as int)),
            ),
            None => spec_parse_vec3(s@.skip(pos as int)) is None,
        },
{
    proof {
        reveal(spec_parse_vec3);
    }
    let (x, p1) = match parse_i32(s, pos) {
        Some(t) => t,
        None => {
            return None;
        },
    };
    let (y, p2) = match parse_i32(s, p1) {
        Some(t) => t,
        None => {
            return None;
        },
    };
    let (z, p3) = match parse_i32(s, p2) {
        Some(t) => t,
        None => {
            return None;
        },
    };
    Some((Vec3i { x, y, z }, p3))
}

/// A color: its four channels, each bounded by the channel maximum.
#[verifier::opaque]
pub open spec fn spec_enc_rgba(c: Rgba) -> Seq<u8> {
    spec_enc_u32(c.r as u32) + spec_enc_u32(c.g as u32) + spec_enc_u32(c.b as u32) + spec_enc_u32(
        c.a as u32,
    )
}

pub open spec fn spec_parse_channel(s: Seq<u8>) -> Option<(u16, Seq<u8>)> {
    match spec_parse_u32(s) {
        Some(t) => {
            if t.0 <= 65535 {
                Some(((t.0 as u16), t.1))
            } else {
                None
            }
        },
        None => None,
    }
}

#[verifier::opaque]
pub open spec fn spec_parse_rgba(s: Seq<u8>) -> Option<(Rgba, Seq<u8>)> {
    match spec_parse_channel(s) {
        Some(tr) => match spec_parse_channel(tr.1) {
            Some(tg) => match spec_parse_channel(tg.1) {
                Some(tb) => match spec_parse_channel(tb.1) {
                    Some(ta) => Some((Rgba { r: tr.0, g: tg.0, b: tb.0, a: ta.0 }, ta.1)),
                    None => None,
                },
                None => None,
            },
            None => None,
        },
        None => None,
    }
}

pub proof fn lemma_rt_channel(c: u16, rest: Seq<u8>)
    ensures
        spec_parse_channel(spec_enc_u32(c as u32) + rest) == Some((c, rest)),
{
    lemma_rt_u32(c as u32, rest);
}

pub proof fn lemma_rt_rgba(c: Rgba, rest: Seq<u8>)
    ensures
        spec_parse_rgba(spec_enc_rgba(c) + rest) == Some((c, rest)),
{
    reveal(spec_enc_rgba);
    reveal(spec_parse_rgba);
    assert(spec_enc_rgba(c) + rest =~= spec_enc_u32(c.r as u32) + (spec_enc_u32(c.g as u32)
        + (spec_enc_u32(c.b as u32) + (spec_enc_u32(c.a as u32) + rest))));
    lemma_rt_channel(c.r, spec_enc_u32(c.g as u32) + (spec_enc_u32(c.b as u32) + (spec_enc_u32(
        c.a as u32,
    ) + rest)));
    lemma_rt_channel(c.g, spec_enc_u32(c.b as u32) + (spec_enc_u32(c.a as u32) + rest));
    lemma_rt_channel(c.b, spec_enc_u32(c.a as u32) + rest);
    lemma_rt_channel(c.a, rest);
}

pub fn enc_rgba(out: &mut Vec<u8>, c: Rgba)
    ensures
        final(out)@ == old(out)@ + spec_enc_rgba(c),
{
    proof {
        reveal(spec_enc_rgba);
    }
    enc_u32(out, c.r as u32);
    enc_u32(out, c.g as u32);
    enc_u32(out, c.b as u32);
    enc_u32(out, c.a as u32);
    proof {
        assert(out@ =~= old(out)@ + spec_enc_rgba(c));
    }
}

fn parse_channel(s: &Vec<u8>, pos: usize) -> (r: Option<(u16, usize)>)
    requires
        pos <= s@.len(),
    ensures
        match r {
            Some(t) => pos < t.1 <= s@.len() && spec_parse_channel(s@.skip(pos as int)) == Some(
                (t.0, s@.skip(t.1 as int)),
            ),
            None => spec_parse_channel(s@.skip(pos as int)) is None,
        },
{
    match parse_u32(s, pos) {
        Some((n, p)) => {
            if n <= 65535 {
                Some((n as u16, p))
            } else {
                None
            }
        },
        None => None,
    }
}

pub fn parse_rgba(s: &Vec<u8>, pos: usize) -> (r: Option<(Rgba, usize)>)
    requires
        pos <= s@.len(),
    ensures
        match r {
            Some(t) => pos < t.1 <= s@.len() && spec_parse_rgba(s@.skip(pos as int)) == Some(
                (t.0, s@.skip(t.1 as int)),
            ),
            None => spec_parse_rgba(s@.skip(pos as int)) is None,
        },
{
    proof {
        reveal(spec_parse_rgba);
    }
    let (cr, p1) = match parse_channel(s, pos) {
        Some(t) => t,
        None => {
            return None;
        },
    };
    let (cg, p2) = match parse_channel(s, p1) {
        Some(t) => t,
        None => {
            return None;
        },
    };
    let (cb, p3) = match parse_channel(s, p2) {
        Some(t) => t,
        None => {
            return None;
        },
    };
    let (ca, p4) = match parse_channel(s, p3) {
        Some(t) => t,
        None => {
            return None;
        },
    };
    Some((Rgba { r: cr, g: cg, b: cb, a: ca }, p4))
}

/// A size: its two components.
#[verifier::opaque]
pub open spec fn spec_enc_size2(v: Size2) -> Seq<u8> {
    spec_enc_u32(v.x) + spec_enc_u32(v.y)
}

#[verifier::opaque]
pub open spec fn spec_parse_size2(s: Seq<u8>) -> Option<(Size2, Seq<u8>)> {
    match spec_parse_u32(s) {
        Some(tx) => match spec_parse_u32(tx.1) {
            Some(ty) => Some((Size2 { x: tx.0, y: ty.0 }, ty.1)),
            None => None,
        },
        None => None,
    }
}

pub proof fn lemma_rt_size2(v: Size2, rest: Seq<u8>)
    ensures
        spec_parse_size2(spec_enc_size2(v) + rest) == Some((v, rest)),
{
    reveal(spec_enc_size2);
    reveal(spec_parse_size2);
    assert(spec_enc_size2(v) + rest =~= spec_enc_u32(v.x) + (spec_enc_u32(v.y) + rest));
    lemma_rt_u32(v.x, spec_enc_u32(v.y) + rest);
    lemma_rt_u32(v.y, rest);
}

pub fn enc_size2(out: &mut Vec<u8>, v: Size2)
    ensures
        final(out)@ == old(out)@ + spec_enc_size2(v),
{
    proof {
        reveal(spec_enc_size2);
    }
    enc_u32(out, v.x);
    enc_u32(out, v.y);
    proof {
        assert(out@ =~= old(out)@ + spec_enc_size2(v));
    }
}

pub fn parse_size2(s: &Vec<u8>, pos: usize) -> (r: Option<(Size2, usize)>)
    requires
        pos <= s@.len(),
    ensures
        match r {
            Some(t) => pos < t.1 <= s@.len() && spec_parse_size2(s@.skip(pos as int)) == Some(
                (t.0, s@.skip(t.1 as int)),
            ),
            None => spec_parse_size2(s@.skip(pos as int)) is None,
        },
{
    proof {
        reveal(spec_parse_size2);
    }
    let (x, p1) = match parse_u32(s, pos) {
        Some(t) => t,
        None => {
            return None;
        },
    };
    let (y, p2) = match parse_u32(s, p1) {
        Some(t) => t,
        None => {
            return None;
        },
    };
    Some((Size2 { x, y }, p2))
}

/// A scalar-or-range value: its form tag, then its one or two bounds.
#[verifier::opaque]
pub open spec fn spec_enc_value_u32(v: Value<u32>) -> Seq<u8> {
    match v {
        Value::Single(x) => seq![115u8] + spec_enc_u32(x),
        Value::Uniform(a, b) => seq![117u8] + spec_enc_u32(a) + spec_enc_u32(b),
    }
}

#[verifier::opaque]
pub open spec fn spec_parse_value_u32(s: Seq<u8>) -> Option<(Value<u32>, Seq<u8>)> {
    if s.len() > 0 && s[0] == 115 {
        match spec_parse_u32(s.skip(1)) {
            Some(t) => Some((Value::Single(t.0), t.1)),
            None => None,
        }
    } else if s.len() > 0 && s[0] == 117 {
        match spec_parse_u32(s.skip(1)) {
            Some(ta) => match spec_parse_u32(ta.1) {
                Some(tb) => {
                    if ta.0 <= tb.0 {
                        Some((Value::Uniform(ta.0, tb.0), tb.1))
                    } else {
                        None
                    }
                },
                None => None,
            },
            None => None,
        }
    } else {
        None
    }
}

pub proof fn lemma_rt_value_u32(v: Value<u32>, rest: Seq<u8>)
    requires
        v.wf(),
    ensures
        spec_parse_value_u32(spec_enc_value_u32(v) + rest) == Some((v, rest)),
{
    reveal(spec_enc_value_u32);
    reveal(spec_parse_value_u32);
    match v {
        Value::Single(x) => {
            assert((spec_enc_value_u32(v) + rest).skip(1) =~= spec_enc_u32(x) + rest);
            lemma_rt_u32(x, rest);
        },
        Value::Uniform(a, b) => {
            assert((spec_enc_value_u32(v) + rest).skip(1) =~= spec_enc_u32(a) + (spec_enc_u32(b)
                + rest));
            lemma_rt_u32(a, spec_enc_u32(b) + rest);
            lemma_rt_u32(b, rest);
        },
    }
}

pub fn enc_value_u32(out: &mut Vec<u8>, v: &Value<u32>)
    ensures
        final(out)@ == old(out)@ + spec_enc_value_u32(*v),
{
    proof {
        reveal(spec_enc_value_u32);
    }
    match v {
        Value::Single(x) => {
            out.push(115);
            enc_u32(out, *x);
        },
        Value::Uniform(a, b) => {
            out.push(117);
            enc_u32(out, *a);
            enc_u32(out, *b);
        },
    }
    proof {
        assert(out@ =~= old(out)@ + spec_enc_value_u32(*v));
    }
}

pub fn parse_value_u32(s: &Vec<u8>, pos: usize) -> (r: Option<(Value<u32>, usize)>)
    requires
        pos <= s@.len(),
    ensures
        match r {
            Some(t) => pos < t.1 <= s@.len() && spec_parse_value_u32(s@.skip(pos as int)) == Some(
                (t.0, s@.skip(t.1 as int)),
            ) && t.0.wf(),
            None => spec_parse_value_u32(s@.skip(pos as int)) is None,
        },
{
    proof {
        reveal(spec_parse_value_u32);
    }
    if pos < s.len() && s[pos] == 115 {
        proof {
            assert(s@.skip(pos as int).skip(1) =~= s@.skip(pos + 1));
        }
        match parse_u32(s, pos + 1) {
            Some((x, p)) => Some((Value::Single(x), p)),
            None => None,
        }
    } else if pos < s.len() && s[pos] == 117 {
        proof {
            assert(s@.skip(pos as int).skip(1) =~= s@.skip(pos + 1));
        }
        let (a, p1) = match parse_u32(s, pos + 1) {
            Some(t) => t,
            None => {
                return None;
            },
        };
        let (b, p2) = match parse_u32(s, p1) {
            Some(t) => t,
            None => {
                return None;
            },
        };
        if a <= b {
            Some((Value::Uniform(a, b), p2))
        } else {
            None
        }
    } else {
        None
    }
}

/// A color value: its form tag, then one or two colors.
#[verifier::opaque]
pub open spec fn spec_enc_value_rgba(v: Value<Rgba>) -> Seq<u8> {
    match v {
        Value::Single(x) => seq![115u8] + spec_enc_rgba(x),
        Value::Uniform(a, b) => seq![117u8] + spec_enc_rgba(a) + spec_enc_rgba(b),
    }
}

#[verifier::opaque]
pub open spec fn spec_parse_value_rgba(s: Seq<u8>) -> Option<(Value<Rgba>, Seq<u8>)> {
    if s.len() > 0 && s[0] == 115 {
        match spec_parse_rgba(s.skip(1)) {
            Some(t) => Some((Value::Single(t.0), t.1)),
            None => None,
        }
    } else if s.len() > 0 && s[0] == 117 {
        match spec_parse_rgba(s.skip(1)) {
            Some(ta) => match spec_parse_rgba(ta.1) {
                Some(tb) => Some((Value::Uniform(ta.0, tb.0), tb.1)),
                None => None,
            },
            None => None,
        }
    } else {
        None
    }
}

pub proof fn lemma_rt_value_rgba(v: Value<Rgba>, rest: Seq<u8>)
    ensures
        spec_parse_value_rgba(spec_enc_value_rgba(v) + rest) == Some((v, rest)),
{
    reveal(spec_enc_value_rgba);
    reveal(spec_parse_value_rgba);
    match v {
        Value::Single(x) => {
            assert((spec_enc_value_rgba(v) + rest).skip(1) =~= spec_enc_rgba(x) + rest);
            lemma_rt_rgba(x, rest);
        },
        Value::Uniform(a, b) => {
            assert((spec_enc_value_rgba(v) + rest).skip(1) =~= spec_enc_rgba(a) + (spec_enc_rgba(b)
                + rest));
            lemma_rt_rgba(a, spec_enc_rgba(b) + rest);
            lemma_rt_rgba(b, rest);
        },
    }
}

pub fn enc_value_rgba(out: &mut Vec<u8>, v: &Value<Rgba>)
    ensures
        final(out)@ == old(out)@ + spec_enc_value_rgba(*v),
{
    proof {
        reveal(spec_enc_value_rgba);
    }
    match v {
        Value::Single(x) => {
            out.push(115);
            enc_rgba(out, *x);
        },
        Value::Uniform(a, b) => {
            out.push(117);
            enc_rgba(out, *a);
            enc_rgba(out, *b);
        },
    }
    proof {
        assert(out@ =~= old(out)@ + spec_enc_value_rgba(*v));
    }
}

pub fn parse_value_rgba(s: &Vec<u8>, pos: usize) -> (r: Option<(Value<Rgba>, usize)>)
    requires
        pos <= s@.len(),
    ensures
        match r {
            Some(t) => pos < t.1 <= s@.len() && spec_parse_value_rgba(s@.skip(pos as int)) == Some(
                (t.0, s@.skip(t.1 as int)),
            ),
            None => spec_parse_value_rgba(s@.skip(pos as int)) is None,
        },
{
    proof {
        reveal(spec_parse_value_rgba);
    }
    if pos < s.len() && s[pos] == 115 {
        proof {
            assert(s@.skip(pos as int).skip(1) =~= s@.skip(pos + 1));
        }
        match parse_rgba(s, pos + 1) {
            Some((x, p)) => Some((Value::Single(x), p)),
            None => None,
        }
    } else if pos < s.len() && s[pos] == 117 {
        proof {
            assert(s@.skip(pos as int).skip(1) =~= s@.skip(pos + 1));
        }
        let (a, p1) = match parse_rgba(s, pos + 1) {
            Some(t) => t,
            None => {
                return None;
            },
        };
        let (b, p2) = match parse_rgba(s, p1) {
            Some(t) => t,
            None => {
                return None;
            },
        };
        Some((Value::Uniform(a, b), p2))
    } else {
        None
    }
}

/// A size value: its form tag, then one or two sizes.
#[verifier::opaque]
pub open spec fn spec_enc_value_size2(v: Value<Size2>) -> Seq<u8> {
    match v {
        Value::Single(x) => seq![115u8] + spec_enc_size2(x),
        Value::Uniform(a, b) => seq![117u8] + spec_enc_size2(a) + spec_enc_size2(b),
    }
}

#[verifier::opaque]
pub open spec fn spec_parse_value_size2(s: Seq<u8>) -> Option<(Value<Size2>, Seq<u8>)> {
    if s.len() > 0 && s[0] == 115 {
        match spec_parse_size2(s.skip(1)) {
            Some(t) => Some((Value::Single(t.0), t.1)),
            None => None,
        }
    } else if s.len() > 0 && s[0] == 117 {
        match spec_parse_size2(s.skip(1)) {
            Some(ta) => match spec_parse_size2(ta.1) {
                Some(tb) => Some((Value::Uniform(ta.0, tb.0), tb.1)),
                None => None,
            },
            None => None,
        }
    } else {
        None
    }
}

pub proof fn lemma_rt_value_size2(v: Value<Size2>, rest: Seq<u8>)
    ensures
        spec_parse_value_size2(spec_enc_value_size2(v) + rest) == Some((v, rest)),
{
    reveal(spec_enc_value_size2);
    reveal(spec_parse_value_size2);
    match v {
        Value::Single(x) => {
            assert((spec_enc_value_size2(v) + rest).skip(1) =~= spec_enc_size2(x) + rest);
            lemma_rt_size2(x, rest);
        },
        Value::Uniform(a, b) => {
            assert((spec_enc_value_size2(v) + rest).skip(1) =~= spec_enc_size2(a)
                + (spec_enc_size2(b) + rest));
            lemma_rt_size2(a, spec_enc_size2(b) + rest);
            lemma_rt_size2(b, rest);
        },
    }
}

pub fn enc_value_size2(out: &mut Vec<u8>, v: &Value<Size2>)
    ensures
        final(out)@ == old(out)@ + spec_enc_value_size2(*v),
{
    proof {
        reveal(spec_enc_value_size2);
    }
    match v {
        Value::Single(x) => {
            out.push(115);
            enc_size2(out, *x);
        },
        Value::Uniform(a, b) => {
            out.push(117);
            enc_size2(out, *a);
            enc_size2(out, *b);
        },
    }
    proof {
        assert(out@ =~= old(out)@ + spec_enc_value_size2(*v));
    }
}

pub fn parse_value_size2(s: &Vec<u8>, pos: usize) -> (r: Option<(Value<Size2>, usize)>)
    requires
        pos <= s@.len(),
    ensures
        match r {
            Some(t) => pos < t.1 <= s@.len() && spec_parse_value_size2(s@.skip(pos as int)) == Some(
                (t.0, s@.skip(t.1 as int)),
            ),
            None => spec_parse_value_size2(s@.skip(pos as int)) is None,
        },
{
    proof {
        reveal(spec_parse_value_size2);
    }
    if pos < s.len() && s[pos] == 115 {
        proof {
            assert(s@.skip(pos as int).skip(1) =~= s@.skip(pos + 1));
        }
        match parse_size2(s, pos + 1) {
            Some((x, p)) => Some((Value::Single(x), p)),
            None => None,
        }
    } else if pos < s.len() && s[pos] == 117 {
        proof {
            assert(s@.skip(pos as int).skip(1) =~= s@.skip(pos + 1));
        }
        let (a, p1) = match parse_size2(s, pos + 1) {
            Some(t) => t,
            None => {
                return None;
            },
        };
        let (b, p2) = match parse_size2(s, p1) {
            Some(t) => t,
            None => {
                return None;
            },
        };
        Some((Value::Uniform(a, b), p2))
    } else {
        None
    }
}

/// A shape dimension: surface or volume, as a tag byte.
pub open spec fn spec_enc_dim(d: ShapeDimension) -> Seq<u8> {
    match d {
        ShapeDimension::Surface => seq![102u8],
        ShapeDimension::Volume => seq![118u8],
    }
}

pub open spec fn spec_parse_dim(s: Seq<u8>) -> Option<(ShapeDimension, Seq<u8>)> {
    if s.len() > 0 && s[0] == 102 {
        Some((ShapeDimension::Surface, s.skip(1)))
    } else if s.len() > 0 && s[0] == 118 {
        Some((ShapeDimension::Volume, s.skip(1)))
    } else {
        None
    }
}

pub proof fn lemma_rt_dim(d: ShapeDimension, rest: Seq<u8>)
    ensures
        spec_parse_dim(spec_enc_dim(d) + rest) == Some((d, rest)),
{
    assert((spec_enc_dim(d) + rest).skip(1) =~= rest);
}

pub fn enc_dim(out: &mut Vec<u8>, d: ShapeDimension)
    ensures
        final(out)@ == old(out)@ + spec_enc_dim(d),
{
    out.push(match d {
        ShapeDimension::Surface => 102,
        ShapeDimension::Volume => 118,
    });
    proof {
        assert(out@ =~= old(out)@ + spec_enc_dim(d));
    }
}

pub fn parse_dim(s: &Vec<u8>, pos: usize) -> (r: Option<(ShapeDimension, usize)>)
    requires
        pos <= s@.len(),
    ensures
        match r {
            Some(t) => pos < t.1 <= s@.len() && spec_parse_dim(s@.skip(pos as int)) == Some(
                (t.0, s@.skip(t.1 as int)),
            ),
            None => spec_parse_dim(s@.skip(pos as int)) is None,
        },
{
    if pos < s.len() && (s[pos] == 102 || s[pos] == 118) {
        proof {
            assert(s@.skip(pos as int).skip(1) =~= s@.skip(pos + 1));
        }
        Some(
            (
                if s[pos] == 102 {
                    ShapeDimension::Surface
                } else {
                    ShapeDimension::Volume
                },
                pos + 1,
            ),
        )
    } else {
        None
    }
}

/// A simulation space: local or global, as a tag byte.
pub open spec fn spec_enc_space(v: SimulationSpace) -> Seq<u8> {
    match v {
        SimulationSpace::Local => seq![108u8],
        SimulationSpace::Global => seq![103u8],
    }
}

pub open spec fn spec_parse_space(s: Seq<u8>) -> Option<(SimulationSpace, Seq<u8>)> {
    if s.len() > 0 && s[0] == 108 {
        Some((SimulationSpace::Local, s.skip(1)))
    } else if s.len() > 0 && s[0] == 103 {
        Some((SimulationSpace::Global, s.skip(1)))
    } else {
        None
    }
}

pub proof fn lemma_rt_space(v: SimulationSpace, rest: Seq<u8>)
    ensures
        spec_parse_space(spec_enc_space(v) + rest) == Some((v, rest)),
{
    assert((spec_enc_space(v) + rest).skip(1) =~= rest);
}

pub fn enc_space(out: &mut Vec<u8>, v: SimulationSpace)
    ensures
        final(out)@ == old(out)@ + spec_enc_space(v),
{
    out.push(match v {
        SimulationSpace::Local => 108,
        SimulationSpace::Global => 103,
    });
    proof {
        assert(out@ =~= old(out)@ + spec_enc_space(v));
    }
}

pub fn parse_space(s: &Vec<u8>, pos: usize) -> (r: Option<(SimulationSpace, usize)>)
    requires
        pos <= s@.len(),
    ensures
        match r {
            Some(t) => pos < t.1 <= s@.len() && spec_parse_space(s@.skip(pos as int)) == Some(
                (t.0, s@.skip(t.1 as int)),
            ),
            None => spec_parse_space(s@.skip(pos as int)) is None,
        },
{
    if pos < s.len() && (s[pos] == 108 || s[pos] == 103) {
        proof {
            assert(s@.skip(pos as int).skip(1) =~= s@.skip(pos + 1));
        }
        Some(
            (
                if s[pos] == 108 {
                    SimulationSpace::Local
                } else {
                    SimulationSpace::Global
                },
                pos + 1,
            ),
        )
    } else {
        None
    }
}

/// A simulation condition: always or when visible, as a tag byte.
pub open spec fn spec_enc_cond(v: SimulationCondition) -> Seq<u8> {
    match v {
        SimulationCondition::Always => seq![97u8],
        SimulationCondition::WhenVisible => seq![119u8],
    }
}

pub open spec fn spec_parse_cond(s: Seq<u8>) -> Option<(SimulationCondition, Seq<u8>)> {
    if s.len() > 0 && s[0] == 97 {
        Some((SimulationCondition::Always, s.skip(1)))
    } else if s.len() > 0 && s[0] == 119 {
        Some((SimulationCondition::WhenVisible, s.skip(1)))
    } else {
        None
    }
}

pub proof fn lemma_rt_cond(v: SimulationCondition, rest: Seq<u8>)
    ensures
        spec_parse_cond(spec_enc_cond(v) + rest) == Some((v, rest)),
{
    assert((spec_enc_cond(v) + rest).skip(1) =~= rest);
}

pub fn enc_cond(out: &mut Vec<u8>, v: SimulationCondition)
    ensures
        final(out)@ == old(out)@ + spec_enc_cond(v),
{
    out.push(match v {
        SimulationCondition::Always => 97,
        SimulationCondition::WhenVisible => 119,
    });
    proof {
        assert(out@ =~= old(out)@ + spec_enc_cond(v));
    }
}

pub fn parse_cond(s: &Vec<u8>, pos: usize) -> (r: Option<(SimulationCondition, usize)>)
    requires
        pos <= s@.len(),
    ensures
        match r {
            Some(t) => pos < t.1 <= s@.len() && spec_parse_cond(s@.skip(pos as int)) == Some(
                (t.0, s@.skip(t.1 as int)),
            ),
            None => spec_parse_cond(s@.skip(pos as int)) is None,
        },
{
    if pos < s.len() && (s[pos] == 97 || s[pos] == 119) {
        proof {
            assert(s@.skip(pos as int).skip(1) =~= s@.skip(pos + 1));
        }
        Some(
            (
                if s[pos] == 97 {
                    SimulationCondition::Always
                } else {
                    SimulationCondition::WhenVisible
                },
                pos + 1,
            ),
        )
    } else {
        None
    }
}

/// A position generator: its shape tag, then the shape's parameters.
#[verifier::opaque]
pub open spec fn spec_enc_init_position(v: InitPosition) -> Seq<u8> {
    match v {
        InitPosition::Circle(m) => seq![99u8] + spec_enc_vec3(m.center) + spec_enc_vec3(m.axis)
            + spec_enc_u32(m.radius) + spec_enc_dim(m.dimension),
        InitPosition::Sphere(m) => seq![115u8] + spec_enc_vec3(m.center) + spec_enc_u32(m.radius)
            + spec_enc_dim(m.dimension),
        InitPosition::Cone(m) => seq![110u8] + spec_enc_u32(m.height) + spec_enc_u32(m.base_radius)
            + spec_enc_u32(m.top_radius) + spec_enc_dim(m.dimension),
    }
}

#[verifier::opaque]
pub open spec fn spec_parse_init_position(s: Seq<u8>) -> Option<(InitPosition, Seq<u8>)> {
    if s.len() > 0 && s[0] == 99 {
        match spec_parse_vec3(s.skip(1)) {
            Some(tc) => match spec_parse_vec3(tc.1) {
                Some(ta) => match spec_parse_u32(ta.1) {
                    Some(tr) => match spec_parse_dim(tr.1) {
                        Some(td) => Some(
                            (
                                InitPosition::Circle(
                                    InitPositionCircle {
                                        center: tc.0,
                                        axis: ta.0,
                                        radius: tr.0,
                                        dimension: td.0,
                                    },
                                ),
                                td.1,
                            ),
                        ),
                        None => None,
                    },
                    None => None,
                },
                None => None,
            },
            None => None,
        }
    } else if s.len() > 0 && s[0] == 115 {
        match spec_parse_vec3(s.skip(1)) {
            Some(tc) => match spec_parse_u32(tc.1) {
                Some(tr) => match spec_parse_dim(tr.1) {
                    Some(td) => Some(
                        (
                            InitPosition::Sphere(
                                InitPositionSphere {
                                    center: tc.0,
                                    radius: tr.0,
                                    dimension: td.0,
                                },
                            ),
                            td.1,
                        ),
                    ),
                    None => None,
                },
                None => None,
            },
            None => None,
        }
    } else if s.len() > 0 && s[0] == 110 {
        match spec_parse_u32(s.skip(1)) {
            Some(th) => match spec_parse_u32(th.1) {
                Some(tb) => match spec_parse_u32(tb.1) {
                    Some(tt) => match spec_parse_dim(tt.1) {
                        Some(td) => Some(
                            (
                                InitPosition::Cone(
                                    InitPositionCone {
                                        height: th.0,
                                        base_radius: tb.0,
                                        top_radius: tt.0,
                                        dimension: td.0,
                                    },
                                ),
                                td.1,
                            ),
                        ),
                        None => None,
                    },
                    None => None,
                },
                None => None,
            },
            None => None,
        }
    } else {
        None
    }
}

pub proof fn lemma_rt_init_position(v: InitPosition, rest: Seq<u8>)
    ensures
        spec_parse_init_position(spec_enc_init_position(v) + rest) == Some((v, rest)),
{
    reveal(spec_enc_init_position);
    reveal(spec_parse_init_position);
    match v {
        InitPosition::Circle(m) => {
            assert((spec_enc_init_position(v) + rest).skip(1) =~= spec_enc_vec3(m.center)
                + (spec_enc_vec3(m.axis) + (spec_enc_u32(m.radius) + (spec_enc_dim(m.dimension)
                + rest))));
            lemma_rt_vec3(
                m.center,
                spec_enc_vec3(m.axis) + (spec_enc_u32(m.radius) + (spec_enc_dim(m.dimension)
                    + rest)),
            );
            lemma_rt_vec3(m.axis, spec_enc_u32(m.radius) + (spec_enc_dim(m.dimension) + rest));
            lemma_rt_u32(m.radius, spec_enc_dim(m.dimension) + rest);
            lemma_rt_dim(m.dimension, rest);
        },
        InitPosition::Sphere(m) => {
            assert((spec_enc_init_position(v) + rest).skip(1) =~= spec_enc_vec3(m.center)
                + (spec_enc_u32(m.radius) + (spec_enc_dim(m.dimension) + rest)));
            lemma_rt_vec3(m.center, spec_enc_u32(m.radius) + (spec_enc_dim(m.dimension) + rest));
            lemma_rt_u32(m.radius, spec_enc_dim(m.dimension) + rest);
            lemma_rt_dim(m.dimension, rest);
        },
        InitPosition::Cone(m) => {
            assert((spec_enc_init_position(v) + rest).skip(1) =~= spec_enc_u32(m.height)
                + (spec_enc_u32(m.base_radius) + (spec_enc_u32(m.top_radius) + (spec_enc_dim(
                m.dimension,
            ) + rest))));
            lemma_rt_u32(
                m.height,
                spec_enc_u32(m.base_radius) + (spec_enc_u32(m.top_radius) + (spec_enc_dim(
                    m.dimension,
                ) + rest)),
            );
            lemma_rt_u32(
                m.base_radius,
                spec_enc_u32(m.top_radius) + (spec_enc_dim(m.dimension) + rest),
            );
            lemma_rt_u32(m.top_radius, spec_enc_dim(m.dimension) + rest);
            lemma_rt_dim(m.dimension, rest);
        },
    }
}

pub fn enc_init_position(out: &mut Vec<u8>, v: &InitPosition)
    ensures
        final(out)@ == old(out)@ + spec_enc_init_position(*v),
{
    proof {
        reveal(spec_enc_init_position);
    }
    match v {
        InitPosition::Circle(m) => {
            out.push(99);
            enc_vec3(out, m.center);
            enc_vec3(out, m.axis);
            enc_u32(out, m.radius);
            enc_dim(out, m.dimension);
        },
        InitPosition::Sphere(m) => {
            out.push(115);
            enc_vec3(out, m.center);
            enc_u32(out, m.radius);
            enc_dim(out, m.dimension);
        },
        InitPosition::Cone(m) => {
            out.push(110);
            enc_u32(out, m.height);
            enc_u32(out, m.base_radius);
            enc_u32(out, m.top_radius);
            enc_dim(out, m.dimension);
        },
    }
    proof {
        assert(out@ =~= old(out)@ + spec_enc_init_position(*v));
    }
}

#[verifier::rlimit(60)]
pub fn parse_init_position(s: &Vec<u8>, pos: usize) -> (r: Option<(InitPosition, usize)>)
    requires
        pos <= s@.len(),
    ensures
        match r {
            Some(t) => pos < t.1 <= s@.len() && spec_parse_init_position(s@.skip(pos as int))
                == Some((t.0, s@.skip(t.1 as int))),
            None => spec_parse_init_position(s@.skip(pos as int)) is None,
        },
{
    proof {
        reveal(spec_parse_init_position);
    }
    if pos >= s.len() {
        return None;
    }
    let tag = s[pos];
    proof {
        assert(s@.skip(pos as int).skip(1) =~= s@.skip(pos + 1));
    }
    if tag == 99 {
        let (c, p1) = match parse_vec3(s, pos + 1) {
            Some(t) => t,
            None => {
                return None;
            },
        };
        let (a, p2) = match parse_vec3(s, p1) {
            Some(t) => t,
            None => {
                return None;
            },
        };
        let (rad, p3) = match parse_u32(s, p2) {
            Some(t) => t,
            None => {
                return None;
            },
        };
        let (d, p4) = match parse_dim(s, p3) {
            Some(t) => t,
            None => {
                return None;
            },
        };
        Some(
            (
                InitPosition::Circle(
                    InitPositionCircle { center: c, axis: a, radius: rad, dimension: d },
                ),
                p4,
            ),
        )
    } else if tag == 115 {
        let (c, p1) = match parse_vec3(s, pos + 1) {
            Some(t) => t,
            None => {
                return None;
            },
        };
        let (rad, p2) = match parse_u32(s, p1) {
            Some(t) => t,
            None => {
                return None;
            },
        };
        let (d, p3) = match parse_dim(s, p2) {
            Some(t) => t,
            None => {
                return None;
            },
        };
        Some(
            (InitPosition::Sphere(InitPositionSphere { center: c, radius: rad, dimension: d }), p3),
        )
    } else if tag == 110 {
        let (h, p1) = match parse_u32(s, pos + 1) {
            Some(t) => t,
            None => {
                return None;
            },
        };
        let (b, p2) = match parse_u32(s, p1) {
            Some(t) => t,
            None => {
                return None;
            },
        };
        let (t_, p3) = match parse_u32(s, p2) {
            Some(t) => t,
            None => {
                return None;
            },
        };
        let (d, p4) = match parse_dim(s, p3) {
            Some(t) => t,
            None => {
                return None;
            },
        };
        Some(
            (
                InitPosition::Cone(
                    InitPositionCone {
                        height: h,
                        base_radius: b,
                        top_radius: t_,
                        dimension: d,
                    },
                ),
                p4,
            ),
        )
    } else {
        None
    }
}

/// A velocity generator: its shape tag, then the shape's parameters.
#[verifier::opaque]
pub open spec fn spec_enc_init_velocity(v: InitVelocity) -> Seq<u8> {
    match v {
        InitVelocity::Circle(m) => seq![99u8] + spec_enc_vec3(m.center) + spec_enc_vec3(m.axis)
            + spec_enc_value_u32(m.speed),
        InitVelocity::Sphere(m) => seq![115u8] + spec_enc_vec3(m.center) + spec_enc_value_u32(
            m.speed,
        ),
        InitVelocity::Cone(m) => seq![110u8] + spec_enc_vec3(m.origin) + spec_enc_vec3(m.axis)
            + spec_enc_value_u32(m.speed),
    }
}

#[verifier::opaque]
pub open spec fn spec_parse_init_velocity(s: Seq<u8>) -> Option<(InitVelocity, Seq<u8>)> {
    if s.len() > 0 && s[0] == 99 {
        match spec_parse_vec3(s.skip(1)) {
            Some(tc) => match spec_parse_vec3(tc.1) {
                Some(ta) => match spec_parse_value_u32(ta.1) {
                    Some(ts) => Some(
                        (
                            InitVelocity::Circle(
                                InitVelocityCircle { center: tc.0, axis: ta.0, speed: ts.0 },
                            ),
                            ts.1,
                        ),
                    ),
                    None => None,
                },
                None => None,
            },
            None => None,
        }
    } else if s.len() > 0 && s[0] == 115 {
        match spec_parse_vec3(s.skip(1)) {
            Some(tc) => match spec_parse_value_u32(tc.1) {
                Some(ts) => Some(
                    (InitVelocity::Sphere(InitVelocitySphere { center: tc.0, speed: ts.0 }), ts.1),
                ),
                None => None,
            },
            None => None,
        }
    } else if s.len() > 0 && s[0] == 110 {
        match spec_parse_vec3(s.skip(1)) {
            Some(to) => match spec_parse_vec3(to.1) {
                Some(ta) => match spec_parse_value_u32(ta.1) {
                    Some(ts) => Some(
                        (
                            InitVelocity::Cone(
                                InitVelocityTangent { origin: to.0, axis: ta.0, speed: ts.0 },
                            ),
                            ts.1,
                        ),
                    ),
                    None => None,
                },
                None => None,
            },
            None => None,
        }
    } else {
        None
    }
}

pub proof fn lemma_rt_init_velocity(v: InitVelocity, rest: Seq<u8>)
    requires
        v.wf(),
    ensures
        spec_parse_init_velocity(spec_enc_init_velocity(v) + rest) == Some((v, rest)),
{
    reveal(spec_enc_init_velocity);
    reveal(spec_parse_init_velocity);
    match v {
        InitVelocity::Circle(m) => {
            assert((spec_enc_init_velocity(v) + rest).skip(1) =~= spec_enc_vec3(m.center)
                + (spec_enc_vec3(m.axis) + (spec_enc_value_u32(m.speed) + rest)));
            lemma_rt_vec3(m.center, spec_enc_vec3(m.axis) + (spec_enc_value_u32(m.speed) + rest));
            lemma_rt_vec3(m.axis, spec_enc_value_u32(m.speed) + rest);
            lemma_rt_value_u32(m.speed, rest);
        },
        InitVelocity::Sphere(m) => {
            assert((spec_enc_init_velocity(v) + rest).skip(1) =~= spec_enc_vec3(m.center)
                + (spec_enc_value_u32(m.speed) + rest));
            lemma_rt_vec3(m.center, spec_enc_value_u32(m.speed) + rest);
            lemma_rt_value_u32(m.speed, rest);
        },
        InitVelocity::Cone(m) => {
            assert((spec_enc_init_velocity(v) + rest).skip(1) =~= spec_enc_vec3(m.origin)
                + (spec_enc_vec3(m.axis) + (spec_enc_value_u32(m.speed) + rest)));
            lemma_rt_vec3(m.origin, spec_enc_vec3(m.axis) + (spec_enc_value_u32(m.speed) + rest));
            lemma_rt_vec3(m.axis, spec_enc_value_u32(m.speed) + rest);
            lemma_rt_value_u32(m.speed, rest);
        },
    }
}

pub fn enc_init_velocity(out: &mut Vec<u8>, v: &InitVelocity)
    ensures
        final(out)@ == old(out)@ + spec_enc_init_velocity(*v),
{
    proof {
        reveal(spec_enc_init_velocity);
    }
    match v {
        InitVelocity::Circle(m) => {
            out.push(99);
            enc_vec3(out, m.center);
            enc_vec3(out, m.axis);
            enc_value_u32(out, &m.speed);
        },
        InitVelocity::Sphere(m) => {
            out.push(115);
            enc_vec3(out, m.center);
            enc_value_u32(out, &m.speed);
        },
        InitVelocity::Cone(m) => {
            out.push(110);
            enc_vec3(out, m.origin);
            enc_vec3(out, m.axis);
            enc_value_u32(out, &m.speed);
        },
    }
    proof {
        assert(out@ =~= old(out)@ + spec_enc_init_velocity(*v));
    }
}

#[verifier::rlimit(60)]
pub fn parse_init_velocity(s: &Vec<u8>, pos: usize) -> (r: Option<(InitVelocity, usize)>)
    requires
        pos <= s@.len(),
    ensures
        match r {
            Some(t) => pos < t.1 <= s@.len() && spec_parse_init_velocity(s@.skip(pos as int))
                == Some((t.0, s@.skip(t.1 as int))) && t.0.wf(),
            None => spec_parse_init_velocity(s@.skip(pos as int)) is None,
        },
{
    proof {
        reveal(spec_parse_init_velocity);
    }
    if pos >= s.len() {
        return None;
    }
    let tag = s[pos];
    proof {
        assert(s@.skip(pos as int).skip(1) =~= s@.skip(pos + 1));
    }
    if tag == 99 {
        let (c, p1) = match parse_vec3(s, pos + 1) {
            Some(t) => t,
            None => {
                return None;
            },
        };
        let (a, p2) = match parse_vec3(s, p1) {
            Some(t) => t,
            None => {
                return None;
            },
        };
        let (sp, p3) = match parse_value_u32(s, p2) {
            Some(t) => t,
            None => {
                return None;
            },
        };
        Some((InitVelocity::Circle(InitVelocityCircle { center: c, axis: a, speed: sp }), p3))
    } else if tag == 115 {
        let (c, p1) = match parse_vec3(s, pos + 1) {
            Some(t) => t,
            None => {
                return None;
            },
        };
        let (sp, p2) = match parse_value_u32(s, p1) {
            Some(t) => t,
            None => {
                return None;
            },
        };
        Some((InitVelocity::Sphere(InitVelocitySphere { center: c, speed: sp }), p2))
    } else if tag == 110 {
        let (o, p1) = match parse_vec3(s, pos + 1) {
            Some(t) => t,
            None => {
                return None;
            },
        };
        let (a, p2) = match parse_vec3(s, p1) {
            Some(t) => t,
            None => {
                return None;
            },
        };
        let (sp, p3) = match parse_value_u32(s, p2) {
            Some(t) => t,
            None => {
                return None;
            },
        };
        Some((InitVelocity::Cone(InitVelocityTangent { origin: o, axis: a, speed: sp }), p3))
    } else {
        None
    }
}

/// An acceleration modifier: its variant tag, then its parameters.
#[verifier::opaque]
pub open spec fn spec_enc_update_accel(v: UpdateAccel) -> Seq<u8> {
    match v {
        UpdateAccel::Linear(m) => seq![108u8] + spec_enc_vec3(m.accel),
        UpdateAccel::Radial(m) => seq![114u8] + spec_enc_vec3(m.origin) + spec_enc_i32(m.accel),
        UpdateAccel::Tangent(m) => seq![116u8] + spec_enc_vec3(m.origin) + spec_enc_vec3(m.axis)
            + spec_enc_i32(m.accel),
    }
}

#[verifier::opaque]
pub open spec fn spec_parse_update_accel(s: Seq<u8>) -> Option<(UpdateAccel, Seq<u8>)> {
    if s.len() > 0 && s[0] == 108 {
        match spec_parse_vec3(s.skip(1)) {
            Some(ta) => Some((UpdateAccel::Linear(AccelModifier { accel: ta.0 }), ta.1)),
            None => None,
        }
    } else if s.len() > 0 && s[0] == 114 {
        match spec_parse_vec3(s.skip(1)) {
            Some(to) => match spec_parse_i32(to.1) {
                Some(ta) => Some(
                    (UpdateAccel::Radial(RadialAccelModifier { origin: to.0, accel: ta.0 }), ta.1),
                ),
                None => None,
            },
            None => None,
        }
    } else if s.len() > 0 && s[0] == 116 {
        match spec_parse_vec3(s.skip(1)) {
            Some(to) => match spec_parse_vec3(to.1) {
                Some(tx) => match spec_parse_i32(tx.1) {
                    Some(ta) => Some(
                        (
                            UpdateAccel::Tangent(
                                TangentAccelModifier { origin: to.0, axis: tx.0, accel: ta.0 },
                            ),
                            ta.1,
                        ),
                    ),
                    None => None,
                },
                None => None,
            },
            None => None,
        }
    } else {
        None
    }
}

pub proof fn lemma_rt_update_accel(v: UpdateAccel, rest: Seq<u8>)
    ensures
        spec_parse_update_accel(spec_enc_update_accel(v) + rest) == Some((v, rest)),
{
    reveal(spec_enc_update_accel);
    reveal(spec_parse_update_accel);
    match v {
        UpdateAccel::Linear(m) => {
            assert((spec_enc_update_accel(v) + rest).skip(1) =~= spec_enc_vec3(m.accel) + rest);
            lemma_rt_vec3(m.accel, rest);
        },
        UpdateAccel::Radial(m) => {
            assert((spec_enc_update_accel(v) + rest).skip(1) =~= spec_enc_vec3(m.origin)
                + (spec_enc_i32(m.accel) + rest));
            lemma_rt_vec3(m.origin, spec_enc_i32(m.accel) + rest);
            lemma_rt_i32(m.accel, rest);
        },
        UpdateAccel::Tangent(m) => {
            assert((spec_enc_update_accel(v) + rest).skip(1) =~= spec_enc_vec3(m.origin)
                + (spec_enc_vec3(m.axis) + (spec_enc_i32(m.accel) + rest)));
            lemma_rt_vec3(m.origin, spec_enc_vec3(m.axis) + (spec_enc_i32(m.accel) + rest));
            lemma_rt_vec3(m.axis, spec_enc_i32(m.accel) + rest);
            lemma_rt_i32(m.accel, rest);
        },
    }
}

pub fn enc_update_accel(out: &mut Vec<u8>, v: &UpdateAccel)
    ensures
        final(out)@ == old(out)@ + spec_enc_update_accel(*v),
{
    proof {
        reveal(spec_enc_update_accel);
    }
    match v {
        UpdateAccel::Linear(m) => {
            out.push(108);
            enc_vec3(out, m.accel);
        },
        UpdateAccel::Radial(m) => {
            out.push(114);
            enc_vec3(out, m.origin);
            enc_i32(out, m.accel);
        },
        UpdateAccel::Tangent(m) => {
            out.push(116);
            enc_vec3(out, m.origin);
            enc_vec3(out, m.axis);
            enc_i32(out, m.accel);
        },
    }
    proof {
        assert(out@ =~= old(out)@ + spec_enc_update_accel(*v));
    }
}

#[verifier::rlimit(60)]
pub fn parse_update_accel(s: &Vec<u8>, pos: usize) -> (r: Option<(UpdateAccel, usize)>)
    requires
        pos <= s@.len(),
    ensures
        match r {
            Some(t) => pos < t.1 <= s@.len() && spec_parse_update_accel(s@.skip(pos as int))
                == Some((t.0, s@.skip(t.1 as int))),
            None => spec_parse_update_accel(s@.skip(pos as int)) is None,
        },
{
    proof {
        reveal(spec_parse_update_accel);
    }
    if pos >= s.len() {
        return None;
    }
    let tag = s[pos];
    proof {
        assert(s@.skip(pos as int).skip(1) =~= s@.skip(pos + 1));
    }
    if tag == 108 {
        let (a, p1) = match parse_vec3(s, pos + 1) {
            Some(t) => t,
            None => {
                return None;
            },
        };
        Some((UpdateAccel::Linear(AccelModifier { accel: a }), p1))
    } else if tag == 114 {
        let (o, p1) = match parse_vec3(s, pos + 1) {
            Some(t) => t,
            None => {
                return None;
            },
        };
        let (a, p2) = match parse_i32(s, p1) {
            Some(t) => t,
            None => {
                return None;
            },
        };
        Some((UpdateAccel::Radial(RadialAccelModifier { origin: o, accel: a }), p2))
    } else if tag == 116 {
        let (o, p1) = match parse_vec3(s, pos + 1) {
            Some(t) => t,
            None => {
                return None;
            },
        };
        let (x, p2) = match parse_vec3(s, p1) {
            Some(t) => t,
            None => {
                return None;
            },
        };
        let (a, p3) = match parse_i32(s, p2) {
            Some(t) => t,
            None => {
                return None;
            },
        };
        Some((UpdateAccel::Tangent(TangentAccelModifier { origin: o, axis: x, accel: a }), p3))
    } else {
        None
    }
}

/// A force field: its six parameters in field order.
#[verifier::opaque]
pub open spec fn spec_enc_force_field(m: ForceFieldModifier) -> Seq<u8> {
    spec_enc_vec3(m.position) + spec_enc_u32(m.max_radius) + spec_enc_u32(m.min_radius)
        + spec_enc_i32(m.mass) + spec_enc_u32(m.force_exponent) + spec_enc_bool(m.conform_to_sphere)
}

#[verifier::opaque]
pub open spec fn spec_parse_force_field(s: Seq<u8>) -> Option<(ForceFieldModifier, Seq<u8>)> {
    match spec_parse_vec3(s) {
        Some(tp) => match spec_parse_u32(tp.1) {
            Some(tmax) => match spec_parse_u32(tmax.1) {
                Some(tmin) => match spec_parse_i32(tmin.1) {
                    Some(tm) => match spec_parse_u32(tm.1) {
                        Some(te) => match spec_parse_bool(te.1) {
                            Some(tc) => Some(
                                (
                                    ForceFieldModifier {
                                        position: tp.0,
                                        max_radius: tmax.0,
                                        min_radius: tmin.0,
                                        mass: tm.0,
                                        force_exponent: te.0,
                                        conform_to_sphere: tc.0,
                                    },
                                    tc.1,
                                ),
                            ),
                            None => None,
                        },
                        None => None,
                    },
                    None => None,
                },
                None => None,
            },
            None => None,
        },
        None => None,
    }
}

pub proof fn lemma_rt_force_field(m: ForceFieldModifier, rest: Seq<u8>)
    ensures
        spec_parse_force_field(spec_enc_force_field(m) + rest) == Some((m, rest)),
{
    reveal(spec_enc_force_field);
    reveal(spec_parse_force_field);
    assert(spec_enc_force_field(m) + rest =~= spec_enc_vec3(m.position) + (spec_enc_u32(
        m.max_radius,
    ) + (spec_enc_u32(m.min_radius) + (spec_enc_i32(m.mass) + (spec_enc_u32(m.force_exponent)
        + (spec_enc_bool(m.conform_to_sphere) + rest))))));
    lemma_rt_vec3(
        m.position,
        spec_enc_u32(m.max_radius) + (spec_enc_u32(m.min_radius) + (spec_enc_i32(m.mass)
            + (spec_enc_u32(m.force_exponent) + (spec_enc_bool(m.conform_to_sphere) + rest)))),
    );
    lemma_rt_u32(
        m.max_radius,
        spec_enc_u32(m.min_radius) + (spec_enc_i32(m.mass) + (spec_enc_u32(m.force_exponent)
            + (spec_enc_bool(m.conform_to_sphere) + rest))),
    );
    lemma_rt_u32(
        m.min_radius,
        spec_enc_i32(m.mass) + (spec_enc_u32(m.force_exponent) + (spec_enc_bool(
            m.conform_to_sphere,
        ) + rest)),
    );
    lemma_rt_i32(
        m.mass,
        spec_enc_u32(m.force_exponent) + (spec_enc_bool(m.conform_to_sphere) + rest),
    );
    lemma_rt_u32(m.force_exponent, spec_enc_bool(m.conform_to_sphere) + rest);
    lemma_rt_bool(m.conform_to_sphere, rest);
}

pub fn enc_force_field(out: &mut Vec<u8>, m: &ForceFieldModifier)
    ensures
        final(out)@ == old(out)@ + spec_enc_force_field(*m),
{
    proof {
        reveal(spec_enc_force_field);
    }
    enc_vec3(out, m.position);
    enc_u32(out, m.max_radius);
    enc_u32(out, m.min_radius);
    enc_i32(out, m.mass);
    enc_u32(out, m.force_exponent);
    enc_bool(out, m.conform_to_sphere);
    proof {
        assert(out@ =~= old(out)@ + spec_enc_force_field(*m));
    }
}

#[verifier::rlimit(60)]
pub fn parse_force_field(s: &Vec<u8>, pos: usize) -> (r: Option<(ForceFieldModifier, usize)>)
    requires
        pos <= s@.len(),
    ensures
        match r {
            Some(t) => pos < t.1 <= s@.len() && spec_parse_force_field(s@.skip(pos as int)) == Some(
                (t.0, s@.skip(t.1 as int)),
            ),
            None => spec_parse_force_field(s@.skip(pos as int)) is None,
        },
{
    proof {
        reveal(spec_parse_force_field);
    }
    let (p_, p1) = match parse_vec3(s, pos) {
        Some(t) => t,
        None => {
            return None;
        },
    };
    let (mx, p2) = match parse_u32(s, p1) {
        Some(t) => t,
        None => {
            return None;
        },
    };
    let (mn, p3) = match parse_u32(s, p2) {
        Some(t) => t,
        None => {
            return None;
        },
    };
    let (ms, p4) = match parse_i32(s, p3) {
        Some(t) => t,
        None => {
            return None;
        },
    };
    let (fe, p5) = match parse_u32(s, p4) {
        Some(t) => t,
        None => {
            return None;
        },
    };
    let (cf, p6) = match parse_bool(s, p5) {
        Some(t) => t,
        None => {
            return None;
        },
    };
    Some(
        (
            ForceFieldModifier {
                position: p_,
                max_radius: mx,
                min_radius: mn,
                mass: ms,
                force_exponent: fe,
                conform_to_sphere: cf,
            },
            p6,
        ),
    )
}

/// A kill box: its center and half extent.
#[verifier::opaque]
pub open spec fn spec_enc_aabb(m: AabbKillModifier) -> Seq<u8> {
    spec_enc_vec3(m.center) + spec_enc_vec3(m.half_size)
}

#[verifier::opaque]
pub open spec fn spec_parse_aabb(s: Seq<u8>) -> Option<(AabbKillModifier, Seq<u8>)> {
    match spec_parse_vec3(s) {
        Some(tc) => match spec_parse_vec3(tc.1) {
            Some(th) => Some((AabbKillModifier { center: tc.0, half_size: th.0 }, th.1)),
            None => None,
        },
        None => None,
    }
}

pub proof fn lemma_rt_aabb(m: AabbKillModifier, rest: Seq<u8>)
    ensures
        spec_parse_aabb(spec_enc_aabb(m) + rest) == Some((m, rest)),
{
    reveal(spec_enc_aabb);
    reveal(spec_parse_aabb);
    assert(spec_enc_aabb(m) + rest =~= spec_enc_vec3(m.center) + (spec_enc_vec3(m.half_size)
        + rest));
    lemma_rt_vec3(m.center, spec_enc_vec3(m.half_size) + rest);
    lemma_rt_vec3(m.half_size, rest);
}

pub fn enc_aabb(out: &mut Vec<u8>, m: &AabbKillModifier)
    ensures
        final(out)@ == old(out)@ + spec_enc_aabb(*m),
{
    proof {
        reveal(spec_enc_aabb);
    }
    enc_vec3(out, m.center);
    enc_vec3(out, m.half_size);
    proof {
        assert(out@ =~= old(out)@ + spec_enc_aabb(*m));
    }
}

pub fn parse_aabb(s: &Vec<u8>, pos: usize) -> (r: Option<(AabbKillModifier, usize)>)
    requires
        pos <= s@.len(),
    ensures
        match r {
            Some(t) => pos < t.1 <= s@.len() && spec_parse_aabb(s@.skip(pos as int)) == Some(
                (t.0, s@.skip(t.1 as int)),
            ),
            None => spec_parse_aabb(s@.skip(pos as int)) is None,
        },
{
    proof {
        reveal(spec_parse_aabb);
    }
    let (c, p1) = match parse_vec3(s, pos) {
        Some(t) => t,
        None => {
            return None;
        },
    };
    let (h, p2) = match parse_vec3(s, p1) {
        Some(t) => t,
        None => {
            return None;
        },
    };
    Some((AabbKillModifier { center: c, half_size: h }, p2))
}

/// A resource handle as two 32-bit halves, most significant first.
#[verifier::opaque]
pub open spec fn spec_enc_handle(h: u64) -> Seq<u8> {
    spec_enc_u32((h >> 32) as u32) + spec_enc_u32(h as u32)
}

#[verifier::opaque]
pub open spec fn spec_parse_handle(s: Seq<u8>) -> Option<(u64, Seq<u8>)> {
    match spec_parse_u32(s) {
        Some(th) => match spec_parse_u32(th.1) {
            Some(tl) => Some((((th.0 * 4294967296 + tl.0) as u64), tl.1)),
            None => None,
        },
        None => None,
    }
}

pub proof fn lemma_rt_handle(h: u64, rest: Seq<u8>)
    ensures
        spec_parse_handle(spec_enc_handle(h) + rest) == Some((h, rest)),
{
    reveal(spec_enc_handle);
    reveal(spec_parse_handle);
    assert(spec_enc_handle(h) + rest =~= spec_enc_u32((h >> 32) as u32) + (spec_enc_u32(h as u32)
        + rest));
    lemma_rt_u32((h >> 32) as u32, spec_enc_u32(h as u32) + rest);
    lemma_rt_u32(h as u32, rest);
    assert(((h >> 32) as u32) * 4294967296 + (h as u32) == h) by (bit_vector);
}

pub fn enc_handle(out: &mut Vec<u8>, h: u64)
    ensures
        final(out)@ == old(out)@ + spec_enc_handle(h),
{
    proof {
        reveal(spec_enc_handle);
    }
    enc_u32(out, (h >> 32) as u32);
    enc_u32(out, h as u32);
    proof {
        assert(out@ =~= old(out)@ + spec_enc_handle(h));
    }
}

pub fn parse_handle(s: &Vec<u8>, pos: usize) -> (r: Option<(u64, usize)>)
    requires
        pos <= s@.len(),
    ensures
        match r {
            Some(t) => pos < t.1 <= s@.len() && spec_parse_handle(s@.skip(pos as int)) == Some(
                (t.0, s@.skip(t.1 as int)),
            ),
            None => spec_parse_handle(s@.skip(pos as int)) is None,
        },
{
    proof {
        reveal(spec_parse_handle);
    }
    let (hi, p1) = match parse_u32(s, pos) {
        Some(t) => t,
        None => {
            return None;
        },
    };
    let (lo, p2) = match parse_u32(s, p1) {
        Some(t) => t,
        None => {
            return None;
        },
    };
    let h: u64 = (hi as u64) * 4294967296 + (lo as u64);
    proof {
        assert((hi as u64) * 4294967296 + (lo as u64) == hi * 4294967296 + lo) by (nonlinear_arith);
    }
    Some((h, p2))
}

/// A texture reference: its form tag, then a path or a handle.
#[verifier::opaque]
pub open spec fn spec_enc_texture(v: TextureView) -> Seq<u8>
    recommends
        v matches TextureView::Path(p) ==> p.len() <= u32::MAX,
{
    match v {
        TextureView::Unset => seq![110u8],
        TextureView::Path(p) => seq![112u8] + spec_enc_bytes(p),
        TextureView::Texture(h) => seq![116u8] + spec_enc_handle(h),
    }
}

#[verifier::opaque]
pub open spec fn spec_parse_texture(s: Seq<u8>) -> Option<(TextureView, Seq<u8>)> {
    if s.len() > 0 && s[0] == 110 {
        Some((TextureView::Unset, s.skip(1)))
    } else if s.len() > 0 && s[0] == 112 {
        match spec_parse_bytes(s.skip(1)) {
            Some(tp) => Some((TextureView::Path(tp.0), tp.1)),
            None => None,
        }
    } else if s.len() > 0 && s[0] == 116 {
        match spec_parse_handle(s.skip(1)) {
            Some(th) => Some((TextureView::Texture(th.0), th.1)),
            None => None,
        }
    } else {
        None
    }
}

pub proof fn lemma_rt_texture(v: TextureView, rest: Seq<u8>)
    requires
        v matches TextureView::Path(p) ==> p.len() <= u32::MAX,
    ensures
        spec_parse_texture(spec_enc_texture(v) + rest) == Some((v, rest)),
{
    reveal(spec_enc_texture);
    reveal(spec_parse_texture);
    match v {
        TextureView::Unset => {
            assert((spec_enc_texture(v) + rest).skip(1) =~= rest);
        },
        TextureView::Path(p) => {
            assert((spec_enc_texture(v) + rest).skip(1) =~= spec_enc_bytes(p) + rest);
            lemma_rt_bytes(p, rest);
        },
        TextureView::Texture(h) => {
            assert((spec_enc_texture(v) + rest).skip(1) =~= spec_enc_handle(h) + rest);
            lemma_rt_handle(h, rest);
        },
    }
}

pub fn enc_texture(out: &mut Vec<u8>, v: &ParticleTexture)
    requires
        v@ matches TextureView::Path(p) ==> p.len() <= u32::MAX,
    ensures
        final(out)@ == old(out)@ + spec_enc_texture(v@),
{
    proof {
        reveal(spec_enc_texture);
    }
    match v {
        ParticleTexture::Unset => {
            out.push(110);
        },
        ParticleTexture::Path(p) => {
            out.push(112);
            enc_bytes(out, p);
        },
        ParticleTexture::Texture(h) => {
            out.push(116);
            enc_handle(out, *h);
        },
    }
    proof {
        assert(out@ =~= old(out)@ + spec_enc_texture(v@));
    }
}

pub fn parse_texture(s: &Vec<u8>, pos: usize) -> (r: Option<(ParticleTexture, usize)>)
    requires
        pos <= s@.len(),
    ensures
        match r {
            Some(t) => pos < t.1 <= s@.len() && spec_parse_texture(s@.skip(pos as int)) == Some(
                (t.0@, s@.skip(t.1 as int)),
            ),
            None => spec_parse_texture(s@.skip(pos as int)) is None,
        },
{
    proof {
        reveal(spec_parse_texture);
    }
    if pos >= s.len() {
        return None;
    }
    let tag = s[pos];
    proof {
        assert(s@.skip(pos as int).skip(1) =~= s@.skip(pos + 1));
    }
    if tag == 110 {
        Some((ParticleTexture::Unset, pos + 1))
    } else if tag == 112 {
        match parse_bytes(s, pos + 1) {
            Some((p, p1)) => Some((ParticleTexture::Path(p), p1)),
            None => None,
        }
    } else if tag == 116 {
        match parse_handle(s, pos + 1) {
            Some((h, p1)) => Some((ParticleTexture::Texture(h), p1)),
            None => None,
        }
    } else {
        None
    }
}

/// Color keyframes, each a position (on the strip) and a color.
#[verifier::opaque]
pub open spec fn spec_enc_key_items_rgba(keys: Seq<GradientKey<Rgba>>) -> Seq<u8>
    decreases keys.len(),
{
    if keys.len() == 0 {
        Seq::empty()
    } else {
        spec_enc_u32(keys[0].pos) + spec_enc_rgba(keys[0].value) + spec_enc_key_items_rgba(
            keys.drop_first(),
        )
    }
}

/// Read `n` color keyframes, each with its position checked onto the strip.
#[verifier::opaque]
pub open spec fn spec_parse_key_items_rgba(s: Seq<u8>, n: int) -> Option<
    (Seq<GradientKey<Rgba>>, Seq<u8>),
>
    decreases n,
{
    if n <= 0 {
        Some((Seq::empty(), s))
    } else {
        match spec_parse_u32(s) {
            Some(tp) => {
                if tp.0 <= POS_ONE {
                    match spec_parse_rgba(tp.1) {
                        Some(tv) => match spec_parse_key_items_rgba(tv.1, n - 1) {
                            Some(tr) => Some(
                                (seq![GradientKey { pos: tp.0, value: tv.0 }] + tr.0, tr.1),
                            ),
                            None => None,
                        },
                        None => None,
                    }
                } else {
                    None
                }
            },
            None => None,
        }
    }
}

/// A color gradient: its key count, then its keys in order.
#[verifier::opaque]
pub open spec fn spec_enc_keys_rgba(keys: Seq<GradientKey<Rgba>>) -> Seq<u8>
    recommends
        keys.len() <= u32::MAX,
{
    spec_enc_u32(keys.len() as u32) + spec_enc_key_items_rgba(keys)
}

/// Read a color gradient: at least one key, each on the strip.
#[verifier::opaque]
pub open spec fn spec_parse_keys_rgba(s: Seq<u8>) -> Option<(Seq<GradientKey<Rgba>>, Seq<u8>)> {
    match spec_parse_u32(s) {
        Some(tn) => {
            if tn.0 >= 1 {
                spec_parse_key_items_rgba(tn.1, tn.0 as int)
            } else {
                None
            }
        },
        None => None,
    }
}

/// Appending one key extends the encoded items at the end.
pub proof fn lemma_enc_items_push_rgba(keys: Seq<GradientKey<Rgba>>, k: GradientKey<Rgba>)
    ensures
        spec_enc_key_items_rgba(keys.push(k)) == spec_enc_key_items_rgba(keys) + spec_enc_u32(k.pos)
            + spec_enc_rgba(k.value),
    decreases keys.len(),
{
    reveal(spec_enc_key_items_rgba);
    if keys.len() == 0 {
        assert(keys.push(k).drop_first() =~= Seq::<GradientKey<Rgba>>::empty());
        assert(keys.push(k)[0] == k);
        assert(spec_enc_key_items_rgba(Seq::<GradientKey<Rgba>>::empty()) == Seq::<u8>::empty());
        assert(spec_enc_key_items_rgba(keys.push(k)) =~= spec_enc_key_items_rgba(keys)
            + spec_enc_u32(k.pos) + spec_enc_rgba(k.value));
    } else {
        assert(keys.push(k).drop_first() =~= keys.drop_first().push(k));
        assert(keys.push(k)[0] == keys[0]);
        lemma_enc_items_push_rgba(keys.drop_first(), k);
        assert(spec_enc_key_items_rgba(keys.push(k)) =~= spec_enc_key_items_rgba(keys)
            + spec_enc_u32(k.pos) + spec_enc_rgba(k.value));
    }
}

pub proof fn lemma_rt_key_items_rgba(keys: Seq<GradientKey<Rgba>>, rest: Seq<u8>)
    requires
        forall|i: int| 0 <= i < keys.len() ==> (#[trigger] keys[i]).pos <= POS_ONE,
    ensures
        spec_parse_key_items_rgba(spec_enc_key_items_rgba(keys) + rest, keys.len() as int) == Some(
            (keys, rest),
        ),
    decreases keys.len(),
{
    reveal(spec_enc_key_items_rgba);
    reveal(spec_parse_key_items_rgba);
    if keys.len() == 0 {
        assert(spec_enc_key_items_rgba(keys) + rest =~= rest);
        assert(keys =~= Seq::<GradientKey<Rgba>>::empty());
    } else {
        let k = keys[0];
        let tail = keys.drop_first();
        assert(spec_enc_key_items_rgba(keys) + rest =~= spec_enc_u32(k.pos) + (spec_enc_rgba(
            k.value,
        ) + (spec_enc_key_items_rgba(tail) + rest)));
        lemma_rt_u32(k.pos, spec_enc_rgba(k.value) + (spec_enc_key_items_rgba(tail) + rest));
        lemma_rt_rgba(k.value, spec_enc_key_items_rgba(tail) + rest);
        assert(forall|i: int| 0 <= i < tail.len() ==> (#[trigger] tail[i]).pos <= POS_ONE);
        lemma_rt_key_items_rgba(tail, rest);
        assert(seq![GradientKey { pos: k.pos, value: k.value }] + tail =~= keys);
    }
}

pub proof fn lemma_rt_keys_rgba(keys: Seq<GradientKey<Rgba>>, rest: Seq<u8>)
    requires
        1 <= keys.len() <= u32::MAX,
        forall|i: int| 0 <= i < keys.len() ==> (#[trigger] keys[i]).pos <= POS_ONE,
    ensures
        spec_parse_keys_rgba(spec_enc_keys_rgba(keys) + rest) == Some((keys, rest)),
{
    reveal(spec_enc_keys_rgba);
    reveal(spec_parse_keys_rgba);
    reveal(spec_enc_keys_rgba);
    reveal(spec_parse_keys_rgba);
    assert(spec_enc_keys_rgba(keys) + rest =~= spec_enc_u32(keys.len() as u32)
        + (spec_enc_key_items_rgba(keys) + rest));
    lemma_rt_u32(keys.len() as u32, spec_enc_key_items_rgba(keys) + rest);
    lemma_rt_key_items_rgba(keys, rest);
}

/// Write a color gradient's keys.
pub fn enc_keys_rgba(out: &mut Vec<u8>, g: &ColorGradient)
    requires
        g.wf(),
        g@.len() <= u32::MAX,
    ensures
        final(out)@ == old(out)@ + spec_enc_keys_rgba(g@),
{
    proof {
        reveal(spec_enc_keys_rgba);
        reveal(spec_enc_key_items_rgba);
    }
    proof {
        reveal(spec_enc_keys_rgba);
    }
    let n = g.len();
    enc_u32(out, n as u32);
    let mut i: usize = 0;
    while i < n
        invariant
            i <= n,
            n == g@.len(),
            g.wf(),
            out@ == old(out)@ + spec_enc_u32(g@.len() as u32) + spec_enc_key_items_rgba(
                g@.take(i as int),
            ),
        decreases n - i,
    {
        let k = *g.key(i);
        enc_u32(out, k.pos);
        enc_rgba(out, k.value);
        proof {
            lemma_enc_items_push_rgba(g@.take(i as int), g@[i as int]);
            assert(g@.take(i as int).push(g@[i as int]) =~= g@.take(i + 1));
        }
        i = i + 1;
    }
    proof {
        assert(g@.take(n as int) =~= g@);
        assert(out@ =~= old(out)@ + spec_enc_keys_rgba(g@));
    }
}

/// How a collected prefix combines with the rest of an item parse.
pub open spec fn prepend_keys_rgba(
    a: Seq<GradientKey<Rgba>>,
    o: Option<(Seq<GradientKey<Rgba>>, Seq<u8>)>,
) -> Option<(Seq<GradientKey<Rgba>>, Seq<u8>)> {
    match o {
        Some(t) => Some((a + t.0, t.1)),
        None => None,
    }
}

/// Read a color gradient at `pos`.
#[verifier::rlimit(60)]
pub fn parse_keys_rgba(s: &Vec<u8>, pos: usize) -> (r: Option<(Vec<GradientKey<Rgba>>, usize)>)
    requires
        pos <= s@.len(),
    ensures
        match r {
            Some(t) => pos < t.1 <= s@.len() && spec_parse_keys_rgba(s@.skip(pos as int)) == Some(
                (t.0@, s@.skip(t.1 as int)),
            ) && t.0@.len() >= 1 && forall|i: int|
                0 <= i < t.0@.len() ==> (#[trigger] t.0@[i]).pos <= POS_ONE,
            None => spec_parse_keys_rgba(s@.skip(pos as int)) is None,
        },
{
    proof {
        reveal(spec_parse_keys_rgba);
        reveal(spec_parse_key_items_rgba);
    }
    proof {
        reveal(spec_parse_keys_rgba);
    }
    let (n, p0) = match parse_u32(s, pos) {
        Some(t) => t,
        None => {
            return None;
        },
    };
    if n < 1 {
        return None;
    }
    let mut acc: Vec<GradientKey<Rgba>> = Vec::new();
    let mut cur = p0;
    let mut i: u32 = 0;
    proof {
        assert(prepend_keys_rgba(
            acc@,
            spec_parse_key_items_rgba(s@.skip(p0 as int), n as int),
        ) == spec_parse_key_items_rgba(s@.skip(p0 as int), n as int)) by {
            match spec_parse_key_items_rgba(s@.skip(p0 as int), n as int) {
                Some(t) => {
                    assert(acc@ + t.0 =~= t.0);
                },
                None => {},
            }
        }
    }
    while i < n
        invariant
            i <= n,
            n >= 1,
            cur <= s@.len(),
            acc@.len() == i,
            forall|j: int| 0 <= j < acc@.len() ==> (#[trigger] acc@[j]).pos <= POS_ONE,
            spec_parse_keys_rgba(s@.skip(pos as int)) == spec_parse_key_items_rgba(
                s@.skip(p0 as int),
                n as int,
            ),
            spec_parse_key_items_rgba(s@.skip(p0 as int), n as int) == prepend_keys_rgba(
                acc@,
                spec_parse_key_items_rgba(s@.skip(cur as int), n - i),
            ),
            pos < p0 <= cur,
        decreases n - i,
    {
        proof {
            reveal(spec_parse_keys_rgba);
            reveal(spec_parse_key_items_rgba);
        }
        let (kp, q1) = match parse_u32(s, cur) {
            Some(t) => t,
            None => {
                return None;
            },
        };
        if kp > POS_ONE {
            return None;
        }
        let (kv, q2) = match parse_rgba(s, q1) {
            Some(t) => t,
            None => {
                return None;
            },
        };
        let ghost accpre = acc@;
        acc.push(GradientKey { pos: kp, value: kv });
        proof {
            match spec_parse_key_items_rgba(s@.skip(q2 as int), n - i - 1) {
                Some(t) => {
                    assert(accpre + (seq![GradientKey { pos: kp, value: kv }] + t.0) =~= acc@
                        + t.0);
                },
                None => {},
            }
        }
        cur = q2;
        i = i + 1;
    }
    proof {
        assert(spec_parse_key_items_rgba(s@.skip(cur as int), 0) == Some(
            (Seq::<GradientKey<Rgba>>::empty(), s@.skip(cur as int)),
        ));
        assert(acc@ + Seq::<GradientKey<Rgba>>::empty() =~= acc@);
    }
    Some((acc, cur))
}

/// Size keyframes, each a position (on the strip) and a size.
#[verifier::opaque]
pub open spec fn spec_enc_key_items_size2(keys: Seq<GradientKey<Size2>>) -> Seq<u8>
    decreases keys.len(),
{
    if keys.len() == 0 {
        Seq::empty()
    } else {
        spec_enc_u32(keys[0].pos) + spec_enc_size2(keys[0].value) + spec_enc_key_items_size2(
            keys.drop_first(),
        )
    }
}

/// Read `n` color keyframes, each with its position checked onto the strip.
#[verifier::opaque]
pub open spec fn spec_parse_key_items_size2(s: Seq<u8>, n: int) -> Option<
    (Seq<GradientKey<Size2>>, Seq<u8>),
>
    decreases n,
{
    if n <= 0 {
        Some((Seq::empty(), s))
    } else {
        match spec_parse_u32(s) {
            Some(tp) => {
                if tp.0 <= POS_ONE {
                    match spec_parse_size2(tp.1) {
                        Some(tv) => match spec_parse_key_items_size2(tv.1, n - 1) {
                            Some(tr) => Some(
                                (seq![GradientKey { pos: tp.0, value: tv.0 }] + tr.0, tr.1),
                            ),
                            None => None,
                        },
                        None => None,
                    }
                } else {
                    None
                }
            },
            None => None,
        }
    }
}

/// A size gradient: its key count, then its keys in order.
#[verifier::opaque]
pub open spec fn spec_enc_keys_size2(keys: Seq<GradientKey<Size2>>) -> Seq<u8>
    recommends
        keys.len() <= u32::MAX,
{
    spec_enc_u32(keys.len() as u32) + spec_enc_key_items_size2(keys)
}

/// Read a size gradient: at least one key, each on the strip.
#[verifier::opaque]
pub open spec fn spec_parse_keys_size2(s: Seq<u8>) -> Option<(Seq<GradientKey<Size2>>, Seq<u8>)> {
    match spec_parse_u32(s) {
        Some(tn) => {
            if tn.0 >= 1 {
                spec_parse_key_items_size2(tn.1, tn.0 as int)
            } else {
                None
            }
        },
        None => None,
    }
}

/// Appending one key extends the encoded items at the end.
pub proof fn lemma_enc_items_push_size2(keys: Seq<GradientKey<Size2>>, k: GradientKey<Size2>)
    ensures
        spec_enc_key_items_size2(keys.push(k)) == spec_enc_key_items_size2(keys) + spec_enc_u32(k.pos)
            + spec_enc_size2(k.value),
    decreases keys.len(),
{
    reveal(spec_enc_key_items_size2);
    if keys.len() == 0 {
        assert(keys.push(k).drop_first() =~= Seq::<GradientKey<Size2>>::empty());
        assert(keys.push(k)[0] == k);
        assert(spec_enc_key_items_size2(Seq::<GradientKey<Size2>>::empty()) == Seq::<u8>::empty());
        assert(spec_enc_key_items_size2(keys.push(k)) =~= spec_enc_key_items_size2(keys)
            + spec_enc_u32(k.pos) + spec_enc_size2(k.value));
    } else {
        assert(keys.push(k).drop_first() =~= keys.drop_first().push(k));
        assert(keys.push(k)[0] == keys[0]);
        lemma_enc_items_push_size2(keys.drop_first(), k);
        assert(spec_enc_key_items_size2(keys.push(k)) =~= spec_enc_key_items_size2(keys)
            + spec_enc_u32(k.pos) + spec_enc_size2(k.value));
    }
}

pub proof fn lemma_rt_key_items_size2(keys: Seq<GradientKey<Size2>>, rest: Seq<u8>)
    requires
        forall|i: int| 0 <= i < keys.len() ==> (#[trigger] keys[i]).pos <= POS_ONE,
    ensures
        spec_parse_key_items_size2(spec_enc_key_items_size2(keys) + rest, keys.len() as int) == Some(
            (keys, rest),
        ),
    decreases keys.len(),
{
    reveal(spec_enc_key_items_size2);
    reveal(spec_parse_key_items_size2);
    if keys.len() == 0 {
        assert(spec_enc_key_items_size2(keys) + rest =~= rest);
        assert(keys =~= Seq::<GradientKey<Size2>>::empty());
    } else {
        let k = keys[0];
        let tail = keys.drop_first();
        assert(spec_enc_key_items_size2(keys) + rest =~= spec_enc_u32(k.pos) + (spec_enc_size2(
            k.value,
        ) + (spec_enc_key_items_size2(tail) + rest)));
        lemma_rt_u32(k.pos, spec_enc_size2(k.value) + (spec_enc_key_items_size2(tail) + rest));
        lemma_rt_size2(k.value, spec_enc_key_items_size2(tail) + rest);
        assert(forall|i: int| 0 <= i < tail.len() ==> (#[trigger] tail[i]).pos <= POS_ONE);
        lemma_rt_key_items_size2(tail, rest);
        assert(seq![GradientKey { pos: k.pos, value: k.value }] + tail =~= keys);
    }
}

pub proof fn lemma_rt_keys_size2(keys: Seq<GradientKey<Size2>>, rest: Seq<u8>)
    requires
        1 <= keys.len() <= u32::MAX,
        forall|i: int| 0 <= i < keys.len() ==> (#[trigger] keys[i]).pos <= POS_ONE,
    ensures
        spec_parse_keys_size2(spec_enc_keys_size2(keys) + rest) == Some((keys, rest)),
{
    reveal(spec_enc_keys_size2);
    reveal(spec_parse_keys_size2);
    reveal(spec_enc_keys_size2);
    reveal(spec_parse_keys_size2);
    assert(spec_enc_keys_size2(keys) + rest =~= spec_enc_u32(keys.len() as u32)
        + (spec_enc_key_items_size2(keys) + rest));
    lemma_rt_u32(keys.len() as u32, spec_enc_key_items_size2(keys) + rest);
    lemma_rt_key_items_size2(keys, rest);
}

/// Write a size gradient's keys.
pub fn enc_keys_size2(out: &mut Vec<u8>, g: &SizeGradient)
    requires
        g.wf(),
        g@.len() <= u32::MAX,
    ensures
        final(out)@ == old(out)@ + spec_enc_keys_size2(g@),
{
    proof {
        reveal(spec_enc_keys_size2);
        reveal(spec_enc_key_items_size2);
    }
    proof {
        reveal(spec_enc_keys_size2);
    }
    let n = g.len();
    enc_u32(out, n as u32);
    let mut i: usize = 0;
    while i < n
        invariant
            i <= n,
            n == g@.len(),
            g.wf(),
            out@ == old(out)@ + spec_enc_u32(g@.len() as u32) + spec_enc_key_items_size2(
                g@.take(i as int),
            ),
        decreases n - i,
    {
        let k = *g.key(i);
        enc_u32(out, k.pos);
        enc_size2(out, k.value);
        proof {
            lemma_enc_items_push_size2(g@.take(i as int), g@[i as int]);
            assert(g@.take(i as int).push(g@[i as int]) =~= g@.take(i + 1));
        }
        i = i + 1;
    }
    proof {
        assert(g@.take(n as int) =~= g@);
        assert(out@ =~= old(out)@ + spec_enc_keys_size2(g@));
    }
}

/// How a collected prefix combines with the rest of an item parse.
pub open spec fn prepend_keys_size2(
    a: Seq<GradientKey<Size2>>,
    o: Option<(Seq<GradientKey<Size2>>, Seq<u8>)>,
) -> Option<(Seq<GradientKey<Size2>>, Seq<u8>)> {
    match o {
        Some(t) => Some((a + t.0, t.1)),
        None => None,
    }
}

/// Read a size gradient at `pos`.
#[verifier::rlimit(60)]
pub fn parse_keys_size2(s: &Vec<u8>, pos: usize) -> (r: Option<(Vec<GradientKey<Size2>>, usize)>)
    requires
        pos <= s@.len(),
    ensures
        match r {
            Some(t) => pos < t.1 <= s@.len() && spec_parse_keys_size2(s@.skip(pos as int)) == Some(
                (t.0@, s@.skip(t.1 as int)),
            ) && t.0@.len() >= 1 && forall|i: int|
                0 <= i < t.0@.len() ==> (#[trigger] t.0@[i]).pos <= POS_ONE,
            None => spec_parse_keys_size2(s@.skip(pos as int)) is None,
        },
{
    proof {
        reveal(spec_parse_keys_size2);
        reveal(spec_parse_key_items_size2);
    }
    proof {
        reveal(spec_parse_keys_size2);
    }
    let (n, p0) = match parse_u32(s, pos) {
        Some(t) => t,
        None => {
            return None;
        },
    };
    if n < 1 {
        return None;
    }
    let mut acc: Vec<GradientKey<Size2>> = Vec::new();
    let mut cur = p0;
    let mut i: u32 = 0;
    proof {
        assert(prepend_keys_size2(
            acc@,
            spec_parse_key_items_size2(s@.skip(p0 as int), n as int),
        ) == spec_parse_key_items_size2(s@.skip(p0 as int), n as int)) by {
            match spec_parse_key_items_size2(s@.skip(p0 as int), n as int) {
                Some(t) => {
                    assert(acc@ + t.0 =~= t.0);
                },
                None => {},
            }
        }
    }
    while i < n
        invariant
            i <= n,
            n >= 1,
            cur <= s@.len(),
            acc@.len() == i,
            forall|j: int| 0 <= j < acc@.len() ==> (#[trigger] acc@[j]).pos <= POS_ONE,
            spec_parse_keys_size2(s@.skip(pos as int)) == spec_parse_key_items_size2(
                s@.skip(p0 as int),
                n as int,
            ),
            spec_parse_key_items_size2(s@.skip(p0 as int), n as int) == prepend_keys_size2(
                acc@,
                spec_parse_key_items_size2(s@.skip(cur as int), n - i),
            ),
            pos < p0 <= cur,
        decreases n - i,
    {
        proof {
            reveal(spec_parse_keys_size2);
            reveal(spec_parse_key_items_size2);
        }
        let (kp, q1) = match parse_u32(s, cur) {
            Some(t) => t,
            None => {
                return None;
            },
        };
        if kp > POS_ONE {
            return None;
        }
        let (kv, q2) = match parse_size2(s, q1) {
            Some(t) => t,
            None => {
                return None;
            },
        };
        let ghost accpre = acc@;
        acc.push(GradientKey { pos: kp, value: kv });
        proof {
            match spec_parse_key_items_size2(s@.skip(q2 as int), n - i - 1) {
                Some(t) => {
                    assert(accpre + (seq![GradientKey { pos: kp, value: kv }] + t.0) =~= acc@
                        + t.0);
                },
                None => {},
            }
        }
        cur = q2;
        i = i + 1;
    }
    proof {
        assert(spec_parse_key_items_size2(s@.skip(cur as int), 0) == Some(
            (Seq::<GradientKey<Size2>>::empty(), s@.skip(cur as int)),
        ));
        assert(acc@ + Seq::<GradientKey<Size2>>::empty() =~= acc@);
    }
    Some((acc, cur))
}


/// An optional slot: a presence flag, then the payload when present.
#[verifier::opaque]
pub open spec fn spec_enc_opt_velocity(v: Option<InitVelocity>) -> Seq<u8> {
    match v {
        Some(m) => spec_enc_bool(true) + spec_enc_init_velocity(m),
        None => spec_enc_bool(false),
    }
}

#[verifier::opaque]
pub open spec fn spec_parse_opt_velocity(s: Seq<u8>) -> Option<(Option<InitVelocity>, Seq<u8>)> {
    match spec_parse_bool(s) {
        Some(t) => {
            if t.0 {
                match spec_parse_init_velocity(t.1) {
                    Some(u) => Some((Some(u.0), u.1)),
                    None => None,
                }
            } else {
                Some((None, t.1))
            }
        },
        None => None,
    }
}

pub proof fn lemma_rt_opt_velocity(v: Option<InitVelocity>, rest: Seq<u8>)
    requires
        v matches Some(m) ==> m.wf(),
    ensures
        spec_parse_opt_velocity(spec_enc_opt_velocity(v) + rest) == Some((v, rest)),
{
    reveal(spec_enc_opt_velocity);
    reveal(spec_parse_opt_velocity);
    match v {
        Some(m) => {
            assert(spec_enc_opt_velocity(v) + rest =~= spec_enc_bool(true) + (spec_enc_init_velocity(m) + rest));
            lemma_rt_bool(true, spec_enc_init_velocity(m) + rest);
            lemma_rt_init_velocity(m, rest);
        },
        None => {
            assert(spec_enc_opt_velocity(v) + rest =~= spec_enc_bool(false) + rest);
            lemma_rt_bool(false, rest);
        },
    }
}

pub fn enc_opt_velocity(out: &mut Vec<u8>, v: &Option<InitVelocity>)
    ensures
        final(out)@ == old(out)@ + spec_enc_opt_velocity(*v),
{
    proof {
        reveal(spec_enc_opt_velocity);
    }
    match v {
        Some(m) => {
            enc_bool(out, true);
            enc_init_velocity(out, m);
        },
        None => {
            enc_bool(out, false);
        },
    }
    proof {
        assert(out@ =~= old(out)@ + spec_enc_opt_velocity(*v));
    }
}

pub fn parse_opt_velocity(s: &Vec<u8>, pos: usize) -> (r: Option<(Option<InitVelocity>, usize)>)
    requires
        pos <= s@.len(),
    ensures
        match r {
            Some(t) => pos < t.1 <= s@.len() && spec_parse_opt_velocity(s@.skip(pos as int)) == Some(
                (t.0, s@.skip(t.1 as int)),
            ) && (match t.0 {
                Some(m) => m.wf(),
                None => true,
            }),
            None => spec_parse_opt_velocity(s@.skip(pos as int)) is None,
        },
{
    proof {
        reveal(spec_parse_opt_velocity);
    }
    let (flag, p0) = match parse_bool(s, pos) {
        Some(t) => t,
        None => {
            return None;
        },
    };
    if flag {
        match parse_init_velocity(s, p0) {
            Some((m, p1)) => Some((Some(m), p1)),
            None => None,
        }
    } else {
        Some((None, p0))
    }
}

/// An optional slot: a presence flag, then the payload when present.
#[verifier::opaque]
pub open spec fn spec_enc_opt_value_u32(v: Option<Value<u32>>) -> Seq<u8> {
    match v {
        Some(m) => spec_enc_bool(true) + spec_enc_value_u32(m),
        None => spec_enc_bool(false),
    }
}

#[verifier::opaque]
pub open spec fn spec_parse_opt_value_u32(s: Seq<u8>) -> Option<(Option<Value<u32>>, Seq<u8>)> {
    match spec_parse_bool(s) {
        Some(t) => {
            if t.0 {
                match spec_parse_value_u32(t.1) {
                    Some(u) => Some((Some(u.0), u.1)),
                    None => None,
                }
            } else {
                Some((None, t.1))
            }
        },
        None => None,
    }
}

pub proof fn lemma_rt_opt_value_u32(v: Option<Value<u32>>, rest: Seq<u8>)
    requires
        v matches Some(m) ==> m.wf(),
    ensures
        spec_parse_opt_value_u32(spec_enc_opt_value_u32(v) + rest) == Some((v, rest)),
{
    reveal(spec_enc_opt_value_u32);
    reveal(spec_parse_opt_value_u32);
    match v {
        Some(m) => {
            assert(spec_enc_opt_value_u32(v) + rest =~= spec_enc_bool(true) + (spec_enc_value_u32(m) + rest));
            lemma_rt_bool(true, spec_enc_value_u32(m) + rest);
            lemma_rt_value_u32(m, rest);
        },
        None => {
            assert(spec_enc_opt_value_u32(v) + rest =~= spec_enc_bool(false) + rest);
            lemma_rt_bool(false, rest);
        },
    }
}

pub fn enc_opt_value_u32(out: &mut Vec<u8>, v: &Option<Value<u32>>)
    ensures
        final(out)@ == old(out)@ + spec_enc_opt_value_u32(*v),
{
    proof {
        reveal(spec_enc_opt_value_u32);
    }
    match v {
        Some(m) => {
            enc_bool(out, true);
            enc_value_u32(out, m);
        },
        None => {
            enc_bool(out, false);
        },
    }
    proof {
        assert(out@ =~= old(out)@ + spec_enc_opt_value_u32(*v));
    }
}

pub fn parse_opt_value_u32(s: &Vec<u8>, pos: usize) -> (r: Option<(Option<Value<u32>>, usize)>)
    requires
        pos <= s@.len(),
    ensures
        match r {
            Some(t) => pos < t.1 <= s@.len() && spec_parse_opt_value_u32(s@.skip(pos as int)) == Some(
                (t.0, s@.skip(t.1 as int)),
            ) && (match t.0 {
                Some(m) => m.wf(),
                None => true,
            }),
            None => spec_parse_opt_value_u32(s@.skip(pos as int)) is None,
        },
{
    proof {
        reveal(spec_parse_opt_value_u32);
    }
    let (flag, p0) = match parse_bool(s, pos) {
        Some(t) => t,
        None => {
            return None;
        },
    };
    if flag {
        match parse_value_u32(s, p0) {
            Some((m, p1)) => Some((Some(m), p1)),
            None => None,
        }
    } else {
        Some((None, p0))
    }
}

/// An optional slot: a presence flag, then the payload when present.
#[verifier::opaque]
pub open spec fn spec_enc_opt_accel(v: Option<UpdateAccel>) -> Seq<u8> {
    match v {
        Some(m) => spec_enc_bool(true) + spec_enc_update_accel(m),
        None => spec_enc_bool(false),
    }
}

#[verifier::opaque]
pub open spec fn spec_parse_opt_accel(s: Seq<u8>) -> Option<(Option<UpdateAccel>, Seq<u8>)> {
    match spec_parse_bool(s) {
        Some(t) => {
            if t.0 {
                match spec_parse_update_accel(t.1) {
                    Some(u) => Some((Some(u.0), u.1)),
                    None => None,
                }
            } else {
                Some((None, t.1))
            }
        },
        None => None,
    }
}

pub proof fn lemma_rt_opt_accel(v: Option<UpdateAccel>, rest: Seq<u8>)
    ensures
        spec_parse_opt_accel(spec_enc_opt_accel(v) + rest) == Some((v, rest)),
{
    reveal(spec_enc_opt_accel);
    reveal(spec_parse_opt_accel);
    match v {
        Some(m) => {
            assert(spec_enc_opt_accel(v) + rest =~= spec_enc_bool(true) + (spec_enc_update_accel(m) + rest));
            lemma_rt_bool(true, spec_enc_update_accel(m) + rest);
            lemma_rt_update_accel(m, rest);
        },
        None => {
            assert(spec_enc_opt_accel(v) + rest =~= spec_enc_bool(false) + rest);
            lemma_rt_bool(false, rest);
        },
    }
}

pub fn enc_opt_accel(out: &mut Vec<u8>, v: &Option<UpdateAccel>)
    ensures
        final(out)@ == old(out)@ + spec_enc_opt_accel(*v),
{
    proof {
        reveal(spec_enc_opt_accel);
    }
    match v {
        Some(m) => {
            enc_bool(out, true);
            enc_update_accel(out, m);
        },
        None => {
            enc_bool(out, false);
        },
    }
    proof {
        assert(out@ =~= old(out)@ + spec_enc_opt_accel(*v));
    }
}

pub fn parse_opt_accel(s: &Vec<u8>, pos: usize) -> (r: Option<(Option<UpdateAccel>, usize)>)
    requires
        pos <= s@.len(),
    ensures
        match r {
            Some(t) => pos < t.1 <= s@.len() && spec_parse_opt_accel(s@.skip(pos as int)) == Some(
                (t.0, s@.skip(t.1 as int)),
            ),
            None => spec_parse_opt_accel(s@.skip(pos as int)) is None,
        },
{
    proof {
        reveal(spec_parse_opt_accel);
    }
    let (flag, p0) = match parse_bool(s, pos) {
        Some(t) => t,
        None => {
            return None;
        },
    };
    if flag {
        match parse_update_accel(s, p0) {
            Some((m, p1)) => Some((Some(m), p1)),
            None => None,
        }
    } else {
        Some((None, p0))
    }
}

/// An optional slot: a presence flag, then the payload when present.
#[verifier::opaque]
pub open spec fn spec_enc_opt_force_field(v: Option<ForceFieldModifier>) -> Seq<u8> {
    match v {
        Some(m) => spec_enc_bool(true) + spec_enc_force_field(m),
        None => spec_enc_bool(false),
    }
}

#[verifier::opaque]
pub open spec fn spec_parse_opt_force_field(s: Seq<u8>) -> Option<(Option<ForceFieldModifier>, Seq<u8>)> {
    match spec_parse_bool(s) {
        Some(t) => {
            if t.0 {
                match spec_parse_force_field(t.1) {
                    Some(u) => Some((Some(u.0), u.1)),
                    None => None,
                }
            } else {
                Some((None, t.1))
            }
        },
        None => None,
    }
}

pub proof fn lemma_rt_opt_force_field(v: Option<ForceFieldModifier>, rest: Seq<u8>)
    ensures
        spec_parse_opt_force_field(spec_enc_opt_force_field(v) + rest) == Some((v, rest)),
{
    reveal(spec_enc_opt_force_field);
    reveal(spec_parse_opt_force_field);
    match v {
        Some(m) => {
            assert(spec_enc_opt_force_field(v) + rest =~= spec_enc_bool(true) + (spec_enc_force_field(m) + rest));
            lemma_rt_bool(true, spec_enc_force_field(m) + rest);
            lemma_rt_force_field(m, rest);
        },
        None => {
            assert(spec_enc_opt_force_field(v) + rest =~= spec_enc_bool(false) + rest);
            lemma_rt_bool(false, rest);
        },
    }
}

pub fn enc_opt_force_field(out: &mut Vec<u8>, v: &Option<ForceFieldModifier>)
    ensures
        final(out)@ == old(out)@ + spec_enc_opt_force_field(*v),
{
    proof {
        reveal(spec_enc_opt_force_field);
    }
    match v {
        Some(m) => {
            enc_bool(out, true);
            enc_force_field(out, m);
        },
        None => {
            enc_bool(out, false);
        },
    }
    proof {
        assert(out@ =~= old(out)@ + spec_enc_opt_force_field(*v));
    }
}

pub fn parse_opt_force_field(s: &Vec<u8>, pos: usize) -> (r: Option<(Option<ForceFieldModifier>, usize)>)
    requires
        pos <= s@.len(),
    ensures
        match r {
            Some(t) => pos < t.1 <= s@.len() && spec_parse_opt_force_field(s@.skip(pos as int)) == Some(
                (t.0, s@.skip(t.1 as int)),
            ),
            None => spec_parse_opt_force_field(s@.skip(pos as int)) is None,
        },
{
    proof {
        reveal(spec_parse_opt_force_field);
    }
    let (flag, p0) = match parse_bool(s, pos) {
        Some(t) => t,
        None => {
            return None;
        },
    };
    if flag {
        match parse_force_field(s, p0) {
            Some((m, p1)) => Some((Some(m), p1)),
            None => None,
        }
    } else {
        Some((None, p0))
    }
}

/// An optional slot: a presence flag, then the payload when present.
#[verifier::opaque]
pub open spec fn spec_enc_opt_aabb(v: Option<AabbKillModifier>) -> Seq<u8> {
    match v {
        Some(m) => spec_enc_bool(true) + spec_enc_aabb(m),
        None => spec_enc_bool(false),
    }
}

#[verifier::opaque]
pub open spec fn spec_parse_opt_aabb(s: Seq<u8>) -> Option<(Option<AabbKillModifier>, Seq<u8>)> {
    match spec_parse_bool(s) {
        Some(t) => {
            if t.0 {
                match spec_parse_aabb(t.1) {
                    Some(u) => Some((Some(u.0), u.1)),
                    None => None,
                }
            } else {
                Some((None, t.1))
            }
        },
        None => None,
    }
}

pub proof fn lemma_rt_opt_aabb(v: Option<AabbKillModifier>, rest: Seq<u8>)
    ensures
        spec_parse_opt_aabb(spec_enc_opt_aabb(v) + rest) == Some((v, rest)),
{
    reveal(spec_enc_opt_aabb);
    reveal(spec_parse_opt_aabb);
    match v {
        Some(m) => {
            assert(spec_enc_opt_aabb(v) + rest =~= spec_enc_bool(true) + (spec_enc_aabb(m) + rest));
            lemma_rt_bool(true, spec_enc_aabb(m) + rest);
            lemma_rt_aabb(m, rest);
        },
        None => {
            assert(spec_enc_opt_aabb(v) + rest =~= spec_enc_bool(false) + rest);
            lemma_rt_bool(false, rest);
        },
    }
}

pub fn enc_opt_aabb(out: &mut Vec<u8>, v: &Option<AabbKillModifier>)
    ensures
        final(out)@ == old(out)@ + spec_enc_opt_aabb(*v),
{
    proof {
        reveal(spec_enc_opt_aabb);
    }
    match v {
        Some(m) => {
            enc_bool(out, true);
            enc_aabb(out, m);
        },
        None => {
            enc_bool(out, false);
        },
    }
    proof {
        assert(out@ =~= old(out)@ + spec_enc_opt_aabb(*v));
    }
}

pub fn parse_opt_aabb(s: &Vec<u8>, pos: usize) -> (r: Option<(Option<AabbKillModifier>, usize)>)
    requires
        pos <= s@.len(),
    ensures
        match r {
            Some(t) => pos < t.1 <= s@.len() && spec_parse_opt_aabb(s@.skip(pos as int)) == Some(
                (t.0, s@.skip(t.1 as int)),
            ),
            None => spec_parse_opt_aabb(s@.skip(pos as int)) is None,
        },
{
    proof {
        reveal(spec_parse_opt_aabb);
    }
    let (flag, p0) = match parse_bool(s, pos) {
        Some(t) => t,
        None => {
            return None;
        },
    };
    if flag {
        match parse_aabb(s, p0) {
            Some((m, p1)) => Some((Some(m), p1)),
            None => None,
        }
    } else {
        Some((None, p0))
    }
}

/// An optional slot: a presence flag, then the payload when present.
#[verifier::opaque]
pub open spec fn spec_enc_opt_value_rgba(v: Option<Value<Rgba>>) -> Seq<u8> {
    match v {
        Some(m) => spec_enc_bool(true) + spec_enc_value_rgba(m),
        None => spec_enc_bool(false),
    }
}

#[verifier::opaque]
pub open spec fn spec_parse_opt_value_rgba(s: Seq<u8>) -> Option<(Option<Value<Rgba>>, Seq<u8>)> {
    match spec_parse_bool(s) {
        Some(t) => {
            if t.0 {
                match spec_parse_value_rgba(t.1) {
                    Some(u) => Some((Some(u.0), u.1)),
                    None => None,
                }
            } else {
                Some((None, t.1))
            }
        },
        None => None,
    }
}

pub proof fn lemma_rt_opt_value_rgba(v: Option<Value<Rgba>>, rest: Seq<u8>)
    ensures
        spec_parse_opt_value_rgba(spec_enc_opt_value_rgba(v) + rest) == Some((v, rest)),
{
    reveal(spec_enc_opt_value_rgba);
    reveal(spec_parse_opt_value_rgba);
    match v {
        Some(m) => {
            assert(spec_enc_opt_value_rgba(v) + rest =~= spec_enc_bool(true) + (spec_enc_value_rgba(m) + rest));
            lemma_rt_bool(true, spec_enc_value_rgba(m) + rest);
            lemma_rt_value_rgba(m, rest);
        },
        None => {
            assert(spec_enc_opt_value_rgba(v) + rest =~= spec_enc_bool(false) + rest);
            lemma_rt_bool(false, rest);
        },
    }
}

pub fn enc_opt_value_rgba(out: &mut Vec<u8>, v: &Option<Value<Rgba>>)
    ensures
        final(out)@ == old(out)@ + spec_enc_opt_value_rgba(*v),
{
    proof {
        reveal(spec_enc_opt_value_rgba);
    }
    match v {
        Some(m) => {
            enc_bool(out, true);
            enc_value_rgba(out, m);
        },
        None => {
            enc_bool(out, false);
        },
    }
    proof {
        assert(out@ =~= old(out)@ + spec_enc_opt_value_rgba(*v));
    }
}

pub fn parse_opt_value_rgba(s: &Vec<u8>, pos: usize) -> (r: Option<(Option<Value<Rgba>>, usize)>)
    requires
        pos <= s@.len(),
    ensures
        match r {
            Some(t) => pos < t.1 <= s@.len() && spec_parse_opt_value_rgba(s@.skip(pos as int)) == Some(
                (t.0, s@.skip(t.1 as int)),
            ),
            None => spec_parse_opt_value_rgba(s@.skip(pos as int)) is None,
        },
{
    proof {
        reveal(spec_parse_opt_value_rgba);
    }
    let (flag, p0) = match parse_bool(s, pos) {
        Some(t) => t,
        None => {
            return None;
        },
    };
    if flag {
        match parse_value_rgba(s, p0) {
            Some((m, p1)) => Some((Some(m), p1)),
            None => None,
        }
    } else {
        Some((None, p0))
    }
}

/// An optional slot: a presence flag, then the payload when present.
#[verifier::opaque]
pub open spec fn spec_enc_opt_value_size2(v: Option<Value<Size2>>) -> Seq<u8> {
    match v {
        Some(m) => spec_enc_bool(true) + spec_enc_value_size2(m),
        None => spec_enc_bool(false),
    }
}

#[verifier::opaque]
pub open spec fn spec_parse_opt_value_size2(s: Seq<u8>) -> Option<(Option<Value<Size2>>, Seq<u8>)> {
    match spec_parse_bool(s) {
        Some(t) => {
            if t.0 {
                match spec_parse_value_size2(t.1) {
                    Some(u) => Some((Some(u.0), u.1)),
                    None => None,
                }
            } else {
                Some((None, t.1))
            }
        },
        None => None,
    }
}

pub proof fn lemma_rt_opt_value_size2(v: Option<Value<Size2>>, rest: Seq<u8>)
    ensures
        spec_parse_opt_value_size2(spec_enc_opt_value_size2(v) + rest) == Some((v, rest)),
{
    reveal(spec_enc_opt_value_size2);
    reveal(spec_parse_opt_value_size2);
    match v {
        Some(m) => {
            assert(spec_enc_opt_value_size2(v) + rest =~= spec_enc_bool(true) + (spec_enc_value_size2(m) + rest));
            lemma_rt_bool(true, spec_enc_value_size2(m) + rest);
            lemma_rt_value_size2(m, rest);
        },
        None => {
            assert(spec_enc_opt_value_size2(v) + rest =~= spec_enc_bool(false) + rest);
            lemma_rt_bool(false, rest);
        },
    }
}

pub fn enc_opt_value_size2(out: &mut Vec<u8>, v: &Option<Value<Size2>>)
    ensures
        final(out)@ == old(out)@ + spec_enc_opt_value_size2(*v),
{
    proof {
        reveal(spec_enc_opt_value_size2);
    }
    match v {
        Some(m) => {
            enc_bool(out, true);
            enc_value_size2(out, m);
        },
        None => {
            enc_bool(out, false);
        },
    }
    proof {
        assert(out@ =~= old(out)@ + spec_enc_opt_value_size2(*v));
    }
}

pub fn parse_opt_value_size2(s: &Vec<u8>, pos: usize) -> (r: Option<(Option<Value<Size2>>, usize)>)
    requires
        pos <= s@.len(),
    ensures
        match r {
            Some(t) => pos < t.1 <= s@.len() && spec_parse_opt_value_size2(s@.skip(pos as int)) == Some(
                (t.0, s@.skip(t.1 as int)),
            ),
            None => spec_parse_opt_value_size2(s@.skip(pos as int)) is None,
        },
{
    proof {
        reveal(spec_parse_opt_value_size2);
    }
    let (flag, p0) = match parse_bool(s, pos) {
        Some(t) => t,
        None => {
            return None;
        },
    };
    if flag {
        match parse_value_size2(s, p0) {
            Some((m, p1)) => Some((Some(m), p1)),
            None => None,
        }
    } else {
        Some((None, p0))
    }
}
/// An optional drag modifier: a presence flag, then its coefficient.
#[verifier::opaque]
pub open spec fn spec_enc_opt_drag(v: Option<LinearDragModifier>) -> Seq<u8> {
    match v {
        Some(m) => spec_enc_bool(true) + spec_enc_u32(m.drag),
        None => spec_enc_bool(false),
    }
}

#[verifier::opaque]
pub open spec fn spec_parse_opt_drag(s: Seq<u8>) -> Option<(Option<LinearDragModifier>, Seq<u8>)> {
    match spec_parse_bool(s) {
        Some(t) => {
            if t.0 {
                match spec_parse_u32(t.1) {
                    Some(u) => Some((Some(LinearDragModifier { drag: u.0 }), u.1)),
                    None => None,
                }
            } else {
                Some((None, t.1))
            }
        },
        None => None,
    }
}

pub proof fn lemma_rt_opt_drag(v: Option<LinearDragModifier>, rest: Seq<u8>)
    ensures
        spec_parse_opt_drag(spec_enc_opt_drag(v) + rest) == Some((v, rest)),
{
    reveal(spec_enc_opt_drag);
    reveal(spec_parse_opt_drag);
    match v {
        Some(m) => {
            assert(spec_enc_opt_drag(v) + rest =~= spec_enc_bool(true) + (spec_enc_u32(m.drag)
                + rest));
            lemma_rt_bool(true, spec_enc_u32(m.drag) + rest);
            lemma_rt_u32(m.drag, rest);
        },
        None => {
            assert(spec_enc_opt_drag(v) + rest =~= spec_enc_bool(false) + rest);
            lemma_rt_bool(false, rest);
        },
    }
}

pub fn enc_opt_drag(out: &mut Vec<u8>, v: &Option<LinearDragModifier>)
    ensures
        final(out)@ == old(out)@ + spec_enc_opt_drag(*v),
{
    proof {
        reveal(spec_enc_opt_drag);
    }
    match v {
        Some(m) => {
            enc_bool(out, true);
            enc_u32(out, m.drag);
        },
        None => {
            enc_bool(out, false);
        },
    }
    proof {
        assert(out@ =~= old(out)@ + spec_enc_opt_drag(*v));
    }
}

pub fn parse_opt_drag(s: &Vec<u8>, pos: usize) -> (r: Option<(Option<LinearDragModifier>, usize)>)
    requires
        pos <= s@.len(),
    ensures
        match r {
            Some(t) => pos < t.1 <= s@.len() && spec_parse_opt_drag(s@.skip(pos as int)) == Some(
                (t.0, s@.skip(t.1 as int)),
            ),
            None => spec_parse_opt_drag(s@.skip(pos as int)) is None,
        },
{
    proof {
        reveal(spec_parse_opt_drag);
    }
    let (flag, p0) = match parse_bool(s, pos) {
        Some(t) => t,
        None => {
            return None;
        },
    };
    if flag {
        match parse_u32(s, p0) {
            Some((d, p1)) => Some((Some(LinearDragModifier { drag: d }), p1)),
            None => None,
        }
    } else {
        Some((None, p0))
    }
}

/// An optional color gradient: a presence flag, then its keys.
#[verifier::opaque]
pub open spec fn spec_enc_opt_keys_rgba(v: Option<Seq<GradientKey<Rgba>>>) -> Seq<u8> {
    match v {
        Some(ks) => spec_enc_bool(true) + spec_enc_keys_rgba(ks),
        None => spec_enc_bool(false),
    }
}

#[verifier::opaque]
pub open spec fn spec_parse_opt_keys_rgba(s: Seq<u8>) -> Option<
    (Option<Seq<GradientKey<Rgba>>>, Seq<u8>),
> {
    match spec_parse_bool(s) {
        Some(t) => {
            if t.0 {
                match spec_parse_keys_rgba(t.1) {
                    Some(u) => Some((Some(u.0), u.1)),
                    None => None,
                }
            } else {
                Some((None, t.1))
            }
        },
        None => None,
    }
}

pub proof fn lemma_rt_opt_keys_rgba(v: Option<Seq<GradientKey<Rgba>>>, rest: Seq<u8>)
    requires
        v matches Some(ks) ==> 1 <= ks.len() <= u32::MAX && forall|i: int|
            0 <= i < ks.len() ==> (#[trigger] ks[i]).pos <= POS_ONE,
    ensures
        spec_parse_opt_keys_rgba(spec_enc_opt_keys_rgba(v) + rest) == Some((v, rest)),
{
    reveal(spec_enc_opt_keys_rgba);
    reveal(spec_parse_opt_keys_rgba);
    match v {
        Some(ks) => {
            assert(spec_enc_opt_keys_rgba(v) + rest =~= spec_enc_bool(true) + (spec_enc_keys_rgba(
                ks,
            ) + rest));
            lemma_rt_bool(true, spec_enc_keys_rgba(ks) + rest);
            lemma_rt_keys_rgba(ks, rest);
        },
        None => {
            assert(spec_enc_opt_keys_rgba(v) + rest =~= spec_enc_bool(false) + rest);
            lemma_rt_bool(false, rest);
        },
    }
}

pub fn enc_opt_keys_rgba(out: &mut Vec<u8>, v: &Option<ColorGradient>)
    requires
        match v {
            Some(g) => g.wf() && g@.len() <= u32::MAX,
            None => true,
        },
    ensures
        final(out)@ == old(out)@ + spec_enc_opt_keys_rgba(
            match v {
                Some(g) => Some(g@),
                None => None,
            },
        ),
{
    proof {
        reveal(spec_enc_opt_keys_rgba);
    }
    match v {
        Some(g) => {
            enc_bool(out, true);
            enc_keys_rgba(out, g);
        },
        None => {
            enc_bool(out, false);
        },
    }
    proof {
        assert(out@ =~= old(out)@ + spec_enc_opt_keys_rgba(
            match v {
                Some(g) => Some(g@),
                None => None,
            },
        ));
    }
}

pub fn parse_opt_keys_rgba(s: &Vec<u8>, pos: usize) -> (r: Option<(Option<ColorGradient>, usize)>)
    requires
        pos <= s@.len(),
    ensures
        match r {
            Some(t) => pos < t.1 <= s@.len() && spec_parse_opt_keys_rgba(s@.skip(pos as int))
                == Some(
                (
                    match t.0 {
                        Some(g) => Some(g@),
                        None => None,
                    },
                    s@.skip(t.1 as int),
                ),
            ) && (match t.0 {
                Some(g) => g.wf(),
                None => true,
            }),
            None => spec_parse_opt_keys_rgba(s@.skip(pos as int)) is None,
        },
{
    proof {
        reveal(spec_parse_opt_keys_rgba);
    }
    let (flag, p0) = match parse_bool(s, pos) {
        Some(t) => t,
        None => {
            return None;
        },
    };
    if flag {
        match parse_keys_rgba(s, p0) {
            Some((ks, p1)) => {
                let g = crate::gradient::Gradient::from_keys(ks);
                Some((Some(g), p1))
            },
            None => None,
        }
    } else {
        Some((None, p0))
    }
}

/// An optional size gradient: a presence flag, then its keys.
#[verifier::opaque]
pub open spec fn spec_enc_opt_keys_size2(v: Option<Seq<GradientKey<Size2>>>) -> Seq<u8> {
    match v {
        Some(ks) => spec_enc_bool(true) + spec_enc_keys_size2(ks),
        None => spec_enc_bool(false),
    }
}

#[verifier::opaque]
pub open spec fn spec_parse_opt_keys_size2(s: Seq<u8>) -> Option<
    (Option<Seq<GradientKey<Size2>>>, Seq<u8>),
> {
    match spec_parse_bool(s) {
        Some(t) => {
            if t.0 {
                match spec_parse_keys_size2(t.1) {
                    Some(u) => Some((Some(u.0), u.1)),
                    None => None,
                }
            } else {
                Some((None, t.1))
            }
        },
        None => None,
    }
}

pub proof fn lemma_rt_opt_keys_size2(v: Option<Seq<GradientKey<Size2>>>, rest: Seq<u8>)
    requires
        v matches Some(ks) ==> 1 <= ks.len() <= u32::MAX && forall|i: int|
            0 <= i < ks.len() ==> (#[trigger] ks[i]).pos <= POS_ONE,
    ensures
        spec_parse_opt_keys_size2(spec_enc_opt_keys_size2(v) + rest) == Some((v, rest)),
{
    reveal(spec_enc_opt_keys_size2);
    reveal(spec_parse_opt_keys_size2);
    match v {
        Some(ks) => {
            assert(spec_enc_opt_keys_size2(v) + rest =~= spec_enc_bool(true) + (spec_enc_keys_size2(
                ks,
            ) + rest));
            lemma_rt_bool(true, spec_enc_keys_size2(ks) + rest);
            lemma_rt_keys_size2(ks, rest);
        },
        None => {
            assert(spec_enc_opt_keys_size2(v) + rest =~= spec_enc_bool(false) + rest);
            lemma_rt_bool(false, rest);
        },
    }
}

pub fn enc_opt_keys_size2(out: &mut Vec<u8>, v: &Option<SizeGradient>)
    requires
        match v {
            Some(g) => g.wf() && g@.len() <= u32::MAX,
            None => true,
        },
    ensures
        final(out)@ == old(out)@ + spec_enc_opt_keys_size2(
            match v {
                Some(g) => Some(g@),
                None => None,
            },
        ),
{
    proof {
        reveal(spec_enc_opt_keys_size2);
    }
    match v {
        Some(g) => {
            enc_bool(out, true);
            enc_keys_size2(out, g);
        },
        None => {
            enc_bool(out, false);
        },
    }
    proof {
        assert(out@ =~= old(out)@ + spec_enc_opt_keys_size2(
            match v {
                Some(g) => Some(g@),
                None => None,
            },
        ));
    }
}

pub fn parse_opt_keys_size2(s: &Vec<u8>, pos: usize) -> (r: Option<(Option<SizeGradient>, usize)>)
    requires
        pos <= s@.len(),
    ensures
        match r {
            Some(t) => pos < t.1 <= s@.len() && spec_parse_opt_keys_size2(s@.skip(pos as int))
                == Some(
                (
                    match t.0 {
                        Some(g) => Some(g@),
                        None => None,
                    },
                    s@.skip(t.1 as int),
                ),
            ) && (match t.0 {
                Some(g) => g.wf(),
                None => true,
            }),
            None => spec_parse_opt_keys_size2(s@.skip(pos as int)) is None,
        },
{
    proof {
        reveal(spec_parse_opt_keys_size2);
    }
    let (flag, p0) = match parse_bool(s, pos) {
        Some(t) => t,
        None => {
            return None;
        },
    };
    if flag {
        match parse_keys_size2(s, p0) {
            Some((ks, p1)) => {
                let g = crate::gradient::Gradient::from_keys(ks);
                Some((Some(g), p1))
            },
            None => None,
        }
    } else {
        Some((None, p0))
    }
}

/// The identity and spawning fields: name, capacity, the spawner's three
/// values and two flags, and the two simulation settings.
#[verifier::opaque]
pub open spec fn spec_enc_header(v: EffectView) -> Seq<u8> {
    spec_enc_bytes(v.name) + spec_enc_u32(v.capacity) + spec_enc_value_u32(v.spawner.num_particles)
        + spec_enc_value_u32(v.spawner.spawn_time) + spec_enc_value_u32(v.spawner.period)
        + spec_enc_bool(v.spawner.starts_active) + spec_enc_bool(v.spawner.starts_immediately)
        + spec_enc_space(v.simulation_space) + spec_enc_cond(v.simulation_condition)
}

#[verifier::opaque]
pub open spec fn spec_parse_header(s: Seq<u8>) -> Option<
    ((Seq<u8>, u32, Spawner, SimulationSpace, SimulationCondition), Seq<u8>),
> {
    match spec_parse_bytes(s) {
        Some(t1) => match spec_parse_u32(t1.1) {
            Some(t2) => match spec_parse_value_u32(t2.1) {
                Some(t3) => match spec_parse_value_u32(t3.1) {
                    Some(t4) => match spec_parse_value_u32(t4.1) {
                        Some(t5) => match spec_parse_bool(t5.1) {
                            Some(t6) => match spec_parse_bool(t6.1) {
                                Some(t7) => match spec_parse_space(t7.1) {
                                    Some(t8) => match spec_parse_cond(t8.1) {
                                        Some(t9) => Some(
                                            (
                                                (
                                                    t1.0,
                                                    t2.0,
                                                    Spawner {
                                                        num_particles: t3.0,
                                                        spawn_time: t4.0,
                                                        period: t5.0,
                                                        starts_active: t6.0,
                                                        starts_immediately: t7.0,
                                                    },
                                                    t8.0,
                                                    t9.0,
                                                ),
                                                t9.1,
                                            ),
                                        ),
                                        None => None,
                                    },
                                    None => None,
                                },
                                None => None,
                            },
                            None => None,
                        },
                        None => None,
                    },
                    None => None,
                },
                None => None,
            },
            None => None,
        },
        None => None,
    }
}

pub proof fn lemma_rt_header(v: EffectView, rest: Seq<u8>)
    requires
        v.name.len() <= u32::MAX,
        v.spawner.wf(),
    ensures
        spec_parse_header(spec_enc_header(v) + rest) == Some(
            (
                (v.name, v.capacity, v.spawner, v.simulation_space, v.simulation_condition),
                rest,
            ),
        ),
{
    reveal(spec_enc_header);
    reveal(spec_parse_header);
    let e1 = spec_enc_bytes(v.name);
    let e2 = spec_enc_u32(v.capacity);
    let e3 = spec_enc_value_u32(v.spawner.num_particles);
    let e4 = spec_enc_value_u32(v.spawner.spawn_time);
    let e5 = spec_enc_value_u32(v.spawner.period);
    let e6 = spec_enc_bool(v.spawner.starts_active);
    let e7 = spec_enc_bool(v.spawner.starts_immediately);
    let e8 = spec_enc_space(v.simulation_space);
    let e9 = spec_enc_cond(v.simulation_condition);
    let t9 = rest;
    let t8 = e9 + t9;
    let t7 = e8 + t8;
    let t6 = e7 + t7;
    let t5 = e6 + t6;
    let t4 = e5 + t5;
    let t3 = e4 + t4;
    let t2 = e3 + t3;
    let t1 = e2 + t2;
    assert(spec_enc_header(v) + rest =~= e1 + t1);
    lemma_rt_bytes(v.name, t1);
    lemma_rt_u32(v.capacity, t2);
    lemma_rt_value_u32(v.spawner.num_particles, t3);
    lemma_rt_value_u32(v.spawner.spawn_time, t4);
    lemma_rt_value_u32(v.spawner.period, t5);
    lemma_rt_bool(v.spawner.starts_active, t6);
    lemma_rt_bool(v.spawner.starts_immediately, t7);
    lemma_rt_space(v.simulation_space, t8);
    lemma_rt_cond(v.simulation_condition, t9);
    assert(v.spawner == (Spawner {
        num_particles: v.spawner.num_particles,
        spawn_time: v.spawner.spawn_time,
        period: v.spawner.period,
        starts_active: v.spawner.starts_active,
        starts_immediately: v.spawner.starts_immediately,
    }));
}

pub fn enc_header(out: &mut Vec<u8>, e: &REffect)
    requires
        e.name@.len() <= u32::MAX,
    ensures
        final(out)@ == old(out)@ + spec_enc_header(e@),
{
    proof {
        reveal(spec_enc_header);
    }
    enc_bytes(out, &e.name);
    enc_u32(out, e.capacity);
    enc_value_u32(out, &e.spawner.num_particles);
    enc_value_u32(out, &e.spawner.spawn_time);
    enc_value_u32(out, &e.spawner.period);
    enc_bool(out, e.spawner.starts_active);
    enc_bool(out, e.spawner.starts_immediately);
    enc_space(out, e.simulation_space);
    enc_cond(out, e.simulation_condition);
    proof {
        assert(out@ =~= old(out)@ + spec_enc_header(e@));
    }
}

#[verifier::rlimit(60)]
pub fn parse_header(s: &Vec<u8>, pos: usize) -> (r: Option<
    ((Vec<u8>, u32, Spawner, SimulationSpace, SimulationCondition), usize),
>)
    requires
        pos <= s@.len(),
    ensures
        match r {
            Some(t) => pos < t.1 <= s@.len() && spec_parse_header(s@.skip(pos as int)) == Some(
                ((t.0.0@, t.0.1, t.0.2, t.0.3, t.0.4), s@.skip(t.1 as int)),
            ) && t.0.2.wf(),
            None => spec_parse_header(s@.skip(pos as int)) is None,
        },
{
    proof {
        reveal(spec_parse_header);
    }
    let (name, p1) = match parse_bytes(s, pos) {
        Some(t) => t,
        None => {
            return None;
        },
    };
    let (capacity, p2) = match parse_u32(s, p1) {
        Some(t) => t,
        None => {
            return None;
        },
    };
    let (num_particles, p3) = match parse_value_u32(s, p2) {
        Some(t) => t,
        None => {
            return None;
        },
    };
    let (spawn_time, p4) = match parse_value_u32(s, p3) {
        Some(t) => t,
        None => {
            return None;
        },
    };
    let (period, p5) = match parse_value_u32(s, p4) {
        Some(t) => t,
        None => {
            return None;
        },
    };
    let (starts_active, p6) = match parse_bool(s, p5) {
        Some(t) => t,
        None => {
            return None;
        },
    };
    let (starts_immediately, p7) = match parse_bool(s, p6) {
        Some(t) => t,
        None => {
            return None;
        },
    };
    let (space, p8) = match parse_space(s, p7) {
        Some(t) => t,
        None => {
            return None;
        },
    };
    let (cond, p9) = match parse_cond(s, p8) {
        Some(t) => t,
        None => {
            return None;
        },
    };
    let spawner = Spawner { num_particles, spawn_time, period, starts_active, starts_immediately };
    Some(((name, capacity, spawner, space, cond), p9))
}

/// The initial phase's slots, in slot order.
#[verifier::opaque]
pub open spec fn spec_enc_init(v: EffectView) -> Seq<u8> {
    spec_enc_init_position(v.init_position) + spec_enc_opt_velocity(v.init_velocity)
        + spec_enc_opt_value_u32(
        match v.init_size {
            Some(m) => Some(m.size),
            None => None,
        },
    ) + spec_enc_opt_value_u32(
        match v.init_age {
            Some(m) => Some(m.age),
            None => None,
        },
    ) + spec_enc_opt_value_u32(
        match v.init_lifetime {
            Some(m) => Some(m.lifetime),
            None => None,
        },
    )
}

#[verifier::opaque]
pub open spec fn spec_parse_init(s: Seq<u8>) -> Option<
    (
        (
            InitPosition,
            Option<InitVelocity>,
            Option<InitSizeModifier>,
            Option<InitAgeModifier>,
            Option<InitLifetimeModifier>,
        ),
        Seq<u8>,
    ),
> {
    match spec_parse_init_position(s) {
        Some(t1) => match spec_parse_opt_velocity(t1.1) {
            Some(t2) => match spec_parse_opt_value_u32(t2.1) {
                Some(t3) => match spec_parse_opt_value_u32(t3.1) {
                    Some(t4) => match spec_parse_opt_value_u32(t4.1) {
                        Some(t5) => Some(
                            (
                                (
                                    t1.0,
                                    t2.0,
                                    match t3.0 {
                                        Some(x) => Some(InitSizeModifier { size: x }),
                                        None => None,
                                    },
                                    match t4.0 {
                                        Some(x) => Some(InitAgeModifier { age: x }),
                                        None => None,
                                    },
                                    match t5.0 {
                                        Some(x) => Some(InitLifetimeModifier { lifetime: x }),
                                        None => None,
                                    },
                                ),
                                t5.1,
                            ),
                        ),
                        None => None,
                    },
                    None => None,
                },
                None => None,
            },
            None => None,
        },
        None => None,
    }
}

pub proof fn lemma_rt_init(v: EffectView, rest: Seq<u8>)
    requires
        v.init_velocity matches Some(m) ==> m.wf(),
        v.init_size matches Some(m) ==> m.size.wf(),
        v.init_age matches Some(m) ==> m.age.wf(),
        v.init_lifetime matches Some(m) ==> m.lifetime.wf(),
    ensures
        spec_parse_init(spec_enc_init(v) + rest) == Some(
            ((v.init_position, v.init_velocity, v.init_size, v.init_age, v.init_lifetime), rest),
        ),
{
    reveal(spec_enc_init);
    reveal(spec_parse_init);
    let o3: Option<Value<u32>> = match v.init_size {
        Some(m) => Some(m.size),
        None => None,
    };
    let o4: Option<Value<u32>> = match v.init_age {
        Some(m) => Some(m.age),
        None => None,
    };
    let o5: Option<Value<u32>> = match v.init_lifetime {
        Some(m) => Some(m.lifetime),
        None => None,
    };
    let e1 = spec_enc_init_position(v.init_position);
    let e2 = spec_enc_opt_velocity(v.init_velocity);
    let e3 = spec_enc_opt_value_u32(o3);
    let e4 = spec_enc_opt_value_u32(o4);
    let e5 = spec_enc_opt_value_u32(o5);
    let t5 = rest;
    let t4 = e5 + t5;
    let t3 = e4 + t4;
    let t2 = e3 + t3;
    let t1 = e2 + t2;
    assert(spec_enc_init(v) + rest =~= e1 + t1);
    lemma_rt_init_position(v.init_position, t1);
    lemma_rt_opt_velocity(v.init_velocity, t2);
    lemma_rt_opt_value_u32(o3, t3);
    lemma_rt_opt_value_u32(o4, t4);
    lemma_rt_opt_value_u32(o5, t5);
}

pub fn enc_init(out: &mut Vec<u8>, e: &REffect)
    ensures
        final(out)@ == old(out)@ + spec_enc_init(e@),
{
    proof {
        reveal(spec_enc_init);
    }
    enc_init_position(out, &e.init_position);
    enc_opt_velocity(out, &e.init_velocity);
    let size: Option<Value<u32>> = match &e.init_size {
        Some(m) => Some(m.size),
        None => None,
    };
    let age: Option<Value<u32>> = match &e.init_age {
        Some(m) => Some(m.age),
        None => None,
    };
    let lifetime: Option<Value<u32>> = match &e.init_lifetime {
        Some(m) => Some(m.lifetime),
        None => None,
    };
    enc_opt_value_u32(out, &size);
    enc_opt_value_u32(out, &age);
    enc_opt_value_u32(out, &lifetime);
    proof {
        assert(out@ =~= old(out)@ + spec_enc_init(e@));
    }
}

#[verifier::rlimit(60)]
pub fn parse_init(s: &Vec<u8>, pos: usize) -> (r: Option<
    (
        (
            InitPosition,
            Option<InitVelocity>,
            Option<InitSizeModifier>,
            Option<InitAgeModifier>,
            Option<InitLifetimeModifier>,
        ),
        usize,
    ),
>)
    requires
        pos <= s@.len(),
    ensures
        match r {
            Some(t) => pos < t.1 <= s@.len() && spec_parse_init(s@.skip(pos as int)) == Some(
                ((t.0.0, t.0.1, t.0.2, t.0.3, t.0.4), s@.skip(t.1 as int)),
            ) && (t.0.1 matches Some(m) ==> m.wf()) && (t.0.2 matches Some(m) ==> m.size.wf()) && (
            t.0.3 matches Some(m) ==> m.age.wf()) && (t.0.4 matches Some(m) ==> m.lifetime.wf()),
            None => spec_parse_init(s@.skip(pos as int)) is None,
        },
{
    proof {
        reveal(spec_parse_init);
    }
    let (position, p1) = match parse_init_position(s, pos) {
        Some(t) => t,
        None => {
            return None;
        },
    };
    let (velocity, p2) = match parse_opt_velocity(s, p1) {
        Some(t) => t,
        None => {
            return None;
        },
    };
    let (size_v, p3) = match parse_opt_value_u32(s, p2) {
        Some(t) => t,
        None => {
            return None;
        },
    };
    let (age_v, p4) = match parse_opt_value_u32(s, p3) {
        Some(t) => t,
        None => {
            return None;
        },
    };
    let (life_v, p5) = match parse_opt_value_u32(s, p4) {
        Some(t) => t,
        None => {
            return None;
        },
    };
    let size = match size_v {
        Some(x) => Some(InitSizeModifier { size: x }),
        None => None,
    };
    let age = match age_v {
        Some(x) => Some(InitAgeModifier { age: x }),
        None => None,
    };
    let lifetime = match life_v {
        Some(x) => Some(InitLifetimeModifier { lifetime: x }),
        None => None,
    };
    Some(((position, velocity, size, age, lifetime), p5))
}

/// The update phase's slots, in slot order.
#[verifier::opaque]
pub open spec fn spec_enc_update(v: EffectView) -> Seq<u8> {
    spec_enc_opt_accel(v.update_accel) + spec_enc_opt_force_field(v.update_force_field)
        + spec_enc_opt_drag(v.update_linear_drag) + spec_enc_opt_aabb(v.update_aabb_kill)
}

#[verifier::opaque]
pub open spec fn spec_parse_update(s: Seq<u8>) -> Option<
    (
        (
            Option<UpdateAccel>,
            Option<ForceFieldModifier>,
            Option<LinearDragModifier>,
            Option<AabbKillModifier>,
        ),
        Seq<u8>,
    ),
> {
    match spec_parse_opt_accel(s) {
        Some(t1) => match spec_parse_opt_force_field(t1.1) {
            Some(t2) => match spec_parse_opt_drag(t2.1) {
                Some(t3) => match spec_parse_opt_aabb(t3.1) {
                    Some(t4) => Some(((t1.0, t2.0, t3.0, t4.0), t4.1)),
                    None => None,
                },
                None => None,
            },
            None => None,
        },
        None => None,
    }
}

pub proof fn lemma_rt_update(v: EffectView, rest: Seq<u8>)
    ensures
        spec_parse_update(spec_enc_update(v) + rest) == Some(
            (
                (v.update_accel, v.update_force_field, v.update_linear_drag, v.update_aabb_kill),
                rest,
            ),
        ),
{
    reveal(spec_enc_update);
    reveal(spec_parse_update);
    let e1 = spec_enc_opt_accel(v.update_accel);
    let e2 = spec_enc_opt_force_field(v.update_force_field);
    let e3 = spec_enc_opt_drag(v.update_linear_drag);
    let e4 = spec_enc_opt_aabb(v.update_aabb_kill);
    let t4 = rest;
    let t3 = e4 + t4;
    let t2 = e3 + t3;
    let t1 = e2 + t2;
    assert(spec_enc_update(v) + rest =~= e1 + t1);
    lemma_rt_opt_accel(v.update_accel, t1);
    lemma_rt_opt_force_field(v.update_force_field, t2);
    lemma_rt_opt_drag(v.update_linear_drag, t3);
    lemma_rt_opt_aabb(v.update_aabb_kill, t4);
}

pub fn enc_update(out: &mut Vec<u8>, e: &REffect)
    ensures
        final(out)@ == old(out)@ + spec_enc_update(e@),
{
    proof {
        reveal(spec_enc_update);
    }
    enc_opt_accel(out, &e.update_accel);
    enc_opt_force_field(out, &e.update_force_field);
    enc_opt_drag(out, &e.update_linear_drag);
    enc_opt_aabb(out, &e.update_aabb_kill);
    proof {
        assert(out@ =~= old(out)@ + spec_enc_update(e@));
    }
}

pub fn parse_update(s: &Vec<u8>, pos: usize) -> (r: Option<
    (
        (
            Option<UpdateAccel>,
            Option<ForceFieldModifier>,
            Option<LinearDragModifier>,
            Option<AabbKillModifier>,
        ),
        usize,
    ),
>)
    requires
        pos <= s@.len(),
    ensures
        match r {
            Some(t) => pos < t.1 <= s@.len() && spec_parse_update(s@.skip(pos as int)) == Some(
                ((t.0.0, t.0.1, t.0.2, t.0.3), s@.skip(t.1 as int)),
            ),
            None => spec_parse_update(s@.skip(pos as int)) is None,
        },
{
    proof {
        reveal(spec_parse_update);
    }
    let (accel, p1) = match parse_opt_accel(s, pos) {
        Some(t) => t,
        None => {
            return None;
        },
    };
    let (ff, p2) = match parse_opt_force_field(s, p1) {
        Some(t) => t,
        None => {
            return None;
        },
    };
    let (drag, p3) = match parse_opt_drag(s, p2) {
        Some(t) => t,
        None => {
            return None;
        },
    };
    let (aabb, p4) = match parse_opt_aabb(s, p3) {
        Some(t) => t,
        None => {
            return None;
        },
    };
    Some(((accel, ff, drag, aabb), p4))
}

/// The first half of the render phase: texture, set-color, and the color
/// gradient.
#[verifier::opaque]
pub open spec fn spec_enc_render1(v: EffectView) -> Seq<u8> {
    spec_enc_texture(v.render_particle_texture) + spec_enc_opt_value_rgba(
        match v.render_set_color {
            Some(m) => Some(m.color),
            None => None,
        },
    ) + spec_enc_opt_keys_rgba(v.render_color_over_lifetime)
}

#[verifier::opaque]
pub open spec fn spec_parse_render1(s: Seq<u8>) -> Option<
    ((TextureView, Option<SetColorModifier>, Option<Seq<GradientKey<Rgba>>>), Seq<u8>),
> {
    match spec_parse_texture(s) {
        Some(t1) => match spec_parse_opt_value_rgba(t1.1) {
            Some(t2) => match spec_parse_opt_keys_rgba(t2.1) {
                Some(t3) => Some(
                    (
                        (
                            t1.0,
                            match t2.0 {
                                Some(x) => Some(SetColorModifier { color: x }),
                                None => None,
                            },
                            t3.0,
                        ),
                        t3.1,
                    ),
                ),
                None => None,
            },
            None => None,
        },
        None => None,
    }
}

pub proof fn lemma_rt_render1(v: EffectView, rest: Seq<u8>)
    requires
        v.render_particle_texture matches TextureView::Path(p) ==> p.len() <= u32::MAX,
        v.render_color_over_lifetime matches Some(ks) ==> 1 <= ks.len() <= u32::MAX && forall|
            i: int,
        |
            0 <= i < ks.len() ==> (#[trigger] ks[i]).pos <= POS_ONE,
    ensures
        spec_parse_render1(spec_enc_render1(v) + rest) == Some(
            (
                (
                    v.render_particle_texture,
                    v.render_set_color,
                    v.render_color_over_lifetime,
                ),
                rest,
            ),
        ),
{
    reveal(spec_enc_render1);
    reveal(spec_parse_render1);
    let o2: Option<Value<Rgba>> = match v.render_set_color {
        Some(m) => Some(m.color),
        None => None,
    };
    let e1 = spec_enc_texture(v.render_particle_texture);
    let e2 = spec_enc_opt_value_rgba(o2);
    let e3 = spec_enc_opt_keys_rgba(v.render_color_over_lifetime);
    let t3 = rest;
    let t2 = e3 + t3;
    let t1 = e2 + t2;
    assert(spec_enc_render1(v) + rest =~= e1 + t1);
    lemma_rt_texture(v.render_particle_texture, t1);
    lemma_rt_opt_value_rgba(o2, t2);
    lemma_rt_opt_keys_rgba(v.render_color_over_lifetime, t3);
}

pub fn enc_render1(out: &mut Vec<u8>, e: &REffect)
    requires
        e@.render_particle_texture matches TextureView::Path(p) ==> p.len() <= u32::MAX,
        match &e.render_color_over_lifetime {
            Some(g) => g.wf() && g@.len() <= u32::MAX,
            None => true,
        },
    ensures
        final(out)@ == old(out)@ + spec_enc_render1(e@),
{
    proof {
        reveal(spec_enc_render1);
    }
    enc_texture(out, &e.render_particle_texture);
    let color: Option<Value<Rgba>> = match &e.render_set_color {
        Some(m) => Some(m.color),
        None => None,
    };
    enc_opt_value_rgba(out, &color);
    enc_opt_keys_rgba(out, &e.render_color_over_lifetime);
    proof {
        assert(out@ =~= old(out)@ + spec_enc_render1(e@));
    }
}

pub fn parse_render1(s: &Vec<u8>, pos: usize) -> (r: Option<
    ((ParticleTexture, Option<SetColorModifier>, Option<ColorGradient>), usize),
>)
    requires
        pos <= s@.len(),
    ensures
        match r {
            Some(t) => pos < t.1 <= s@.len() && spec_parse_render1(s@.skip(pos as int)) == Some(
                (
                    (
                        t.0.0@,
                        t.0.1,
                        match t.0.2 {
                            Some(g) => Some(g@),
                            None => None,
                        },
                    ),
                    s@.skip(t.1 as int),
                ),
            ) && (match t.0.2 {
                Some(g) => g.wf(),
                None => true,
            }),
            None => spec_parse_render1(s@.skip(pos as int)) is None,
        },
{
    proof {
        reveal(spec_parse_render1);
    }
    let (tex, p1) = match parse_texture(s, pos) {
        Some(t) => t,
        None => {
            return None;
        },
    };
    let (color_v, p2) = match parse_opt_value_rgba(s, p1) {
        Some(t) => t,
        None => {
            return None;
        },
    };
    let (cg, p3) = match parse_opt_keys_rgba(s, p2) {
        Some(t) => t,
        None => {
            return None;
        },
    };
    let set_color = match color_v {
        Some(x) => Some(SetColorModifier { color: x }),
        None => None,
    };
    Some(((tex, set_color, cg), p3))
}

/// The second half of the render phase: set-size, the size gradient, the
/// billboard flag and the orient-along-velocity slot.
#[verifier::opaque]
pub open spec fn spec_enc_render2(v: EffectView) -> Seq<u8> {
    spec_enc_opt_value_size2(
        match v.render_set_size {
            Some(m) => Some(m.size),
            None => None,
        },
    ) + spec_enc_opt_keys_size2(v.render_size_over_lifetime) + spec_enc_bool(v.render_billboard)
        + spec_enc_bool(v.render_orient_along_velocity is Some)
}

#[verifier::opaque]
pub open spec fn spec_parse_render2(s: Seq<u8>) -> Option<
    (
        (
            Option<SetSizeModifier>,
            Option<Seq<GradientKey<Size2>>>,
            bool,
            Option<OrientAlongVelocityModifier>,
        ),
        Seq<u8>,
    ),
> {
    match spec_parse_opt_value_size2(s) {
        Some(t1) => match spec_parse_opt_keys_size2(t1.1) {
            Some(t2) => match spec_parse_bool(t2.1) {
                Some(t3) => match spec_parse_bool(t3.1) {
                    Some(t4) => Some(
                        (
                            (
                                match t1.0 {
                                    Some(x) => Some(SetSizeModifier { size: x }),
                                    None => None,
                                },
                                t2.0,
                                t3.0,
                                if t4.0 {
                                    Some(OrientAlongVelocityModifier {  })
                                } else {
                                    None
                                },
                            ),
                            t4.1,
                        ),
                    ),
                    None => None,
                },
                None => None,
            },
            None => None,
        },
        None => None,
    }
}

pub proof fn lemma_rt_render2(v: EffectView, rest: Seq<u8>)
    requires
        v.render_size_over_lifetime matches Some(ks) ==> 1 <= ks.len() <= u32::MAX && forall|
            i: int,
        |
            0 <= i < ks.len() ==> (#[trigger] ks[i]).pos <= POS_ONE,
    ensures
        spec_parse_render2(spec_enc_render2(v) + rest) == Some(
            (
                (
                    v.render_set_size,
                    v.render_size_over_lifetime,
                    v.render_billboard,
                    v.render_orient_along_velocity,
                ),
                rest,
            ),
        ),
{
    reveal(spec_enc_render2);
    reveal(spec_parse_render2);
    let o1: Option<Value<Size2>> = match v.render_set_size {
        Some(m) => Some(m.size),
        None => None,
    };
    let e1 = spec_enc_opt_value_size2(o1);
    let e2 = spec_enc_opt_keys_size2(v.render_size_over_lifetime);
    let e3 = spec_enc_bool(v.render_billboard);
    let e4 = spec_enc_bool(v.render_orient_along_velocity is Some);
    let t4 = rest;
    let t3 = e4 + t4;
    let t2 = e3 + t3;
    let t1 = e2 + t2;
    assert(spec_enc_render2(v) + rest =~= e1 + t1);
    lemma_rt_opt_value_size2(o1, t1);
    lemma_rt_opt_keys_size2(v.render_size_over_lifetime, t2);
    lemma_rt_bool(v.render_billboard, t3);
    lemma_rt_bool(v.render_orient_along_velocity is Some, t4);
    match v.render_orient_along_velocity {
        Some(m) => {
            assert(m == OrientAlongVelocityModifier {  });
        },
        None => {},
    }
}

pub fn enc_render2(out: &mut Vec<u8>, e: &REffect)
    requires
        match &e.render_size_over_lifetime {
            Some(g) => g.wf() && g@.len() <= u32::MAX,
            None => true,
        },
    ensures
        final(out)@ == old(out)@ + spec_enc_render2(e@),
{
    proof {
        reveal(spec_enc_render2);
    }
    let size: Option<Value<Size2>> = match &e.render_set_size {
        Some(m) => Some(m.size),
        None => None,
    };
    enc_opt_value_size2(out, &size);
    enc_opt_keys_size2(out, &e.render_size_over_lifetime);
    enc_bool(out, e.render_billboard);
    enc_bool(out, e.render_orient_along_velocity.is_some());
    proof {
        assert(out@ =~= old(out)@ + spec_enc_render2(e@));
    }
}

pub fn parse_render2(s: &Vec<u8>, pos: usize) -> (r: Option<
    (
        (
            Option<SetSizeModifier>,
            Option<SizeGradient>,
            bool,
            Option<OrientAlongVelocityModifier>,
        ),
        usize,
    ),
>)
    requires
        pos <= s@.len(),
    ensures
        match r {
            Some(t) => pos < t.1 <= s@.len() && spec_parse_render2(s@.skip(pos as int)) == Some(
                (
                    (
                        t.0.0,
                        match t.0.1 {
                            Some(g) => Some(g@),
                            None => None,
                        },
                        t.0.2,
                        t.0.3,
                    ),
                    s@.skip(t.1 as int),
                ),
            ) && (match t.0.1 {
                Some(g) => g.wf(),
                None => true,
            }),
            None => spec_parse_render2(s@.skip(pos as int)) is None,
        },
{
    proof {
        reveal(spec_parse_render2);
    }
    let (size_v, p1) = match parse_opt_value_size2(s, pos) {
        Some(t) => t,
        None => {
            return None;
        },
    };
    let (sg, p2) = match parse_opt_keys_size2(s, p1) {
        Some(t) => t,
        None => {
            return None;
        },
    };
    let (billboard, p3) = match parse_bool(s, p2) {
        Some(t) => t,
        None => {
            return None;
        },
    };
    let (orient_flag, p4) = match parse_bool(s, p3) {
        Some(t) => t,
        None => {
            return None;
        },
    };
    let set_size = match size_v {
        Some(x) => Some(SetSizeModifier { size: x }),
        None => None,
    };
    let orient = if orient_flag {
        Some(OrientAlongVelocityModifier {  })
    } else {
        None
    };
    Some(((set_size, sg, billboard, orient), p4))
}

/// The machine bounds serialization asks of an effect, besides its
/// well-formedness: every byte buffer and key list fits the length prefix.
pub open spec fn spec_ser_bounds(v: EffectView) -> bool {
    &&& v.name.len() <= u32::MAX
    &&& (v.render_particle_texture matches TextureView::Path(p) ==> p.len() <= u32::MAX)
    &&& (v.render_color_over_lifetime matches Some(ks) ==> ks.len() <= u32::MAX)
    &&& (v.render_size_over_lifetime matches Some(ks) ==> ks.len() <= u32::MAX)
}

/// The well-formedness of an effect, stated on its ghost shape: ranged
/// values keep their bounds ordered and gradients keep at least one key,
/// every key on the strip.
pub open spec fn spec_view_wf(v: EffectView) -> bool {
    &&& v.spawner.wf()
    &&& (v.init_velocity matches Some(m) ==> m.wf())
    &&& (v.init_size matches Some(m) ==> m.size.wf())
    &&& (v.init_age matches Some(m) ==> m.age.wf())
    &&& (v.init_lifetime matches Some(m) ==> m.lifetime.wf())
    &&& (v.render_color_over_lifetime matches Some(ks) ==> ks.len() >= 1 && forall|i: int|
        0 <= i < ks.len() ==> (#[trigger] ks[i]).pos <= POS_ONE)
    &&& (v.render_size_over_lifetime matches Some(ks) ==> ks.len() >= 1 && forall|i: int|
        0 <= i < ks.len() ==> (#[trigger] ks[i]).pos <= POS_ONE)
}

/// A whole effect file: the version marker, then the four field groups.
#[verifier::opaque]
pub open spec fn spec_enc_effect(v: EffectView) -> Seq<u8> {
    seq![104u8, 97u8, 110u8, 49u8] + spec_enc_header(v) + spec_enc_init(v) + spec_enc_update(v)
        + spec_enc_render1(v) + spec_enc_render2(v)
}

/// Read a whole effect file from the front of the input.
#[verifier::opaque]
pub open spec fn spec_parse_effect(s: Seq<u8>) -> Option<(EffectView, Seq<u8>)> {
    match spec_parse_tag(s, 104) {
        Some(s1) => match spec_parse_tag(s1, 97) {
            Some(s2) => match spec_parse_tag(s2, 110) {
                Some(s3) => match spec_parse_tag(s3, 49) {
                    Some(s4) => match spec_parse_header(s4) {
                        Some(h) => match spec_parse_init(h.1) {
                            Some(i) => match spec_parse_update(i.1) {
                                Some(u) => match spec_parse_render1(u.1) {
                                    Some(r1) => match spec_parse_render2(r1.1) {
                                        Some(r2) => Some(
                                            (
                                                EffectView {
                                                    name: h.0.0,
                                                    capacity: h.0.1,
                                                    spawner: h.0.2,
                                                    simulation_space: h.0.3,
                                                    simulation_condition: h.0.4,
                                                    init_position: i.0.0,
                                                    init_velocity: i.0.1,
                                                    init_size: i.0.2,
                                                    init_age: i.0.3,
                                                    init_lifetime: i.0.4,
                                                    update_accel: u.0.0,
                                                    update_force_field: u.0.1,
                                                    update_linear_drag: u.0.2,
                                                    update_aabb_kill: u.0.3,
                                                    render_particle_texture: r1.0.0,
                                                    render_set_color: r1.0.1,
                                                    render_color_over_lifetime: r1.0.2,
                                                    render_set_size: r2.0.0,
                                                    render_size_over_lifetime: r2.0.1,
                                                    render_billboard: r2.0.2,
                                                    render_orient_along_velocity: r2.0.3,
                                                },
                                                r2.1,
                                            ),
                                        ),
                                        None => None,
                                    },
                                    None => None,
                                },
                                None => None,
                            },
                            None => None,
                        },
                        None => None,
                    },
                    None => None,
                },
                None => None,
            },
            None => None,
        },
        None => None,
    }
}

/// A whole document is one effect and nothing after it.
pub open spec fn spec_parse_document(s: Seq<u8>) -> Option<EffectView> {
    match spec_parse_effect(s) {
        Some(t) => {
            if t.1.len() == 0 {
                Some(t.0)
            } else {
                None
            }
        },
        None => None,
    }
}

/// Parsing reads back exactly the effect that was written, whatever stood
/// in its slots — the round trip is the identity on well-formed effects.
pub proof fn lemma_round_trip(v: EffectView, rest: Seq<u8>)
    requires
        spec_view_wf(v),
        spec_ser_bounds(v),
    ensures
        spec_parse_effect(spec_enc_effect(v) + rest) == Some((v, rest)),
{
    reveal(spec_enc_effect);
    reveal(spec_parse_effect);
    let eh = spec_enc_header(v);
    let ei = spec_enc_init(v);
    let eu = spec_enc_update(v);
    let e1 = spec_enc_render1(v);
    let e2 = spec_enc_render2(v);
    let t5 = rest;
    let t4 = e2 + t5;
    let t3 = e1 + t4;
    let t2 = eu + t3;
    let t1 = ei + t2;
    let t0 = eh + t1;
    let s = spec_enc_effect(v) + rest;
    assert(s.skip(1) =~= seq![97u8, 110u8, 49u8] + t0);
    assert((seq![97u8, 110u8, 49u8] + t0).skip(1) =~= seq![110u8, 49u8] + t0);
    assert((seq![110u8, 49u8] + t0).skip(1) =~= seq![49u8] + t0);
    assert((seq![49u8] + t0).skip(1) =~= t0);
    lemma_rt_header(v, t1);
    lemma_rt_init(v, t2);
    lemma_rt_update(v, t3);
    lemma_rt_render1(v, t4);
    lemma_rt_render2(v, t5);
    assert(t0 =~= eh + t1);
}

/// The document round trip: serializing an effect and parsing it back
/// yields the effect, with nothing left over.
pub proof fn lemma_document_round_trip(v: EffectView)
    requires
        spec_view_wf(v),
        spec_ser_bounds(v),
    ensures
        spec_parse_document(spec_enc_effect(v)) == Some(v),
{
    lemma_round_trip(v, Seq::empty());
    assert(spec_enc_effect(v) + Seq::<u8>::empty() =~= spec_enc_effect(v));
}

/// Serialize an effect definition into its canonical text form.
pub fn serialize(e: &REffect) -> (out: Vec<u8>)
    requires
        e.wf(),
        spec_ser_bounds(e@),
    ensures
        out@ == spec_enc_effect(e@),
{
    proof {
        reveal(spec_enc_effect);
    }
    let mut out: Vec<u8> = Vec::new();
    out.push(104);
    out.push(97);
    out.push(110);
    out.push(49);
    enc_header(&mut out, e);
    enc_init(&mut out, e);
    enc_update(&mut out, e);
    enc_render1(&mut out, e);
    enc_render2(&mut out, e);
    proof {
        assert(out@ =~= spec_enc_effect(e@));
    }
    out
}

/// Parse an effect file. A rejected input names the byte offset where the
/// parser gave up; an accepted one yields a well-formed effect definition
/// and consumed the whole input.
pub fn parse(bytes: &Vec<u8>) -> (r: Result<REffect, usize>)
    ensures
        match r {
            Ok(d) => spec_parse_document(bytes@) == Some(d@) && d.wf(),
            Err(p) => spec_parse_document(bytes@) is None && p <= bytes@.len(),
        },
{
    proof {
        reveal(spec_parse_effect);
        assert(bytes@.skip(0) =~= bytes@);
    }
    let p1 = match parse_tag(bytes, 0, 104) {
        Some(p) => p,
        None => {
            return Err(0);
        },
    };
    let p2 = match parse_tag(bytes, p1, 97) {
        Some(p) => p,
        None => {
            return Err(p1);
        },
    };
    let p3 = match parse_tag(bytes, p2, 110) {
        Some(p) => p,
        None => {
            return Err(p2);
        },
    };
    let p4 = match parse_tag(bytes, p3, 49) {
        Some(p) => p,
        None => {
            return Err(p3);
        },
    };
    let (header, p5) = match parse_header(bytes, p4) {
        Some(t) => t,
        None => {
            return Err(p4);
        },
    };
    let (init, p6) = match parse_init(bytes, p5) {
        Some(t) => t,
        None => {
            return Err(p5);
        },
    };
    let (update, p7) = match parse_update(bytes, p6) {
        Some(t) => t,
        None => {
            return Err(p6);
        },
    };
    let (render1, p8) = match parse_render1(bytes, p7) {
        Some(t) => t,
        None => {
            return Err(p7);
        },
    };
    let (render2, p9) = match parse_render2(bytes, p8) {
        Some(t) => t,
        None => {
            return Err(p8);
        },
    };
    if p9 != bytes.len() {
        return Err(p9);
    }
    let (name, capacity, spawner, simulation_space, simulation_condition) = header;
    let (init_position, init_velocity, init_size, init_age, init_lifetime) = init;
    let (update_accel, update_force_field, update_linear_drag, update_aabb_kill) = update;
    let (render_particle_texture, render_set_color, render_color_over_lifetime) = render1;
    let (render_set_size, render_size_over_lifetime, render_billboard,
        render_orient_along_velocity) = render2;
    let d = REffect {
        name,
        capacity,
        spawner,
        simulation_space,
        simulation_condition,
        init_position,
        init_velocity,
        init_size,
        init_age,
        init_lifetime,
        update_accel,
        update_force_field,
        update_linear_drag,
        update_aabb_kill,
        render_particle_texture,
        render_set_color,
        render_color_over_lifetime,
        render_set_size,
        render_size_over_lifetime,
        render_billboard,
        render_orient_along_velocity,
    };
    proof {
        assert(bytes@.skip(p9 as int) =~= Seq::<u8>::empty());
    }
    Ok(d)
}

} // verus!
