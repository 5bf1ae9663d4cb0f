use vstd::prelude::*;
use crate::fixed::{SCALE, isqrt, sqrt_floor, lemma_div_abs_bound};
use crate::vec3::Vec3;
use crate::camera::{Camera, cam_wf, get_ray_spec};
use crate::hitable::{HitableList, scene_wf};
use crate::integrator::color_spec;
use crate::rng::{Rng, rng_ok, next_state, draw_of, LCG_M};
use vstd::arithmetic::div_mod::{
    lemma_div_is_ordered, lemma_div_pos_is_pos, lemma_fundamental_div_mod_converse,
};

verus! {

/// Largest image dimension and sample count the renderer accepts.
pub const DIM_LIMIT: usize = 32768;

/// One radiance sample of pixel `(i, j)`: jitter the image coordinate inside
/// the pixel, ask the camera for a ray, and estimate its radiance.
pub open spec fn one_sample(
    w: HitableList,
    c: Camera,
    nx: int,
    ny: int,
    i: int,
    j: int,
    st: u64,
) -> (Vec3, u64) {
    let du = draw_of(st);
    let st1 = next_state(st);
    let dv = draw_of(st1);
    let st2 = next_state(st1);
    let u = (i * SCALE + du) / nx;
    let v = (j * SCALE + dv) / ny;
    let (ray, st3) = get_ray_spec(c, u, v, st2);
    color_spec(w, ray, 0, st3)
}

/// The channel sums of `n` more samples of pixel `(i, j)`, added to `acc`.
pub open spec fn sample_acc(
    w: HitableList,
    c: Camera,
    nx: int,
    ny: int,
    i: int,
    j: int,
    n: nat,
    acc: Vec3,
    st: u64,
) -> (Vec3, u64)
    decreases n,
{
    if n == 0 {
        (acc, st)
    } else {
        let (col, st2) = one_sample(w, c, nx, ny, i, j, st);
        sample_acc(
            w,
            c,
            nx,
            ny,
            i,
            j,
            (n - 1) as nat,
            Vec3 {
                x: (acc.x + col.x) as i64,
                y: (acc.y + col.y) as i64,
                z: (acc.z + col.z) as i64,
            },
            st2,
        )
    }
}

/// One gamma-corrected, quantized channel: the square root of the averaged
/// channel, scaled to an 8-bit value.
pub open spec fn quantize(avg: int) -> u8 {
    let g = sqrt_floor(avg * SCALE);
    let q = (g * 256) / (SCALE as int);
    if q > 255 {
        255u8
    } else {
        q as u8
    }
}

/// The three bytes of pixel `(i, j)`: average `ns` samples, gamma-correct by
/// componentwise square root, quantize to 8 bits.
pub open spec fn pixel_spec(
    w: HitableList,
    c: Camera,
    nx: int,
    ny: int,
    i: int,
    j: int,
    ns: nat,
    st: u64,
) -> ((u8, u8, u8), u64) {
    let (sum, st2) = sample_acc(w, c, nx, ny, i, j, ns, Vec3 { x: 0, y: 0, z: 0 }, st);
    let ax = (sum.x as int) / (ns as int);
    let ay = (sum.y as int) / (ns as int);
    let az = (sum.z as int) / (ns as int);
    ((quantize(ax), quantize(ay), quantize(az)), st2)
}

/// The framebuffer bytes of the first `k` pixels, row-major with row 0 the
/// top of the image (the vertical coordinate is flipped relative to the
/// camera's bottom-up viewport convention).
pub open spec fn render_px(
    w: HitableList,
    c: Camera,
    nx: int,
    ny: int,
    ns: nat,
    k: nat,
    st0: u64,
) -> (Seq<u8>, u64)
    decreases k,
{
    if k == 0 {
        (Seq::empty(), st0)
    } else {
        let (bytes, st) = render_px(w, c, nx, ny, ns, (k - 1) as nat, st0);
        let p = k - 1;
        let i = p % nx;
        let jj = p / nx;
        let j = ny - 1 - jj;
        let ((qx, qy, qz), st2) = pixel_spec(w, c, nx, ny, i, j, ns, st);
        (bytes.push(qx).push(qy).push(qz), st2)
    }
}

/// The whole framebuffer for an `nx` by `ny` image at `ns` samples per pixel,
/// from the given seed. The result is a function of the scene, camera and
/// configuration alone: renders with equal inputs are bit-identical.
pub open spec fn render_spec(
    w: HitableList,
    c: Camera,
    nx: int,
    ny: int,
    ns: nat,
    seed: u64,
) -> Seq<u8> {
    render_px(w, c, nx, ny, ns, (nx * ny) as nat, (seed % (LCG_M as u64)) as u64).0
}

/// Render the scene to a framebuffer of 8-bit RGB triples, row-major, row 0
/// at the top, averaging `ns` jittered samples per pixel and applying
/// square-root gamma correction.
pub fn render(
    world: &HitableList,
    cam: &Camera,
    nx: usize,
    ny: usize,
    ns: usize,
    seed: u64,
) -> (buf: Vec<u8>)
    requires
        scene_wf(*world),
        cam_wf(*cam),
        1 <= nx <= DIM_LIMIT,
        1 <= ny <= DIM_LIMIT,
        1 <= ns <= DIM_LIMIT,
    ensures
        buf@ == render_spec(*world, *cam, nx as int, ny as int, ns as nat, seed),
        buf@.len() == 3 * ((nx * ny) as int),
{
    let mut rng = Rng::new(seed);
    let mut buf: Vec<u8> = Vec::new();
    proof {
        assert((nx as int) * (ny as int) <= 0x40000000) by (nonlinear_arith)
            requires
                1 <= nx <= 32768,
                1 <= ny <= 32768,
        ;
    }
    let total = nx * ny;
    let mut p: usize = 0;
    while p < total
        invariant
            scene_wf(*world),
            cam_wf(*cam),
            1 <= nx <= DIM_LIMIT,
            1 <= ny <= DIM_LIMIT,
            1 <= ns <= DIM_LIMIT,
            total == nx * ny,
            p <= total,
            rng_ok(rng.state),
            buf@.len() == 3 * p,
            (buf@, rng.state) == render_px(
                *world,
                *cam,
                nx as int,
                ny as int,
                ns as nat,
                p as nat,
                (seed % (LCG_M as u64)) as u64,
            ),
        decreases total - p,
    {
        let i = p % nx;
        let jj = p / nx;
        proof {
            vstd::arithmetic::div_mod::lemma_fundamental_div_mod(p as int, nx as int);
            vstd::arithmetic::div_mod::lemma_mod_bound(p as int, nx as int);
            assert(jj < ny) by {
                if jj >= ny {
                    assert((jj as int) * (nx as int) >= (ny as int) * (nx as int))
                        by (nonlinear_arith)
                        requires
                            jj >= ny,
                            nx >= 1,
                    ;
                    assert((ny as int) * (nx as int) == (nx as int) * (ny as int))
                        by (nonlinear_arith);
                }
            }
        }
        let j = ny - 1 - jj;
        let ghost st_px = rng.state;
        let mut sum = Vec3::new(0, 0, 0);
        let mut n: usize = 0;
        while n < ns
            invariant
                scene_wf(*world),
                cam_wf(*cam),
                1 <= nx <= DIM_LIMIT,
                1 <= ny <= DIM_LIMIT,
                1 <= ns <= DIM_LIMIT,
                i < nx,
                j < ny,
                n <= ns,
                rng_ok(rng.state),
                0 <= sum.x <= n * SCALE,
                0 <= sum.y <= n * SCALE,
                0 <= sum.z <= n * SCALE,
                sample_acc(
                    *world,
                    *cam,
                    nx as int,
                    ny as int,
                    i as int,
                    j as int,
                    (ns - n) as nat,
                    sum,
                    rng.state,
                ) == sample_acc(
                    *world,
                    *cam,
                    nx as int,
                    ny as int,
                    i as int,
                    j as int,
                    ns as nat,
                    Vec3 { x: 0, y: 0, z: 0 },
                    st_px,
                ),
            decreases ns - n,
        {
            let du = rng.next_unit();
            let dv = rng.next_unit();
            proof {
                lemma_coord_range(i as int, du as int, nx as int);
                lemma_coord_range(j as int, dv as int, ny as int);
            }
            let u = ((i as i64) * SCALE + du) / (nx as i64);
            let v = ((j as i64) * SCALE + dv) / (ny as i64);
            let ray = cam.get_ray(u, v, &mut rng);
            let col = world.color(&ray, 0, &mut rng);
            sum = sum.add(col);
            n = n + 1;
        }
        proof {
            lemma_avg_range(sum.x as int, ns as int);
            lemma_avg_range(sum.y as int, ns as int);
            lemma_avg_range(sum.z as int, ns as int);
        }
        let ax = sum.x / (ns as i64);
        let ay = sum.y / (ns as i64);
        let az = sum.z / (ns as i64);
        let bx = quantize_channel(ax);
        let by = quantize_channel(ay);
        let bz = quantize_channel(az);
        buf.push(bx);
        buf.push(by);
        buf.push(bz);
        p = p + 1;
    }
    buf
}

/// A jittered image coordinate stays within `[0, SCALE]`.
proof fn lemma_coord_range(i: int, du: int, nx: int)
    requires
        0 <= i < nx,
        0 <= du < SCALE,
        1 <= nx <= 65536,
    ensures
        0 <= (i * SCALE + du) / nx <= SCALE,
        i * SCALE + du < 0x100000000000,
{
    lemma_div_pos_is_pos(i * SCALE + du, nx);
    assert(i * SCALE + du <= nx * SCALE) by (nonlinear_arith)
        requires
            0 <= i < nx,
            0 <= du < SCALE,
            SCALE == 65536,
    ;
    lemma_div_is_ordered(i * SCALE + du, nx * (SCALE as int), nx);
    assert(nx * (SCALE as int) == (SCALE as int) * nx) by (nonlinear_arith);
    lemma_fundamental_div_mod_converse((SCALE as int) * nx, nx, SCALE as int, 0);
    assert(i * SCALE + du < 0x100000000000) by (nonlinear_arith)
        requires
            0 <= i < nx,
            nx <= 65536,
            0 <= du < SCALE,
            SCALE == 65536,
    ;
}

/// The per-channel average of `ns` color samples is a channel in `[0, SCALE]`.
proof fn lemma_avg_range(sum: int, ns: int)
    requires
        ns >= 1,
        0 <= sum <= ns * SCALE,
    ensures
        0 <= sum / ns <= SCALE,
{
    lemma_div_pos_is_pos(sum, ns);
    lemma_div_is_ordered(sum, ns * (SCALE as int), ns);
    assert(ns * (SCALE as int) == (SCALE as int) * ns) by (nonlinear_arith);
    lemma_fundamental_div_mod_converse((SCALE as int) * ns, ns, SCALE as int, 0);
}

/// Gamma-correct and quantize one averaged channel to an 8-bit value.
fn quantize_channel(avg: i64) -> (b: u8)
    requires
        0 <= avg <= SCALE,
    ensures
        b == quantize(avg as int),
{
    let g = isqrt((avg as i128) * 65536);
    proof {
        crate::fixed::lemma_sqrt_floor_bounds(g as int, (avg as int) * (SCALE as int), SCALE as int + 1);
        assert(((SCALE as int) + 1) * ((SCALE as int) + 1) > (avg as int) * (SCALE as int));
        lemma_div_abs_bound((g as int) * 256, SCALE as int, 256);
    }
    let q = (g * 256) / SCALE;
    if q > 255 {
        255
    } else {
        q as u8
    }
}

} // verus!
