//! Properties that tie the framebuffer operations together: storage size,
//! last-write-wins overdraw, and the equivalence of background initialization
//! with drawing the background everywhere.

use crate::color::{Color, DisplayColorRendering, TriColor};
use crate::framebuffer::{
    spec_apply_bit, spec_draw_mono, spec_draw_mono_seq, spec_draw_tri, spec_draw_tri_seq,
    spec_mono_background, spec_pixel_bit, spec_tri_background, MonoFrameBuffer, TriFrameBuffer,
};
use crate::graphics::{
    lemma_byte_index_in_plane, spec_bit_mask, spec_byte_index, spec_in_bounds, spec_line_bytes,
    spec_plane_len, spec_rotate_x, spec_rotate_y, DisplayRotation,
};
use vstd::arithmetic::div_mod::{lemma_fundamental_div_mod, lemma_fundamental_div_mod_converse};
use vstd::arithmetic::mul::lemma_mul_inequality;
use vstd::prelude::*;

verus! {

/// For a row-aligned raster, one plane stores exactly the bytes needed for
/// its pixels, so a tri-color buffer's total length is the plane count times
/// the rounded-up byte count of `width x height` bits.
pub proof fn lemma_tri_planes_total_length(fb: &TriFrameBuffer)
    requires
        fb.wf(),
        fb.spec_width() % 8 == 0,
    ensures
        fb@.len() == 2 * ((fb.spec_width() * fb.spec_height() + 7) / 8),
{
    lemma_row_aligned_plane_len(fb.spec_width(), fb.spec_height());
}

/// The monochrome counterpart: a single plane of the rounded-up byte count of
/// `width x height` bits.
pub proof fn lemma_mono_planes_total_length(fb: &MonoFrameBuffer)
    requires
        fb.wf(),
        fb.spec_width() % 8 == 0,
    ensures
        fb@.len() == 1 * ((fb.spec_width() * fb.spec_height() + 7) / 8),
{
    lemma_row_aligned_plane_len(fb.spec_width(), fb.spec_height());
}

/// For a row-aligned raster the per-row padding vanishes: the plane length is
/// the rounded-up byte count of `width x height` bits.
pub proof fn lemma_row_aligned_plane_len(width: u32, height: u32)
    requires
        width % 8 == 0,
    ensures
        spec_plane_len(width, height) == (width * height + 7) / 8,
{
    let w = width as int;
    let h = height as int;
    let q = w / 8;
    lemma_fundamental_div_mod(w, 8);
    assert(w == 8 * q);
    lemma_fundamental_div_mod_converse(w + 7, 8, q, 7);
    assert(spec_line_bytes(width) == q);
    assert((8 * q) * h == 8 * (q * h)) by (nonlinear_arith);
    lemma_fundamental_div_mod_converse(w * h + 7, 8, q * h, 7);
    assert(spec_plane_len(width, height) == q * h);
}

/// Drawing the same coordinate twice leaves only the second color's encoding:
/// the first write leaves no residue in any plane.
pub proof fn lemma_tri_last_write_wins(
    buf: Seq<u8>,
    width: u32,
    height: u32,
    rendering: DisplayColorRendering,
    rotation: DisplayRotation,
    x: int,
    y: int,
    first: TriColor,
    second: TriColor,
)
    requires
        buf.len() == 2 * spec_plane_len(width, height),
    ensures
        spec_draw_tri(
            spec_draw_tri(buf, width, height, rendering, rotation, x, y, first),
            width,
            height,
            rendering,
            rotation,
            x,
            y,
            second,
        ) == spec_draw_tri(buf, width, height, rendering, rotation, x, y, second),
{
    if spec_in_bounds(x, y, width, height, rotation) {
        let px = spec_rotate_x(x, y, width, height, rotation);
        let py = spec_rotate_y(x, y, width, height, rotation);
        crate::graphics::lemma_rotate_in_raster(x, y, width, height, rotation);
        lemma_byte_index_in_plane(px, py, width, height);
        let idx = spec_byte_index(px, py, width);
        let m = spec_bit_mask(px);
        let off = spec_plane_len(width, height);
        let a = buf[idx];
        let b = buf[idx + off];
        lemma_apply_bit_overrides(a, m, first.spec_bw_bit(), second.spec_bw_bit());
        lemma_apply_bit_overrides(
            b,
            m,
            first.spec_chromatic_bit(rendering),
            second.spec_chromatic_bit(rendering),
        );
        assert(spec_draw_tri(
            spec_draw_tri(buf, width, height, rendering, rotation, x, y, first),
            width,
            height,
            rendering,
            rotation,
            x,
            y,
            second,
        ) =~= spec_draw_tri(buf, width, height, rendering, rotation, x, y, second));
    }
}

/// The monochrome counterpart of last-write-wins.
pub proof fn lemma_mono_last_write_wins(
    buf: Seq<u8>,
    width: u32,
    height: u32,
    rotation: DisplayRotation,
    x: int,
    y: int,
    first: Color,
    second: Color,
)
    requires
        buf.len() == spec_plane_len(width, height),
    ensures
        spec_draw_mono(
            spec_draw_mono(buf, width, height, rotation, x, y, first),
            width,
            height,
            rotation,
            x,
            y,
            second,
        ) == spec_draw_mono(buf, width, height, rotation, x, y, second),
{
    if spec_in_bounds(x, y, width, height, rotation) {
        let px = spec_rotate_x(x, y, width, height, rotation);
        let py = spec_rotate_y(x, y, width, height, rotation);
        crate::graphics::lemma_rotate_in_raster(x, y, width, height, rotation);
        lemma_byte_index_in_plane(px, py, width, height);
        let idx = spec_byte_index(px, py, width);
        let m = spec_bit_mask(px);
        lemma_apply_bit_overrides(buf[idx], m, first.spec_bit(), second.spec_bit());
        assert(spec_draw_mono(
            spec_draw_mono(buf, width, height, rotation, x, y, first),
            width,
            height,
            rotation,
            x,
            y,
            second,
        ) =~= spec_draw_mono(buf, width, height, rotation, x, y, second));
    }
}

/// Drawing an in-bounds pixel writes its color's bit into each plane at the
/// rotated physical coordinate and leaves the bit of every other physical
/// pixel unchanged.
pub proof fn lemma_tri_draw_touches_one_pixel(
    buf: Seq<u8>,
    width: u32,
    height: u32,
    rendering: DisplayColorRendering,
    rotation: DisplayRotation,
    x: int,
    y: int,
    color: TriColor,
    qx: int,
    qy: int,
)
    requires
        buf.len() == 2 * spec_plane_len(width, height),
        spec_in_bounds(x, y, width, height, rotation),
        0 <= qx < width,
        0 <= qy < height,
    ensures
        ({
            let px = spec_rotate_x(x, y, width, height, rotation);
            let py = spec_rotate_y(x, y, width, height, rotation);
            let off = spec_plane_len(width, height);
            let out = spec_draw_tri(buf, width, height, rendering, rotation, x, y, color);
            &&& (qx == px && qy == py) ==> spec_pixel_bit(out, 0, qx, qy, width)
                == color.spec_bw_bit() && spec_pixel_bit(out, off, qx, qy, width)
                == color.spec_chromatic_bit(rendering)
            &&& (qx != px || qy != py) ==> spec_pixel_bit(out, 0, qx, qy, width)
                == spec_pixel_bit(buf, 0, qx, qy, width) && spec_pixel_bit(out, off, qx, qy, width)
                == spec_pixel_bit(buf, off, qx, qy, width)
        }),
{
    let px = spec_rotate_x(x, y, width, height, rotation);
    let py = spec_rotate_y(x, y, width, height, rotation);
    let off = spec_plane_len(width, height);
    let out = spec_draw_tri(buf, width, height, rendering, rotation, x, y, color);
    crate::graphics::lemma_rotate_in_raster(x, y, width, height, rotation);
    lemma_byte_index_in_plane(px, py, width, height);
    lemma_byte_index_in_plane(qx, qy, width, height);
    let idx = spec_byte_index(px, py, width);
    let idx_q = spec_byte_index(qx, qy, width);
    let a = (px % 8) as u8;
    let b = (qx % 8) as u8;
    if qx == px && qy == py {
        lemma_apply_bit_hits_own_mask(buf[idx], a, color.spec_bw_bit());
        lemma_apply_bit_hits_own_mask(buf[idx + off], a, color.spec_chromatic_bit(rendering));
    } else if idx_q == idx {
        if a == b {
            crate::graphics::lemma_address_injective(px, py, qx, qy, width);
            assert(false);
        }
        lemma_apply_bit_misses_other_mask(buf[idx], a, b, color.spec_bw_bit());
        lemma_apply_bit_misses_other_mask(buf[idx + off], a, b, color.spec_chromatic_bit(rendering));
    }
}

/// The monochrome counterpart: one plane, one written bit.
pub proof fn lemma_mono_draw_touches_one_pixel(
    buf: Seq<u8>,
    width: u32,
    height: u32,
    rotation: DisplayRotation,
    x: int,
    y: int,
    color: Color,
    qx: int,
    qy: int,
)
    requires
        buf.len() == spec_plane_len(width, height),
        spec_in_bounds(x, y, width, height, rotation),
        0 <= qx < width,
        0 <= qy < height,
    ensures
        ({
            let px = spec_rotate_x(x, y, width, height, rotation);
            let py = spec_rotate_y(x, y, width, height, rotation);
            let out = spec_draw_mono(buf, width, height, rotation, x, y, color);
            &&& (qx == px && qy == py) ==> spec_pixel_bit(out, 0, qx, qy, width)
                == color.spec_bit()
            &&& (qx != px || qy != py) ==> spec_pixel_bit(out, 0, qx, qy, width)
                == spec_pixel_bit(buf, 0, qx, qy, width)
        }),
{
    let px = spec_rotate_x(x, y, width, height, rotation);
    let py = spec_rotate_y(x, y, width, height, rotation);
    crate::graphics::lemma_rotate_in_raster(x, y, width, height, rotation);
    lemma_byte_index_in_plane(px, py, width, height);
    lemma_byte_index_in_plane(qx, qy, width, height);
    let idx = spec_byte_index(px, py, width);
    let idx_q = spec_byte_index(qx, qy, width);
    let a = (px % 8) as u8;
    let b = (qx % 8) as u8;
    if qx == px && qy == py {
        lemma_apply_bit_hits_own_mask(buf[idx], a, color.spec_bit());
    } else if idx_q == idx {
        if a == b {
            crate::graphics::lemma_address_injective(px, py, qx, qy, width);
            assert(false);
        }
        lemma_apply_bit_misses_other_mask(buf[idx], a, b, color.spec_bit());
    }
}

/// After a bit write, the written bit reads back as the written value.
proof fn lemma_apply_bit_hits_own_mask(c: u8, a: u8, value: bool)
    requires
        a < 8,
    ensures
        (spec_apply_bit(c, 0x80u8 >> a, value) & (0x80u8 >> a) != 0) == value,
{
    assert(a < 8 ==> ((c | (0x80u8 >> a)) & (0x80u8 >> a) != 0) && ((c & !(0x80u8 >> a)) & (0x80u8
        >> a)) == 0) by (bit_vector);
}

/// A bit write under one single-bit mask leaves the bit under any other
/// single-bit mask of the byte alone.
proof fn lemma_apply_bit_misses_other_mask(c: u8, a: u8, b: u8, value: bool)
    requires
        a < 8,
        b < 8,
        a != b,
    ensures
        (spec_apply_bit(c, 0x80u8 >> a, value) & (0x80u8 >> b)) == (c & (0x80u8 >> b)),
{
    assert(a < 8 && b < 8 && a != b ==> ((c | (0x80u8 >> a)) & (0x80u8 >> b)) == (c & (0x80u8 >> b))
        && ((c & !(0x80u8 >> a)) & (0x80u8 >> b)) == (c & (0x80u8 >> b))) by (bit_vector);
}

/// Writing a bit twice under the same mask keeps only the second value.
proof fn lemma_apply_bit_overrides(b: u8, m: u8, v1: bool, v2: bool)
    ensures
        spec_apply_bit(spec_apply_bit(b, m, v1), m, v2) == spec_apply_bit(b, m, v2),
{
    assert(((b | m) | m) == (b | m) && ((b | m) & !m) == (b & !m) && ((b & !m) | m) == (b | m) && ((
    b & !m) & !m) == (b & !m)) by (bit_vector);
}

/// Row-major sequence of every coordinate of the raster, each carrying the
/// same color: entry `k` is the coordinate `(k % width, k / width)`.
pub open spec fn spec_all_pixels_tri(width: u32, height: u32, color: TriColor) -> Seq<
    (i32, i32, TriColor),
> {
    Seq::new(
        (width * height) as nat,
        |k: int| ((k % (width as int)) as i32, (k / (width as int)) as i32, color),
    )
}

/// Mask of the `m` leftmost bits of a byte.
spec fn spec_top_mask(m: u8) -> u8 {
    !(0xffu8 >> m)
}

/// A plane byte after the first `k` pixels of a row-major sweep with a single
/// bit value: untouched before its first pixel (number `t`), fully written
/// once the sweep has passed its last, in between its leftmost bits carry the
/// value.
spec fn spec_byte_progress(b: u8, t: int, k: int, value: bool) -> u8 {
    if k <= t {
        b
    } else if k >= t + 8 {
        spec_apply_bit(b, 0xff, value)
    } else {
        spec_apply_bit(b, spec_top_mask((k - t) as u8), value)
    }
}

/// Number of the first pixel packed into plane byte `jj`.
spec fn spec_byte_start(jj: int, width: u32) -> int {
    let lb = spec_line_bytes(width);
    (jj / lb) * width + 8 * (jj % lb)
}

/// Both planes of a tri-color buffer after the first `k` pixels of a
/// row-major background sweep.
spec fn spec_partial_fill(
    buf: Seq<u8>,
    width: u32,
    height: u32,
    rendering: DisplayColorRendering,
    background: TriColor,
    k: int,
) -> Seq<u8> {
    let pl = spec_plane_len(width, height);
    let vb = background.spec_bw_bit();
    let vc = background.spec_chromatic_bit(rendering);
    Seq::new(
        buf.len(),
        |j: int|
            if j < pl {
                spec_byte_progress(buf[j], spec_byte_start(j, width), k, vb)
            } else {
                spec_byte_progress(buf[j], spec_byte_start(j - pl, width), k, vc)
            },
    )
}

/// Facts about the row, column and first pixel of a plane byte.
proof fn lemma_byte_coords(j: int, width: u32, height: u32)
    requires
        width % 8 == 0,
        width >= 1,
        0 <= j < spec_plane_len(width, height),
    ensures
        spec_line_bytes(width) == width / 8,
        8 * spec_line_bytes(width) == width,
        0 <= j / spec_line_bytes(width) < height,
        0 <= j % spec_line_bytes(width) < spec_line_bytes(width),
        j == (j / spec_line_bytes(width)) * spec_line_bytes(width) + (j % spec_line_bytes(width)),
        0 <= spec_byte_start(j, width),
        spec_byte_start(j, width) + 8 <= width * height,
{
    let w = width as int;
    let h = height as int;
    let q = w / 8;
    lemma_fundamental_div_mod(w, 8);
    lemma_fundamental_div_mod_converse(w + 7, 8, q, 7);
    let lb = spec_line_bytes(width);
    assert(lb == q && 8 * lb == w);
    lemma_fundamental_div_mod(j, lb);
    let r = j / lb;
    let c = j % lb;
    assert(j == lb * r + c && 0 <= c < lb);
    if r < 0 {
        lemma_mul_inequality(r, -1, lb);
        assert(lb * r == r * lb) by (nonlinear_arith);
        assert(false);
    }
    if r >= h {
        lemma_mul_inequality(h, r, lb);
        assert(lb * r == r * lb && h * lb == lb * h) by (nonlinear_arith);
        assert(false);
    }
    assert(j == r * lb + c) by (nonlinear_arith)
        requires
            j == lb * r + c,
    ;
    lemma_mul_inequality(0, r, w);
    lemma_mul_inequality(r, h - 1, w);
    assert((h - 1) * w + w == h * w && h * w == w * h) by (nonlinear_arith);
    assert(spec_byte_start(j, width) == r * w + 8 * c);
    assert(8 * c + 8 <= 8 * lb);
}

/// The byte whose sweep window contains pixel `k` is the byte addressing that
/// pixel.
proof fn lemma_byte_of_pixel(j: int, k: int, width: u32, height: u32)
    requires
        width % 8 == 0,
        width >= 1,
        height >= 1,
        0 <= j < spec_plane_len(width, height),
        0 <= k < width * height,
        spec_byte_start(j, width) <= k < spec_byte_start(j, width) + 8,
    ensures
        j == spec_byte_index(k % (width as int), k / (width as int), width),
{
    let w = width as int;
    lemma_byte_coords(j, width, height);
    let lb = spec_line_bytes(width);
    let r = j / lb;
    let c = j % lb;
    let t = spec_byte_start(j, width);
    assert(t == r * w + 8 * c);
    assert(8 * c + 8 <= w);
    lemma_fundamental_div_mod_converse(k, w, r, k - r * w);
    assert(k / w == r && k % w == k - r * w);
    let x = k % w;
    lemma_fundamental_div_mod_converse(x, 8, c, x - 8 * c);
    assert(x / 8 == c);
    assert(spec_byte_index(x, r, width) == r * lb + c);
}

/// The sweep window of the byte addressing pixel `k` contains `k`.
proof fn lemma_pixel_byte_window(k: int, width: u32, height: u32)
    requires
        width % 8 == 0,
        width >= 1,
        height >= 1,
        0 <= k < width * height,
    ensures
        0 <= k % (width as int) < width,
        0 <= k / (width as int) < height,
        0 <= spec_byte_index(k % (width as int), k / (width as int), width) < spec_plane_len(
            width,
            height,
        ),
        spec_byte_start(
            spec_byte_index(k % (width as int), k / (width as int), width),
            width,
        ) == k - (k % (width as int)) % 8,
        0 <= (k % (width as int)) % 8 < 8,
{
    let w = width as int;
    let h = height as int;
    lemma_fundamental_div_mod(k, w);
    let x = k % w;
    let y = k / w;
    assert(k == w * y + x && 0 <= x < w);
    if y < 0 {
        lemma_mul_inequality(y, -1, w);
        assert(w * y == y * w) by (nonlinear_arith);
        assert(false);
    }
    if y >= h {
        lemma_mul_inequality(h, y, w);
        assert(w * y == y * w && h * w == w * h) by (nonlinear_arith);
        assert(false);
    }
    lemma_byte_index_in_plane(x, y, width, height);
    let q = w / 8;
    lemma_fundamental_div_mod(w, 8);
    lemma_fundamental_div_mod_converse(w + 7, 8, q, 7);
    let lb = spec_line_bytes(width);
    lemma_fundamental_div_mod(x, 8);
    let idx = spec_byte_index(x, y, width);
    assert(idx == y * lb + x / 8);
    assert(0 <= x / 8 < lb);
    lemma_fundamental_div_mod_converse(idx, lb, y, x / 8);
    assert(idx / lb == y && idx % lb == x / 8);
    assert(spec_byte_start(idx, width) == y * w + 8 * (x / 8));
    assert(w * y == y * w) by (nonlinear_arith);
}

/// One more pixel of a sweep extends the written prefix of its byte by one
/// bit.
proof fn lemma_progress_extend(b: u8, t: int, k: int, value: bool)
    requires
        t <= k < t + 8,
    ensures
        spec_apply_bit(
            spec_byte_progress(b, t, k, value),
            0x80u8 >> ((k - t) as u8),
            value,
        ) == spec_byte_progress(b, t, k + 1, value),
{
    let m = (k - t) as u8;
    assert(m < 8);
    if m == 0 {
        assert((b | (0x80u8 >> 0u8)) == (b | !(0xffu8 >> 1u8)) && (b & !(0x80u8 >> 0u8)) == (b & !!(
        0xffu8 >> 1u8))) by (bit_vector);
    } else {
        assert(((b | !(0xffu8 >> m)) | (0x80u8 >> m)) == (b | !(0xffu8 >> ((m + 1) as u8))) && (((b
            & !!(0xffu8 >> m)) & !(0x80u8 >> m))) == (b & !!(0xffu8 >> ((m + 1) as u8))) && (m == 7
            ==> !(0xffu8 >> ((m + 1) as u8)) == 0xffu8)) by (bit_vector)
            requires
                0 < m < 8,
        ;
    }
}

/// Pixels outside a byte's sweep window leave it alone.
proof fn lemma_progress_other(b: u8, t: int, k: int, value: bool)
    requires
        !(t <= k < t + 8),
    ensures
        spec_byte_progress(b, t, k + 1, value) == spec_byte_progress(b, t, k, value),
{
}

/// Drawing pixel `k` of the row-major background sweep advances the partial
/// fill by one pixel.
proof fn lemma_sweep_step(
    buf: Seq<u8>,
    width: u32,
    height: u32,
    rendering: DisplayColorRendering,
    background: TriColor,
    k: int,
)
    requires
        width % 8 == 0,
        1 <= width,
        1 <= height,
        buf.len() == 2 * spec_plane_len(width, height),
        0 <= k < width * height,
    ensures
        spec_draw_tri(
            spec_partial_fill(buf, width, height, rendering, background, k),
            width,
            height,
            rendering,
            DisplayRotation::Rotate0,
            k % (width as int),
            k / (width as int),
            background,
        ) == spec_partial_fill(buf, width, height, rendering, background, k + 1),
{
    let w = width as int;
    let pl = spec_plane_len(width, height);
    let vb = background.spec_bw_bit();
    let vc = background.spec_chromatic_bit(rendering);
    lemma_pixel_byte_window(k, width, height);
    let x = k % w;
    let y = k / w;
    let idx = spec_byte_index(x, y, width);
    let t = spec_byte_start(idx, width);
    let part = spec_partial_fill(buf, width, height, rendering, background, k);
    let next = spec_partial_fill(buf, width, height, rendering, background, k + 1);
    assert(spec_in_bounds(x, y, width, height, DisplayRotation::Rotate0));
    assert(spec_rotate_x(x, y, width, height, DisplayRotation::Rotate0) == x);
    assert(spec_rotate_y(x, y, width, height, DisplayRotation::Rotate0) == y);
    let drawn = spec_draw_tri(
        part,
        width,
        height,
        rendering,
        DisplayRotation::Rotate0,
        x,
        y,
        background,
    );
    assert(x % 8 == k - t);
    assert(spec_bit_mask(x) == 0x80u8 >> ((k - t) as u8));
    lemma_progress_extend(buf[idx], t, k, vb);
    lemma_progress_extend(buf[idx + pl], t, k, vc);
    assert(drawn.len() == next.len());
    assert forall|j: int| 0 <= j < next.len() implies drawn[j] == next[j] by {
        if j == idx || j == idx + pl {
        } else {
            let jj = if j < pl {
                j
            } else {
                j - pl
            };
            let tj = spec_byte_start(jj, width);
            if tj <= k < tj + 8 {
                lemma_byte_of_pixel(jj, k, width, height);
                assert(jj == idx);
                assert(false);
            } else {
                let v = if j < pl {
                    vb
                } else {
                    vc
                };
                lemma_progress_other(buf[j], tj, k, v);
            }
        }
    }
    assert(drawn =~= next);
}

/// After the whole sweep every byte of both planes carries the background
/// fill.
proof fn lemma_sweep_complete(
    buf: Seq<u8>,
    width: u32,
    height: u32,
    rendering: DisplayColorRendering,
    background: TriColor,
)
    requires
        width % 8 == 0,
        1 <= width,
        1 <= height,
        buf.len() == 2 * spec_plane_len(width, height),
    ensures
        spec_partial_fill(
            buf,
            width,
            height,
            rendering,
            background,
            (width * height) as int,
        ) == spec_tri_background(width, height, rendering, background),
{
    let total = (width * height) as int;
    let pl = spec_plane_len(width, height);
    let part = spec_partial_fill(buf, width, height, rendering, background, total);
    let bg = spec_tri_background(width, height, rendering, background);
    assert forall|j: int| 0 <= j < part.len() implies part[j] == bg[j] by {
        let jj = if j < pl {
            j
        } else {
            j - pl
        };
        lemma_byte_coords(jj, width, height);
        let b = buf[j];
        assert((b | 0xffu8) == 0xffu8 && (b & !0xffu8) == 0x00u8) by (bit_vector);
    }
    assert(part =~= bg);
}

/// The first `k` draws of the background sweep produce the partial fill.
proof fn lemma_sweep_prefix(
    buf: Seq<u8>,
    width: u32,
    height: u32,
    rendering: DisplayColorRendering,
    background: TriColor,
    k: int,
)
    requires
        width % 8 == 0,
        1 <= width <= i32::MAX,
        1 <= height <= i32::MAX,
        buf.len() == 2 * spec_plane_len(width, height),
        0 <= k <= width * height,
    ensures
        spec_draw_tri_seq(
            buf,
            width,
            height,
            rendering,
            DisplayRotation::Rotate0,
            spec_all_pixels_tri(width, height, background).take(k),
        ) == spec_partial_fill(buf, width, height, rendering, background, k),
    decreases k,
{
    let all = spec_all_pixels_tri(width, height, background);
    let pl = spec_plane_len(width, height);
    if k == 0 {
        assert(all.take(0).len() == 0);
        let part = spec_partial_fill(buf, width, height, rendering, background, 0);
        assert forall|j: int| 0 <= j < part.len() implies part[j] == buf[j] by {
            let jj = if j < pl {
                j
            } else {
                j - pl
            };
            lemma_byte_coords(jj, width, height);
        }
        assert(part =~= buf);
    } else {
        lemma_sweep_prefix(buf, width, height, rendering, background, k - 1);
        let w = width as int;
        lemma_pixel_byte_window(k - 1, width, height);
        let x = (k - 1) % w;
        let y = (k - 1) / w;
        let p = all[k - 1];
        assert(p.0 as int == x && p.1 as int == y && p.2 == background);
        assert(all.take(k).drop_last() =~= all.take(k - 1));
        assert(all.take(k).last() == p);
        lemma_sweep_step(buf, width, height, rendering, background, k - 1);
    }
}

/// Row-major sequence of every coordinate of the raster for a monochrome
/// sweep.
pub open spec fn spec_all_pixels_mono(width: u32, height: u32, color: Color) -> Seq<
    (i32, i32, Color),
> {
    Seq::new(
        (width * height) as nat,
        |k: int| ((k % (width as int)) as i32, (k / (width as int)) as i32, color),
    )
}

/// A monochrome plane after the first `k` pixels of a row-major background
/// sweep.
spec fn spec_partial_fill_mono(
    buf: Seq<u8>,
    width: u32,
    height: u32,
    background: Color,
    k: int,
) -> Seq<u8> {
    let v = background.spec_bit();
    Seq::new(buf.len(), |j: int| spec_byte_progress(buf[j], spec_byte_start(j, width), k, v))
}

/// Drawing pixel `k` of the monochrome background sweep advances the partial
/// fill by one pixel.
proof fn lemma_sweep_step_mono(buf: Seq<u8>, width: u32, height: u32, background: Color, k: int)
    requires
        width % 8 == 0,
        1 <= width,
        1 <= height,
        buf.len() == spec_plane_len(width, height),
        0 <= k < width * height,
    ensures
        spec_draw_mono(
            spec_partial_fill_mono(buf, width, height, background, k),
            width,
            height,
            DisplayRotation::Rotate0,
            k % (width as int),
            k / (width as int),
            background,
        ) == spec_partial_fill_mono(buf, width, height, background, k + 1),
{
    let w = width as int;
    let pl = spec_plane_len(width, height);
    let v = background.spec_bit();
    lemma_pixel_byte_window(k, width, height);
    let x = k % w;
    let y = k / w;
    let idx = spec_byte_index(x, y, width);
    let t = spec_byte_start(idx, width);
    let part = spec_partial_fill_mono(buf, width, height, background, k);
    let next = spec_partial_fill_mono(buf, width, height, background, k + 1);
    let drawn = spec_draw_mono(part, width, height, DisplayRotation::Rotate0, x, y, background);
    assert(x % 8 == k - t);
    assert(spec_bit_mask(x) == 0x80u8 >> ((k - t) as u8));
    lemma_progress_extend(buf[idx], t, k, v);
    assert forall|j: int| 0 <= j < next.len() implies drawn[j] == next[j] by {
        if j != idx {
            let tj = spec_byte_start(j, width);
            if tj <= k < tj + 8 {
                lemma_byte_of_pixel(j, k, width, height);
                assert(false);
            } else {
                lemma_progress_other(buf[j], tj, k, v);
            }
        }
    }
    assert(drawn =~= next);
}

/// The first `k` draws of the monochrome background sweep produce the partial
/// fill.
proof fn lemma_sweep_prefix_mono(
    buf: Seq<u8>,
    width: u32,
    height: u32,
    background: Color,
    k: int,
)
    requires
        width % 8 == 0,
        1 <= width <= i32::MAX,
        1 <= height <= i32::MAX,
        buf.len() == spec_plane_len(width, height),
        0 <= k <= width * height,
    ensures
        spec_draw_mono_seq(
            buf,
            width,
            height,
            DisplayRotation::Rotate0,
            spec_all_pixels_mono(width, height, background).take(k),
        ) == spec_partial_fill_mono(buf, width, height, background, k),
    decreases k,
{
    let all = spec_all_pixels_mono(width, height, background);
    if k == 0 {
        assert(all.take(0).len() == 0);
        let part = spec_partial_fill_mono(buf, width, height, background, 0);
        assert forall|j: int| 0 <= j < part.len() implies part[j] == buf[j] by {
            lemma_byte_coords(j, width, height);
        }
        assert(part =~= buf);
    } else {
        lemma_sweep_prefix_mono(buf, width, height, background, k - 1);
        let w = width as int;
        lemma_pixel_byte_window(k - 1, width, height);
        let p = all[k - 1];
        assert(p.0 as int == (k - 1) % w && p.1 as int == (k - 1) / w && p.2 == background);
        assert(all.take(k).drop_last() =~= all.take(k - 1));
        assert(all.take(k).last() == p);
        lemma_sweep_step_mono(buf, width, height, background, k - 1);
    }
}

/// A freshly initialized monochrome buffer is bit-identical to one produced
/// by drawing the background color at every coordinate of the raster, in
/// row-major order at the default rotation.
pub proof fn lemma_mono_background_equals_sweep(
    buf: Seq<u8>,
    width: u32,
    height: u32,
    background: Color,
)
    requires
        width % 8 == 0,
        width <= i32::MAX,
        height <= i32::MAX,
        buf.len() == spec_plane_len(width, height),
    ensures
        spec_draw_mono_seq(
            buf,
            width,
            height,
            DisplayRotation::Rotate0,
            spec_all_pixels_mono(width, height, background),
        ) == spec_mono_background(width, height, background),
{
    let all = spec_all_pixels_mono(width, height, background);
    if width == 0 || height == 0 {
        assert(width * height == 0) by (nonlinear_arith)
            requires
                width == 0 || height == 0,
        ;
        let lb = spec_line_bytes(width);
        assert(lb == 0 || height == 0);
        assert(lb * height == 0) by (nonlinear_arith)
            requires
                lb == 0 || height == 0,
        ;
        assert(spec_plane_len(width, height) == 0);
        assert(all.len() == 0);
        assert(buf =~= spec_mono_background(width, height, background));
    } else {
        let total = (width * height) as int;
        lemma_sweep_prefix_mono(buf, width, height, background, total);
        assert(all.take(total) =~= all);
        let part = spec_partial_fill_mono(buf, width, height, background, total);
        let bg = spec_mono_background(width, height, background);
        assert forall|j: int| 0 <= j < part.len() implies part[j] == bg[j] by {
            lemma_byte_coords(j, width, height);
            let b = buf[j];
            assert((b | 0xffu8) == 0xffu8 && (b & !0xffu8) == 0x00u8) by (bit_vector);
        }
        assert(part =~= bg);
    }
}

/// A freshly initialized tri-color buffer is bit-identical to one produced by
/// drawing the background color at every coordinate of the raster, in
/// row-major order at the default rotation.
pub proof fn lemma_tri_background_equals_sweep(
    buf: Seq<u8>,
    width: u32,
    height: u32,
    rendering: DisplayColorRendering,
    background: TriColor,
)
    requires
        width % 8 == 0,
        width <= i32::MAX,
        height <= i32::MAX,
        buf.len() == 2 * spec_plane_len(width, height),
    ensures
        spec_draw_tri_seq(
            buf,
            width,
            height,
            rendering,
            DisplayRotation::Rotate0,
            spec_all_pixels_tri(width, height, background),
        ) == spec_tri_background(width, height, rendering, background),
{
    let all = spec_all_pixels_tri(width, height, background);
    if width == 0 || height == 0 {
        assert(width * height == 0) by (nonlinear_arith)
            requires
                width == 0 || height == 0,
        ;
        let lb = spec_line_bytes(width);
        assert(lb == 0 || height == 0);
        assert(lb * height == 0) by (nonlinear_arith)
            requires
                lb == 0 || height == 0,
        ;
        assert(spec_plane_len(width, height) == 0);
        assert(all.len() == 0);
        assert(buf =~= spec_tri_background(width, height, rendering, background));
    } else {
        let total = (width * height) as int;
        assert(total >= 0);
        lemma_sweep_prefix(buf, width, height, rendering, background, total);
        assert(all.take(total) =~= all);
        lemma_sweep_complete(buf, width, height, rendering, background);
    }
}

} // verus!
