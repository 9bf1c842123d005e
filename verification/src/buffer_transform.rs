//! How the pixels of a buffer are laid out on a surface.
use vstd::prelude::*;

use crate::backend::BufferId;
use crate::error::Error;
use crate::protocol::{Fixed, Transform};
use crate::wayland_core::{fixed_as_int, fixed_is_int, fixed_trunc};

verus! {

/// The part of the buffer that is shown: left, top, width and height.
pub type ViewportSrc = (Fixed, Fixed, Fixed, Fixed);

/// The way from the points of a surface to the pixels of its buffer. The source rectangle is in
/// units of 1/256 pixel.
#[derive(Debug, Clone, Copy, PartialEq, Eq, Structural)]
pub struct BufferTransform {
    pub buf_id: BufferId,
    pub buf_width: u32,
    pub buf_height: u32,
    pub transform: Transform,
    pub scale: u32,
    pub src_x: i64,
    pub src_y: i64,
    pub src_width: i64,
    pub src_height: i64,
    pub dst_width: u32,
    pub dst_height: u32,
}

/// One factor of the way from surface points to buffer points. Lengths are in units of 1/256
/// pixel.
#[derive(Debug, Clone, Copy, PartialEq, Eq, Structural)]
pub enum MatrixStep {
    /// Multiplies by `num_x / den_x` and `num_y / den_y`.
    Scale { num_x: i64, den_x: i64, num_y: i64, den_y: i64 },
    /// Adds `(x, y)`.
    Translate { x: i64, y: i64 },
    /// Turns `(x, y)` into `(cos * x - sin * y, sin * x + cos * y)`.
    Rotate { cos: i64, sin: i64 },
}

/// The size of the buffer as the surface sees it before any cropping.
pub open spec fn transformed_size(buf_width: u32, buf_height: u32, transform: Transform, scale: i32) -> (u32, u32) {
    let w = buf_width / (scale as u32);
    let h = buf_height / (scale as u32);
    if transform.quarter_turn() {
        (h, w)
    } else {
        (w, h)
    }
}

/// The transform of a buffer, or the rule that the surface state breaks.
pub open spec fn buffer_transform(
    buf_id: BufferId,
    buf_width: u32,
    buf_height: u32,
    transform: Transform,
    scale: i32,
    viewport_src: Option<ViewportSrc>,
    viewport_dst: Option<(u32, u32)>,
) -> Result<BufferTransform, Error> {
    let (tw, th) = transformed_size(buf_width, buf_height, transform, scale);
    if scale <= 0 {
        Err(Error::InvalidBufferScale)
    } else if buf_width % (scale as u32) != 0 || buf_height % (scale as u32) != 0 {
        Err(Error::BufferSizeNotMultipleOfScale)
    } else if viewport_src matches Some(v) && (v.0.0 + v.2.0 > tw * 256 || v.1.0 + v.3.0 > th * 256) {
        Err(Error::ViewportSrcOutOfBuffer)
    } else if viewport_dst is None && (viewport_src matches Some(v) && (v.3.0 as int % 256 != 0 || v.2.0 as int % 256
        != 0)) {
        Err(Error::ViewportSrcNotInt)
    } else {
        let (dw, dh) = match (viewport_dst, viewport_src) {
            (Some(d), _) => d,
            (None, Some(v)) => (fixed_trunc(v.2) as u32, fixed_trunc(v.3) as u32),
            (None, None) => (tw, th),
        };
        let (sx, sy, sw, sh) = match viewport_src {
            None => (0i64, 0i64, (dw * 256) as i64, (dh * 256) as i64),
            Some(v) => (v.0.0 as i64, v.1.0 as i64, v.2.0 as i64, v.3.0 as i64),
        };
        Ok(
            BufferTransform {
                buf_id,
                buf_width,
                buf_height,
                transform,
                scale: scale as u32,
                src_x: sx,
                src_y: sy,
                src_width: sw,
                src_height: sh,
                dst_width: dw,
                dst_height: dh,
            },
        )
    }
}

impl BufferTransform {
    /// Checks the size of a buffer against the state of the surface that shows it, and works out
    /// what is shown where.
    pub fn new(
        buf_id: BufferId,
        buf_width: u32,
        buf_height: u32,
        transform: Transform,
        scale: i32,
        viewport_src: Option<ViewportSrc>,
        viewport_dst: Option<(u32, u32)>,
    ) -> (r: Result<Self, Error>)
        ensures
            r == buffer_transform(buf_id, buf_width, buf_height, transform, scale, viewport_src, viewport_dst),
    {
        if scale <= 0 {
            return Err(Error::InvalidBufferScale);
        }
        let scale_u: u32 = scale as u32;
        if buf_width % scale_u != 0 || buf_height % scale_u != 0 {
            return Err(Error::BufferSizeNotMultipleOfScale);
        }
        let w: u32 = buf_width / scale_u;
        let h: u32 = buf_height / scale_u;
        let (transformed_w, transformed_h): (u32, u32) = if transform.is_quarter_turn() {
            (h, w)
        } else {
            (w, h)
        };
        if let Some(v) = viewport_src {
            if v.0.0 as i64 + v.2.0 as i64 > transformed_w as i64 * 256 || v.1.0 as i64 + v.3.0 as i64 > transformed_h as i64
                * 256 {
                return Err(Error::ViewportSrcOutOfBuffer);
            }
        }
        let (dst_width, dst_height): (u32, u32) = match viewport_dst {
            Some(d) => d,
            None => match viewport_src {
                Some(v) => {
                    if !fixed_is_int(v.3) || !fixed_is_int(v.2) {
                        return Err(Error::ViewportSrcNotInt);
                    }
                    (fixed_as_int(v.2) as u32, fixed_as_int(v.3) as u32)
                },
                None => (transformed_w, transformed_h),
            },
        };
        let (src_x, src_y, src_width, src_height): (i64, i64, i64, i64) = match viewport_src {
            None => (0, 0, dst_width as i64 * 256, dst_height as i64 * 256),
            Some(v) => (v.0.0 as i64, v.1.0 as i64, v.2.0 as i64, v.3.0 as i64),
        };
        Ok(
            Self {
                buf_id,
                buf_width,
                buf_height,
                transform,
                scale: scale_u,
                src_x,
                src_y,
                src_width,
                src_height,
                dst_width,
                dst_height,
            },
        )
    }

    /// The factors of the way from surface points to buffer points, in the order in which they are
    /// applied.
    pub open spec fn steps(self) -> Seq<MatrixStep> {
        let base = seq![
            MatrixStep::Scale {
                num_x: self.src_width,
                den_x: (self.dst_width * 256) as i64,
                num_y: self.src_height,
                den_y: (self.dst_height * 256) as i64,
            },
            MatrixStep::Translate { x: self.src_x, y: self.src_y },
            MatrixStep::Scale { num_x: self.scale as i64, den_x: 1, num_y: self.scale as i64, den_y: 1 },
        ];
        let bw = (self.buf_width * 256) as i64;
        let bh = (self.buf_height * 256) as i64;
        let mirrored = if self.transform.mirrored() {
            base + seq![
                MatrixStep::Scale { num_x: -1i64, den_x: 1, num_y: 1, den_y: 1 },
                MatrixStep::Translate { x: bw, y: 0 },
            ]
        } else {
            base
        };
        let turned = if self.transform.quarter_turn() {
            mirrored + seq![MatrixStep::Rotate { cos: 0, sin: -1i64 }, MatrixStep::Translate { x: 0, y: bh }]
        } else {
            mirrored
        };
        if self.transform.half_turn() {
            turned + seq![MatrixStep::Rotate { cos: -1i64, sin: 0 }, MatrixStep::Translate { x: bw, y: bh }]
        } else {
            turned
        }
    }

    /// The factors of the way from surface points to buffer points.
    pub fn surface_to_buffer(&self) -> (r: Vec<MatrixStep>)
        ensures
            r@ == self.steps(),
    {
        let mut steps: Vec<MatrixStep> = Vec::new();
        steps.push(
            MatrixStep::Scale {
                num_x: self.src_width,
                den_x: self.dst_width as i64 * 256,
                num_y: self.src_height,
                den_y: self.dst_height as i64 * 256,
            },
        );
        steps.push(MatrixStep::Translate { x: self.src_x, y: self.src_y });
        steps.push(MatrixStep::Scale { num_x: self.scale as i64, den_x: 1, num_y: self.scale as i64, den_y: 1 });
        let bw: i64 = self.buf_width as i64 * 256;
        let bh: i64 = self.buf_height as i64 * 256;
        if self.transform.is_mirrored() {
            steps.push(MatrixStep::Scale { num_x: -1, den_x: 1, num_y: 1, den_y: 1 });
            steps.push(MatrixStep::Translate { x: bw, y: 0 });
        }
        if self.transform.is_quarter_turn() {
            steps.push(MatrixStep::Rotate { cos: 0, sin: -1 });
            steps.push(MatrixStep::Translate { x: 0, y: bh });
        }
        if self.transform.is_half_turn() {
            steps.push(MatrixStep::Rotate { cos: -1, sin: 0 });
            steps.push(MatrixStep::Translate { x: bw, y: bh });
        }
        assert(steps@ =~= self.steps());
        steps
    }

    /// The factors of the way from surface points to points of the buffer whose sides have length
    /// one.
    pub fn surface_to_uv(&self) -> (r: Vec<MatrixStep>)
        ensures
            r@ == self.steps().push(
                MatrixStep::Scale { num_x: 1, den_x: self.buf_width as i64, num_y: 1, den_y: self.buf_height as i64 },
            ),
    {
        let mut steps = self.surface_to_buffer();
        steps.push(
            MatrixStep::Scale { num_x: 1, den_x: self.buf_width as i64, num_y: 1, den_y: self.buf_height as i64 },
        );
        steps
    }

    /// The buffer that is shown.
    pub fn buf_id(&self) -> (r: BufferId)
        ensures
            r == self.buf_id,
    {
        self.buf_id
    }

    /// The width of the surface.
    pub fn dst_width(&self) -> (r: u32)
        ensures
            r == self.dst_width,
    {
        self.dst_width
    }

    /// The height of the surface.
    pub fn dst_height(&self) -> (r: u32)
        ensures
            r == self.dst_height,
    {
        self.dst_height
    }
}

/// Where a step takes a point, in units of 1/256 pixel and rounded down.
pub open spec fn step_image(step: MatrixStep, p: (int, int)) -> (int, int) {
    match step {
        MatrixStep::Scale { num_x, den_x, num_y, den_y } => (p.0 * num_x / den_x as int, p.1 * num_y / den_y as int),
        MatrixStep::Translate { x, y } => (p.0 + x, p.1 + y),
        MatrixStep::Rotate { cos, sin } => (cos * p.0 - sin * p.1, sin * p.0 + cos * p.1),
    }
}

/// Where the steps take a point when they are applied in order.
pub open spec fn steps_image(steps: Seq<MatrixStep>, p: (int, int)) -> (int, int)
    decreases steps.len(),
{
    if steps.len() == 0 {
        p
    } else {
        step_image(steps.last(), steps_image(steps.drop_last(), p))
    }
}

/// A part of `whole`, scaled to a side of length `side`, stays within that side.
proof fn lemma_scaled(p: int, side: int, whole: int)
    requires
        0 <= p <= whole,
        0 < whole,
        0 <= side,
    ensures
        0 <= p * side / whole <= side,
{
    assert(0 <= p * side / whole <= side) by (nonlinear_arith)
        requires
            0 <= p <= whole,
            0 < whole,
            0 <= side,
    ;
}

/// Where turning by a quarter to the left, or by a half, takes a point.
proof fn lemma_rotated(cos: i64, sin: i64, p: (int, int))
    ensures
        cos == 0 && sin == -1 ==> step_image(MatrixStep::Rotate { cos, sin }, p) == (p.1, -p.0),
        cos == -1 && sin == 0 ==> step_image(MatrixStep::Rotate { cos, sin }, p) == (-p.0, -p.1),
{
    let (x, y) = p;
    assert(cos == 0 && sin == -1 ==> cos * x - sin * y == y && sin * x + cos * y == -x) by (nonlinear_arith);
    assert(cos == -1 && sin == 0 ==> cos * x - sin * y == -x && sin * x + cos * y == -y) by (nonlinear_arith);
}

proof fn lemma_two_more(steps: Seq<MatrixStep>, a: MatrixStep, b: MatrixStep, p: (int, int))
    ensures
        steps_image(steps + seq![a, b], p) == step_image(b, step_image(a, steps_image(steps, p))),
{
    let all = steps + seq![a, b];
    assert(all.drop_last() =~= steps.push(a));
    assert(all.last() == b);
    assert(steps.push(a).drop_last() =~= steps);
    assert(steps_image(steps.push(a), p) == step_image(a, steps_image(steps, p)));
}

/// The point of the buffer that a point of the surface shows, in units of 1/256 pixel and rounded
/// down.
pub open spec fn buffer_point(t: BufferTransform, p: (int, int)) -> (int, int) {
    let x = (p.0 * t.src_width / (t.dst_width * 256) + t.src_x) * t.scale;
    let y = (p.1 * t.src_height / (t.dst_height * 256) + t.src_y) * t.scale;
    let w = t.buf_width * 256;
    let h = t.buf_height * 256;
    match t.transform {
        Transform::Normal => (x, y),
        Transform::Rotated90 => (y, h - x),
        Transform::Rotated180 => (w - x, h - y),
        Transform::Rotated270 => (w - y, x),
        Transform::Flipped => (w - x, y),
        Transform::Flipped90 => (y, h - w + x),
        Transform::Flipped180 => (x, h - y),
        Transform::Flipped270 => (w - y, w - x),
    }
}

/// The steps take each point of a surface to the point of the buffer that it shows.
pub proof fn law_surface_point(t: BufferTransform, p: (int, int))
    ensures
        steps_image(t.steps(), p) == buffer_point(t, p),
{
    let a = MatrixStep::Scale {
        num_x: t.src_width,
        den_x: (t.dst_width * 256) as i64,
        num_y: t.src_height,
        den_y: (t.dst_height * 256) as i64,
    };
    let b = MatrixStep::Translate { x: t.src_x, y: t.src_y };
    let c = MatrixStep::Scale { num_x: t.scale as i64, den_x: 1, num_y: t.scale as i64, den_y: 1 };
    let base = seq![a, b, c];
    let none = Seq::<MatrixStep>::empty();
    assert(seq![a, b, c].drop_last() =~= none + seq![a, b]);
    lemma_two_more(none, a, b, p);
    assert(steps_image(none, p) == p);
    let q = steps_image(base.drop_last(), p);
    let r = steps_image(base, p);
    assert(r == step_image(c, q));
    assert(forall|x: int| #[trigger] (x / 1int) == x) by (nonlinear_arith);
    assert(r == (q.0 * t.scale, q.1 * t.scale));
    let w = (t.buf_width * 256) as i64;
    let h = (t.buf_height * 256) as i64;
    let m1 = MatrixStep::Scale { num_x: -1i64, den_x: 1, num_y: 1, den_y: 1 };
    let m2 = MatrixStep::Translate { x: w, y: 0 };
    let mirrored = if t.transform.mirrored() {
        base + seq![m1, m2]
    } else {
        base
    };
    lemma_two_more(base, m1, m2, p);
    let q1 = MatrixStep::Rotate { cos: 0, sin: -1i64 };
    let q2 = MatrixStep::Translate { x: 0, y: h };
    let turned = if t.transform.quarter_turn() {
        mirrored + seq![q1, q2]
    } else {
        mirrored
    };
    lemma_two_more(mirrored, q1, q2, p);
    let h1 = MatrixStep::Rotate { cos: -1i64, sin: 0 };
    let h2 = MatrixStep::Translate { x: w, y: h };
    lemma_two_more(turned, h1, h2, p);
    let im = steps_image(mirrored, p);
    if t.transform.mirrored() {
        assert(im == step_image(m2, step_image(m1, r)));
        assert(r.0 * -1 == -r.0 && r.1 * 1 == r.1);
        assert(im == (w - r.0, r.1));
    }
    let it = steps_image(turned, p);
    lemma_rotated(0, -1i64, im);
    lemma_rotated(-1i64, 0, it);
    if t.transform.quarter_turn() {
        assert(it == (im.1, h - im.0));
    }
    if t.transform.half_turn() {
        assert(steps_image(t.steps(), p) == (w - it.0, h - it.1));
    }
}

/// Every point of a surface shows a point of its buffer. It does so for every transform but a
/// quarter turn of a mirrored buffer that is not square, and for every viewport but a destination
/// size without a source rectangle.
pub proof fn law_surface_shows_buffer(
    t: BufferTransform,
    scale: i32,
    viewport_src: Option<ViewportSrc>,
    viewport_dst: Option<(u32, u32)>,
    p: (int, int),
)
    requires
        buffer_transform(t.buf_id, t.buf_width, t.buf_height, t.transform, scale, viewport_src, viewport_dst) == Ok::<
            BufferTransform,
            Error,
        >(t),
        viewport_src matches Some(v) ==> v.0.0 >= 0 && v.1.0 >= 0 && v.2.0 > 0 && v.3.0 > 0,
        viewport_src is None ==> viewport_dst is None,
        t.transform.mirrored() && t.transform.quarter_turn() ==> t.buf_width == t.buf_height,
        t.dst_width > 0,
        t.dst_height > 0,
        0 <= p.0 <= t.dst_width * 256,
        0 <= p.1 <= t.dst_height * 256,
    ensures
        0 <= steps_image(t.steps(), p).0 <= t.buf_width * 256,
        0 <= steps_image(t.steps(), p).1 <= t.buf_height * 256,
{
    law_surface_point(t, p);
    let (tw, th) = transformed_size(t.buf_width, t.buf_height, t.transform, scale);
    lemma_scaled(p.0, t.src_width as int, t.dst_width * 256);
    lemma_scaled(p.1, t.src_height as int, t.dst_height * 256);
    let qx = p.0 * t.src_width / (t.dst_width * 256) + t.src_x;
    let qy = p.1 * t.src_height / (t.dst_height * 256) + t.src_y;
    assert(0 <= qx <= tw * 256 && 0 <= qy <= th * 256);
    let n = scale as int;
    let (bw, bh) = (t.buf_width as int, t.buf_height as int);
    assert((bw / n) * n == bw && (bh / n) * n == bh) by (nonlinear_arith)
        requires
            n > 0,
            bw % n == 0,
            bh % n == 0,
    ;
    let (mw, mh) = if t.transform.quarter_turn() {
        (bh, bw)
    } else {
        (bw, bh)
    };
    assert(tw * n == mw && th * n == mh);
    assert(0 <= qx * n <= mw * 256) by (nonlinear_arith)
        requires
            0 <= qx <= tw * 256,
            n > 0,
            tw * n == mw,
    ;
    assert(0 <= qy * n <= mh * 256) by (nonlinear_arith)
        requires
            0 <= qy <= th * 256,
            n > 0,
            th * n == mh,
    ;
    assert(t.scale as int == n);
}

/// A surface has the size that was set for its viewport, else that of the part of the buffer that was set, which must
/// then be in whole pixels, else that of the buffer, divided by the scale and turned with it. The scale must divide
/// the size of the buffer, and the part must be inside of it.
pub proof fn law_surface_size(
    id: BufferId,
    width: u32,
    height: u32,
    transform: Transform,
    scale: i32,
    src: Option<ViewportSrc>,
    dst: Option<(u32, u32)>,
)
    requires
        src matches Some(v) ==> v.0.0 >= 0 && v.1.0 >= 0 && v.2.0 > 0 && v.3.0 > 0,
    ensures
        ({
            let turned = transform == Transform::Rotated90 || transform == Transform::Rotated270 || transform
                == Transform::Flipped90 || transform == Transform::Flipped270;
            let (w, h) = if turned {
                (height as int, width as int)
            } else {
                (width as int, height as int)
            };
            let divides = scale > 0 && width as int % scale as int == 0 && height as int % scale as int == 0;
            let fits = src matches Some(v) ==> (v.0.0 + v.2.0) <= 256 * (w / scale as int) && (v.1.0 + v.3.0) <= 256 * (h
                / scale as int);
            let whole = dst is Some || (src matches Some(v) ==> v.2.0 as int % 256 == 0 && v.3.0 as int % 256 == 0);
            match buffer_transform(id, width, height, transform, scale, src, dst) {
                Ok(t) => {
                    &&& divides && fits && whole
                    &&& t.buf_id == id && t.buf_width == width && t.buf_height == height
                    &&& t.transform == transform && t.scale == scale
                    &&& match (dst, src) {
                        (Some(d), _) => t.dst_width == d.0 && t.dst_height == d.1,
                        (None, Some(v)) => t.dst_width * 256 == v.2.0 && t.dst_height * 256 == v.3.0,
                        (None, None) => t.dst_width == w / scale as int && t.dst_height == h / scale as int,
                    }
                    &&& match src {
                        Some(v) => t.src_x == v.0.0 && t.src_y == v.1.0 && t.src_width == v.2.0 && t.src_height == v.3.0,
                        None => t.src_x == 0 && t.src_y == 0 && t.src_width == t.dst_width * 256 && t.src_height
                            == t.dst_height * 256,
                    }
                },
                Err(e) => match e {
                    Error::InvalidBufferScale => scale <= 0,
                    Error::BufferSizeNotMultipleOfScale => scale > 0 && !divides,
                    Error::ViewportSrcOutOfBuffer => divides && !fits,
                    Error::ViewportSrcNotInt => divides && fits && !whole,
                    _ => false,
                },
            }
        }),
{
}

} // verus!
