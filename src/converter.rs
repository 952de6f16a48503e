use vstd::prelude::*;

use crate::geometry::{in_i32, lemma_i32_product, Point, Region, Size};

verus! {

/// Scales points from the reference resolution to the window.
#[derive(Clone, Copy, Debug)]
pub struct Converter {
    pub resolution: Size,
    pub window_rect: (Point, Size),
}

/// Why a conversion failed.
#[derive(Clone, Copy, Debug, PartialEq, Eq, Structural)]
pub enum ConvertError {
    /// The reference resolution is not positive in both directions.
    InvalidResolution,
    /// The converted point lies outside the `i32` range.
    OutOfRange,
}

/// `a * b / c` with the quotient truncated toward zero, as Rust divides.
pub open spec fn scale_trunc(a: int, b: int, c: int) -> int {
    if a * b >= 0 {
        (a * b) / c
    } else {
        -((-(a * b)) / c)
    }
}

fn scale_i64(a: i32, b: i32, c: i32) -> (r: i64)
    requires
        c > 0,
    ensures
        r == scale_trunc(a as int, b as int, c as int),
{
    proof {
        lemma_i32_product(a as int, b as int);
    }
    let p = (a as i64) * (b as i64);
    if p >= 0 {
        p / (c as i64)
    } else {
        -((-p) / (c as i64))
    }
}

proof fn lemma_quotient_bound(a: int, b: int, c: int)
    requires
        c > 0,
        -0x4000_0000_0000_0000 <= a * b <= 0x4000_0000_0000_0000,
    ensures
        -0x4000_0000_0000_0000 <= scale_trunc(a, b, c) <= 0x4000_0000_0000_0000,
{
    let p = a * b;
    if p >= 0 {
        assert(0 <= p / c <= p) by (nonlinear_arith)
            requires
                p >= 0,
                c > 0,
        ;
    } else {
        assert(0 <= (-p) / c <= -p) by (nonlinear_arith)
            requires
                -p > 0,
                c > 0,
        ;
    }
}

impl Converter {
    pub open spec fn wf(&self) -> bool {
        self.resolution.width > 0 && self.resolution.height > 0
    }

    /// The window point of `p`: scaled by window size over resolution, then
    /// moved by the window's origin when `with_base`.
    pub open spec fn point_spec(&self, p: Point, with_base: bool) -> (int, int) {
        let (client, size) = self.window_rect;
        let x = scale_trunc(size.width as int, p.x as int, self.resolution.width as int);
        let y = scale_trunc(size.height as int, p.y as int, self.resolution.height as int);
        if with_base {
            (client.x + x, client.y + y)
        } else {
            (x, y)
        }
    }

    pub fn new(resolution: &Size, window_rect: (Point, Size)) -> (r: Result<Converter, ConvertError>)
        ensures
            r is Ok <==> resolution.width > 0 && resolution.height > 0,
            r matches Ok(c) ==> c.wf() && c.resolution == *resolution && c.window_rect
                == window_rect,
    {
        if resolution.width > 0 && resolution.height > 0 {
            Ok(Converter { resolution: *resolution, window_rect })
        } else {
            Err(ConvertError::InvalidResolution)
        }
    }

    /// Converts a point of the reference resolution to the window.
    pub fn translate_point(&self, point: &Point, with_base: bool) -> (r: Result<Point, ConvertError>)
        requires
            self.wf(),
        ensures
            r is Ok <==> in_i32(self.point_spec(*point, with_base).0) && in_i32(
                self.point_spec(*point, with_base).1,
            ),
            r matches Ok(q) ==> q.x == self.point_spec(*point, with_base).0 && q.y
                == self.point_spec(*point, with_base).1,
            r matches Err(e) ==> e == ConvertError::OutOfRange,
    {
        let (client, size) = self.window_rect;
        let x = scale_i64(size.width, point.x, self.resolution.width);
        let y = scale_i64(size.height, point.y, self.resolution.height);
        proof {
            lemma_i32_product(size.width as int, point.x as int);
            lemma_i32_product(size.height as int, point.y as int);
            lemma_quotient_bound(size.width as int, point.x as int, self.resolution.width as int);
            lemma_quotient_bound(size.height as int, point.y as int, self.resolution.height as int);
        }
        let (bx, by) = if with_base {
            (client.x as i64, client.y as i64)
        } else {
            (0i64, 0i64)
        };
        let rx = bx + x;
        let ry = by + y;
        if rx < i32::MIN as i64 || rx > i32::MAX as i64 || ry < i32::MIN as i64 || ry
            > i32::MAX as i64 {
            return Err(ConvertError::OutOfRange);
        }
        Ok(Point { x: rx as i32, y: ry as i32 })
    }

    /// Converts both corners of a region, without the window's origin.
    pub fn translate_region(&self, region: &Region) -> (r: Result<Region, ConvertError>)
        requires
            self.wf(),
        ensures
            r is Ok <==> in_i32(self.point_spec(region.start, false).0) && in_i32(
                self.point_spec(region.start, false).1,
            ) && in_i32(self.point_spec(region.end, false).0) && in_i32(
                self.point_spec(region.end, false).1,
            ),
            r matches Ok(q) ==> q.start.x == self.point_spec(region.start, false).0
                && q.start.y == self.point_spec(region.start, false).1 && q.end.x
                == self.point_spec(region.end, false).0 && q.end.y == self.point_spec(
                region.end,
                false,
            ).1,
    {
        let start = self.translate_point(&region.start, false)?;
        let end = self.translate_point(&region.end, false)?;
        Ok(Region { start, end })
    }
}

} // verus!
