use vstd::prelude::*;

verus! {

/// A colour without alpha.
#[derive(Clone, Copy, Debug, PartialEq, Eq, Structural)]
pub struct Rgb {
    pub r: u8,
    pub g: u8,
    pub b: u8,
}

/// A captured frame: `pixels` holds `width * height` colours, row by row.
#[derive(Clone, Debug)]
pub struct Frame {
    pub width: u32,
    pub height: u32,
    pub pixels: Vec<Rgb>,
}

/// Squared distance of two colours in RGB space.
pub open spec fn distance_spec(a: Rgb, b: Rgb) -> int {
    let x = a.r - b.r;
    let y = a.g - b.g;
    let z = a.b - b.b;
    x * x + y * y + z * z
}

/// Squared distance of two colours in RGB space.
pub fn color_distance(c1: &Rgb, c2: &Rgb) -> (r: i32)
    ensures
        r == distance_spec(*c1, *c2),
        0 <= r <= 195075,
{
    let x = c1.r as i32 - c2.r as i32;
    let y = c1.g as i32 - c2.g as i32;
    let z = c1.b as i32 - c2.b as i32;
    assert(0 <= x * x <= 65025) by (nonlinear_arith)
        requires
            -255 <= x <= 255,
    ;
    assert(0 <= y * y <= 65025) by (nonlinear_arith)
        requires
            -255 <= y <= 255,
    ;
    assert(0 <= z * z <= 65025) by (nonlinear_arith)
        requires
            -255 <= z <= 255,
    ;
    x * x + y * y + z * z
}

impl Frame {
    pub open spec fn wf(&self) -> bool {
        self.pixels@.len() == self.width * self.height && self.pixels@.len() < 0x1_0000_0000
    }
}

/// The sum of the distances between each pixel of the first `k` and its
/// right and lower neighbours, with the number of such pairs.
pub open spec fn neighbour_sums(f: Frame, k: int) -> (int, int)
    decreases k,
{
    if k <= 0 || f.width == 0 {
        (0, 0)
    } else {
        let i = k - 1;
        let x = i % (f.width as int);
        let y = i / (f.width as int);
        let prev = neighbour_sums(f, k - 1);
        let h = if x + 1 < f.width {
            (distance_spec(f.pixels@[i], f.pixels@[i + 1]), 1int)
        } else {
            (0int, 0int)
        };
        let v = if y + 1 < f.height {
            (distance_spec(f.pixels@[i], f.pixels@[i + f.width]), 1int)
        } else {
            (0int, 0int)
        };
        (prev.0 + h.0 + v.0, prev.1 + h.1 + v.1)
    }
}

/// The mean distance between neighbouring pixels, rounded down; zero for a
/// frame without neighbours. Textured cards score high, flat background
/// low.
pub open spec fn average_diff_spec(f: Frame) -> int {
    let s = neighbour_sums(f, f.pixels@.len() as int);
    if s.1 == 0 {
        0
    } else {
        s.0 / s.1
    }
}

/// Mean distance between each pixel and its right and lower neighbours.
pub fn average_color_diff(image: &Frame) -> (r: u64)
    requires
        image.wf(),
    ensures
        r == average_diff_spec(*image),
{
    let n = image.pixels.len();
    let w = image.width as usize;
    let h = image.height as usize;
    if w == 0 {
        return 0;
    }
    let mut sum: u64 = 0;
    let mut count: u64 = 0;
    let mut k: usize = 0;
    while k < n
        invariant
            n == image.pixels@.len() == image.width * image.height,
            n < 0x1_0000_0000,
            w == image.width,
            h == image.height,
            w > 0,
            k <= n,
            (sum as int, count as int) == neighbour_sums(*image, k as int),
            sum <= k * 390150,
            count <= 2 * k,
        decreases n - k,
    {
        let x = k % w;
        let y = k / w;
        assert(y < h) by (nonlinear_arith)
            requires
                k < n,
                n == w * h,
                y == k / w,
                w > 0,
        ;
        if x + 1 < w {
            assert(k + 1 < n) by (nonlinear_arith)
                requires
                    x + 1 < w,
                    x == k % w,
                    y == k / w,
                    y < h,
                    n == w * h,
                    w > 0,
            ;
            let d = color_distance(&image.pixels[k], &image.pixels[k + 1]);
            sum = sum + d as u64;
            count = count + 1;
        }
        if y + 1 < h {
            assert(k + w < n) by (nonlinear_arith)
                requires
                    y + 1 < h,
                    x == k % w,
                    y == k / w,
                    n == w * h,
                    w > 0,
                    k < n,
            ;
            let d = color_distance(&image.pixels[k], &image.pixels[k + w]);
            sum = sum + d as u64;
            count = count + 1;
        }
        k = k + 1;
    }
    if count == 0 {
        0
    } else {
        sum / count
    }
}

/// A cell holds a card when its pixels differ from their neighbours by more
/// than `threshold` on average.
pub fn has_card(average_diff: u64, threshold: u64) -> (r: bool)
    ensures
        r == (average_diff > threshold),
{
    average_diff > threshold
}

} // verus!
