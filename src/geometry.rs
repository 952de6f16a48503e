use vstd::prelude::*;

use crate::decimal::{Dec, MAX_MANTISSA, MAX_SCALE};
use crate::grammar::{digits_value, is_digit, lemma_digits_value_grows};

verus! {

/// A width and a height in pixels.
#[derive(Clone, Copy, Debug, PartialEq, Eq, Structural)]
pub struct Size {
    pub width: i32,
    pub height: i32,
}

/// A point in pixels.
#[derive(Clone, Copy, Debug, PartialEq, Eq, Structural)]
pub struct Point {
    pub x: i32,
    pub y: i32,
}

/// A rectangle from its top-left corner `start` to its bottom-right corner
/// `end`.
#[derive(Clone, Copy, Debug, PartialEq, Eq, Structural)]
pub struct Region {
    pub start: Point,
    pub end: Point,
}

pub open spec fn in_i32(v: int) -> bool {
    i32::MIN <= v <= i32::MAX
}

/// The product of two `i32` values fits in 63 bits.
pub proof fn lemma_i32_product(a: int, b: int)
    requires
        in_i32(a),
        in_i32(b),
    ensures
        -0x4000_0000_0000_0000 <= a * b <= 0x4000_0000_0000_0000,
{
    assert(-0x4000_0000_0000_0000 <= a * b <= 0x4000_0000_0000_0000) by (nonlinear_arith)
        requires
            -0x8000_0000 <= a <= 0x7fff_ffff,
            -0x8000_0000 <= b <= 0x7fff_ffff,
    ;
}

pub open spec fn shifted(v: i32, offset: Option<i32>) -> int {
    match offset {
        Some(d) => v + d,
        None => v as int,
    }
}

/// The offsets keep `point` inside the `i32` range.
pub open spec fn offset_fits(point: Point, offset_x: Option<i32>, offset_y: Option<i32>) -> bool {
    in_i32(shifted(point.x, offset_x)) && in_i32(shifted(point.y, offset_y))
}

/// Moves `point` by the offsets that are given.
pub fn point_offset(point: &Point, offset_x: Option<i32>, offset_y: Option<i32>) -> (r: Point)
    requires
        offset_fits(*point, offset_x, offset_y),
    ensures
        r.x == shifted(point.x, offset_x),
        r.y == shifted(point.y, offset_y),
{
    let mut p = *point;
    if let Some(x) = offset_x {
        p.x = p.x + x;
    }
    if let Some(y) = offset_y {
        p.y = p.y + y;
    }
    p
}

/// Moves both corners of `region` by the offsets that are given.
pub fn region_offset(region: &Region, offset_x: Option<i32>, offset_y: Option<i32>) -> (r: Region)
    requires
        offset_fits(region.start, offset_x, offset_y),
        offset_fits(region.end, offset_x, offset_y),
    ensures
        r.start.x == shifted(region.start.x, offset_x),
        r.start.y == shifted(region.start.y, offset_y),
        r.end.x == shifted(region.end.x, offset_x),
        r.end.y == shifted(region.end.y, offset_y),
{
    Region {
        start: point_offset(&region.start, offset_x, offset_y),
        end: point_offset(&region.end, offset_x, offset_y),
    }
}

/// The square centred on `point` that reaches `half_width` pixels each way.
pub fn point_to_square_region(point: &Point, half_width: u32) -> (r: Region)
    requires
        in_i32(point.x - half_width) && in_i32(point.x + half_width),
        in_i32(point.y - half_width) && in_i32(point.y + half_width),
    ensures
        r.start.x == point.x - half_width,
        r.start.y == point.y - half_width,
        r.end.x == point.x + half_width,
        r.end.y == point.y + half_width,
{
    let h = half_width as i32;
    let start = point_offset(point, Some(-h), Some(-h));
    let end = point_offset(point, Some(h), Some(h));
    Region { start, end }
}

/// The characters that never stand in a recognised name.
pub open spec fn is_special(c: char) -> bool {
    c == ':' || c == '?' || c == '*' || c == '|' || c == '<' || c == '>' || c == '"' || c
        == '\'' || c == '：' || c == '？' || c == '＊' || c == '｜' || c == '《' || c == '》'
        || c == '“' || c == '”' || c == '‘' || c == '’'
}

/// `s` without its special characters.
pub open spec fn without_special(s: Seq<char>) -> Seq<char>
    decreases s.len(),
{
    if s.len() == 0 {
        s
    } else if is_special(s.last()) {
        without_special(s.drop_last())
    } else {
        without_special(s.drop_last()).push(s.last())
    }
}

fn special(c: char) -> (r: bool)
    ensures
        r == is_special(c),
{
    c == ':' || c == '?' || c == '*' || c == '|' || c == '<' || c == '>' || c == '"' || c
        == '\'' || c == '：' || c == '？' || c == '＊' || c == '｜' || c == '《' || c == '》'
        || c == '“' || c == '”' || c == '‘' || c == '’'
}

/// Removes `: ? * | < > " '` and their full-width forms, and the CJK
/// quotation marks.
pub fn remove_special_char(s: &str) -> (r: String)
    ensures
        r@ == without_special(s@),
{
    let n = s.unicode_len();
    let mut out = String::new();
    let mut i: usize = 0;
    while i < n
        invariant
            n == s@.len(),
            i <= n,
            out@ == without_special(s@.subrange(0, i as int)),
        decreases n - i,
    {
        let c = s.get_char(i);
        let ghost pre = s@.subrange(0, i as int);
        assert(s@.subrange(0, i + 1).drop_last() =~= pre);
        if !special(c) {
            out.append(s.substring_char(i, i + 1));
            assert(s@.subrange(i as int, i + 1) =~= seq![c]);
        }
        i = i + 1;
    }
    assert(s@.subrange(0, n as int) =~= s@);
    out
}

/// Result of `char::is_numeric` on `c`.
pub uninterp spec fn numeric_char(c: char) -> bool;

/// Relies on `char::is_numeric`: true for the characters of the Unicode
/// number categories, among them the ASCII digits.
#[verifier::external_body]
fn is_numeric(c: char) -> (r: bool)
    ensures
        r == numeric_char(c),
        is_digit(c) ==> r,
{
    c.is_numeric()
}

/// The characters of `s` that are numeric or `.`.
pub open spec fn number_chars(s: Seq<char>) -> Seq<char>
    decreases s.len(),
{
    if s.len() == 0 {
        s
    } else if numeric_char(s.last()) || s.last() == '.' {
        number_chars(s.drop_last()).push(s.last())
    } else {
        number_chars(s.drop_last())
    }
}

pub open spec fn count_dots(t: Seq<char>) -> nat
    decreases t.len(),
{
    if t.len() == 0 {
        0
    } else {
        count_dots(t.drop_last()) + if t.last() == '.' {
            1nat
        } else {
            0nat
        }
    }
}

pub open spec fn count_digits(t: Seq<char>) -> nat
    decreases t.len(),
{
    if t.len() == 0 {
        0
    } else {
        count_digits(t.drop_last()) + if is_digit(t.last()) {
            1nat
        } else {
            0nat
        }
    }
}

/// How many characters follow the first `.` of `t`.
pub open spec fn after_dot(t: Seq<char>) -> nat
    decreases t.len(),
{
    if t.len() == 0 {
        0
    } else if count_dots(t.drop_last()) > 0 {
        after_dot(t.drop_last()) + 1
    } else {
        0
    }
}

/// The decimal that `t` writes: ASCII digits with at most one `.` and at
/// least one digit, in the decimal range.
pub open spec fn decimal_text(t: Seq<char>) -> Option<Dec> {
    if (forall|i: int| 0 <= i < t.len() ==> is_digit(#[trigger] t[i]) || t[i] == '.')
        && count_dots(t) <= 1 && count_digits(t) >= 1 && digits_value(t, 0, t.len() as int)
        <= MAX_MANTISSA && after_dot(t) <= MAX_SCALE {
        Some(Dec { mantissa: digits_value(t, 0, t.len() as int) as i128, scale: after_dot(t) as u32 })
    } else {
        None
    }
}

/// Reads the number in recognised text: the numeric characters and dots
/// are kept, and what they spell must be a decimal.
pub fn str_to_number(s: &str) -> (r: Option<Dec>)
    ensures
        r == decimal_text(number_chars(s@)),
        r matches Some(d) ==> d.wf(),
{
    let n = s.unicode_len();
    let mut t: Vec<char> = Vec::new();
    let mut i: usize = 0;
    while i < n
        invariant
            n == s@.len(),
            i <= n,
            t@ == number_chars(s@.subrange(0, i as int)),
        decreases n - i,
    {
        let c = s.get_char(i);
        assert(s@.subrange(0, i + 1).drop_last() =~= s@.subrange(0, i as int));
        if is_numeric(c) || c == '.' {
            t.push(c);
        }
        i = i + 1;
    }
    assert(s@.subrange(0, n as int) =~= s@);
    let ghost tv = t@;
    let mut m: i128 = 0;
    let mut dots: usize = 0;
    let mut digits: usize = 0;
    let mut after: usize = 0;
    let mut j: usize = 0;
    while j < t.len()
        invariant
            tv == t@,
            tv == number_chars(s@),
            j <= t@.len(),
            forall|k: int| 0 <= k < j ==> is_digit(#[trigger] tv[k]) || tv[k] == '.',
            dots == count_dots(tv.subrange(0, j as int)),
            dots <= 1,
            digits == count_digits(tv.subrange(0, j as int)),
            digits <= j,
            after == after_dot(tv.subrange(0, j as int)),
            after <= j,
            m == digits_value(tv, 0, j as int),
            0 <= m <= MAX_MANTISSA,
        decreases t@.len() - j,
    {
        let c = t[j];
        let ghost pre = tv.subrange(0, j as int);
        assert(tv.subrange(0, j + 1).drop_last() =~= pre);
        assert(tv.subrange(0, j + 1).last() == c);
        if !('0' <= c && c <= '9') && c != '.' {
            assert(!(is_digit(tv[j as int]) || tv[j as int] == '.'));
            return None;
        }
        if dots > 0 {
            after = after + 1;
        }
        if c == '.' {
            if dots == 1 {
                assert(count_dots(tv.subrange(0, j + 1)) == 2);
                proof {
                    lemma_dots_stay(tv, j + 1);
                }
                return None;
            }
            dots = dots + 1;
        } else {
            let d = (c as u32 - '0' as u32) as i128;
            if m > (MAX_MANTISSA - d) / 10 {
                assert(m * 10 + d > MAX_MANTISSA) by (nonlinear_arith)
                    requires
                        m > (MAX_MANTISSA - d) / 10,
                        0 <= d <= 9,
                        MAX_MANTISSA == 79228162514264337593543950335i128,
                ;
                assert(digits_value(tv, 0, j + 1) == m * 10 + d);
                proof {
                    lemma_digits_value_grows(tv, 0, j + 1, tv.len() as int);
                }
                return None;
            }
            m = m * 10 + d;
            digits = digits + 1;
        }
        j = j + 1;
    }
    assert(tv.subrange(0, tv.len() as int) =~= tv);
    if digits == 0 || after > MAX_SCALE as usize {
        return None;
    }
    Some(Dec { mantissa: m, scale: after as u32 })
}

proof fn lemma_dots_stay(t: Seq<char>, j: int)
    requires
        0 <= j <= t.len(),
    ensures
        count_dots(t.subrange(0, j)) <= count_dots(t),
    decreases t.len() - j,
{
    if j < t.len() {
        lemma_dots_stay(t, j + 1);
        assert(t.subrange(0, j + 1).drop_last() =~= t.subrange(0, j));
    } else {
        assert(t.subrange(0, j) =~= t);
    }
}

} // verus!
