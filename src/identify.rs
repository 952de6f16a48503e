use vstd::prelude::*;

use crate::color::{color_distance, distance_spec, Rgb};
use crate::decimal::{compare_values, Dec};
use crate::eval::{contains_name, lookup};
use crate::geometry::{decimal_text, number_chars, remove_special_char, str_to_number, without_special};
use crate::metadata::{artifact_spellings, set_spellings, ArtifactInfo, ArtifactWord};

verus! {

/// Why recognised text was refused.
#[derive(Clone, Debug)]
pub enum IdentifyError {
    UnknownName(String),
    UnknownSlot(String),
    UnknownMainStat(String),
    BadMainStatValue(String),
    BadLevel(String),
    LevelOutOfRange(Dec),
    UnknownStat(String),
    BadStatValue(String),
    UnknownSetName(String),
    /// The item shows the flag without the hold.
    MarkedNotLocked,
}

/// Maps the name recognition read to an item name. Off when `enabled` is
/// false; an unknown name is an error only when `strict`.
pub fn recognize_name(info: &ArtifactInfo, text: &str, enabled: bool, strict: bool) -> (r: Result<
    String,
    IdentifyError,
>)
    ensures
        !enabled ==> (r matches Ok(s) && s@.len() == 0),
        enabled ==> match lookup(artifact_spellings(info.sets@), text@) {
            Some(n) => r matches Ok(s) && s@ == n,
            None => if strict {
                r matches Err(IdentifyError::UnknownName(t)) && t@ == text@
            } else {
                r matches Ok(s) && s@.len() == 0
            },
        },
{
    if enabled {
        if let Some(name) = info.get_artifact_name_by_alias(text) {
            return Ok(name);
        }
        if strict {
            return Err(IdentifyError::UnknownName(text.to_owned()));
        }
    }
    Ok(String::new())
}

/// `text` if it is one of `names`; else empty, or an error when `strict`.
fn one_of(names: &Vec<String>, text: &str, strict: bool) -> (r: Option<String>)
    ensures
        names.deep_view().contains(text@) ==> (r matches Some(s) && s@ == text@),
        !names.deep_view().contains(text@) ==> if strict {
            r is None
        } else {
            r matches Some(s) && s@.len() == 0
        },
{
    let t = text.to_owned();
    if contains_name(names, &t) {
        return Some(t);
    }
    if strict {
        None
    } else {
        Some(String::new())
    }
}

/// The slot recognition read, if it is a known slot.
pub fn recognize_slot(info: &ArtifactInfo, text: &str, enabled: bool, strict: bool) -> (r: Result<
    String,
    IdentifyError,
>)
    ensures
        !enabled ==> (r matches Ok(s) && s@.len() == 0),
        enabled && info.slots.deep_view().contains(text@) ==> (r matches Ok(s) && s@ == text@),
        enabled && !info.slots.deep_view().contains(text@) ==> if strict {
            r matches Err(IdentifyError::UnknownSlot(t)) && t@ == text@
        } else {
            r matches Ok(s) && s@.len() == 0
        },
{
    if !enabled {
        return Ok(String::new());
    }
    match one_of(&info.slots, text, strict) {
        Some(s) => Ok(s),
        None => Err(IdentifyError::UnknownSlot(text.to_owned())),
    }
}

/// The main stat recognition read, if it is a known stat.
pub fn recognize_main_stat(info: &ArtifactInfo, text: &str, enabled: bool, strict: bool) -> (r: Result<
    String,
    IdentifyError,
>)
    ensures
        !enabled ==> (r matches Ok(s) && s@.len() == 0),
        enabled && info.stats.deep_view().contains(text@) ==> (r matches Ok(s) && s@ == text@),
        enabled && !info.stats.deep_view().contains(text@) ==> if strict {
            r matches Err(IdentifyError::UnknownMainStat(t)) && t@ == text@
        } else {
            r matches Ok(s) && s@.len() == 0
        },
{
    if !enabled {
        return Ok(String::new());
    }
    match one_of(&info.stats, text, strict) {
        Some(s) => Ok(s),
        None => Err(IdentifyError::UnknownMainStat(text.to_owned())),
    }
}

/// The main stat's value; zero when off, or when unreadable and not
/// `strict`.
pub fn recognize_main_stat_value(text: &str, enabled: bool, strict: bool) -> (r: Result<
    Dec,
    IdentifyError,
>)
    ensures
        !enabled ==> r == Ok::<Dec, IdentifyError>(Dec { mantissa: 0, scale: 0 }),
        enabled ==> match decimal_text(number_chars(text@)) {
            Some(v) => r == Ok::<Dec, IdentifyError>(v),
            None => if strict {
                r matches Err(IdentifyError::BadMainStatValue(t)) && t@ == text@
            } else {
                r == Ok::<Dec, IdentifyError>(Dec { mantissa: 0, scale: 0 })
            },
        },
{
    if enabled {
        match str_to_number(text) {
            Some(v) => {
                return Ok(v);
            },
            None => {
                if strict {
                    return Err(IdentifyError::BadMainStatValue(text.to_owned()));
                }
            },
        }
    }
    Ok(Dec { mantissa: 0, scale: 0 })
}

/// The level, which must lie in 0..=20; zero when off, or when unreadable
/// and not `strict`.
pub fn recognize_level(text: &str, enabled: bool, strict: bool) -> (r: Result<Dec, IdentifyError>)
    ensures
        !enabled ==> r == Ok::<Dec, IdentifyError>(Dec { mantissa: 0, scale: 0 }),
        enabled ==> match decimal_text(number_chars(text@)) {
            Some(v) => if compare_values(v, Dec { mantissa: 20, scale: 0 })
                == core::cmp::Ordering::Greater {
                r == Err::<Dec, IdentifyError>(IdentifyError::LevelOutOfRange(v))
            } else {
                r == Ok::<Dec, IdentifyError>(v)
            },
            None => if strict {
                r matches Err(IdentifyError::BadLevel(t)) && t@ == text@
            } else {
                r == Ok::<Dec, IdentifyError>(Dec { mantissa: 0, scale: 0 })
            },
        },
{
    if enabled {
        match str_to_number(text) {
            Some(v) => {
                let top = Dec { mantissa: 20, scale: 0 };
                if matches!(v.compare(&top), core::cmp::Ordering::Greater) {
                    return Err(IdentifyError::LevelOutOfRange(v));
                }
                return Ok(v);
            },
            None => {
                if strict {
                    return Err(IdentifyError::BadLevel(text.to_owned()));
                }
            },
        }
    }
    Ok(Dec { mantissa: 0, scale: 0 })
}

pub open spec fn star_yellow() -> Rgb {
    Rgb { r: 255, g: 204, b: 50 }
}

/// How many of `colors`, from the first, are star yellow.
pub open spec fn leading_stars(colors: Seq<Rgb>) -> nat
    decreases colors.len(),
{
    if colors.len() == 0 {
        0
    } else if distance_spec(colors[0], star_yellow()) > 255 {
        0
    } else {
        1 + leading_stars(colors.drop_first())
    }
}

/// The star rating: two, plus the lit stars among the samples taken from the
/// third star position on, counted until the first unlit one; zero when off.
pub fn count_stars(colors: &Vec<Rgb>, enabled: bool) -> (r: Dec)
    ensures
        r.scale == 0,
        !enabled ==> r.mantissa == 0,
        enabled ==> r.mantissa == 2 + leading_stars(colors@),
{
    if !enabled {
        return Dec { mantissa: 0, scale: 0 };
    }
    let yellow = Rgb { r: 255, g: 204, b: 50 };
    let mut star: i128 = 2;
    let mut i: usize = 0;
    assert(colors@.subrange(0, colors@.len() as int) =~= colors@);
    while i < colors.len()
        invariant
            i <= colors@.len(),
            enabled,
            yellow == star_yellow(),
            star == 2 + i,
            leading_stars(colors@) == i + leading_stars(colors@.subrange(i as int, colors@.len() as int)),
        decreases colors@.len() - i,
    {
        let ghost rest = colors@.subrange(i as int, colors@.len() as int);
        assert(rest.drop_first() =~= colors@.subrange(i + 1, colors@.len() as int));
        assert(rest[0] == colors@[i as int]);
        if color_distance(&colors[i], &yellow) > 255 {
            return Dec { mantissa: star, scale: 0 };
        }
        star = star + 1;
        i = i + 1;
    }
    Dec { mantissa: star, scale: 0 }
}

/// A hold or flag control is on when its pixel is far from white.
pub fn is_toggled(color: &Rgb) -> (r: bool)
    ensures
        r == (distance_spec(*color, (Rgb { r: 255, g: 255, b: 255 })) > 65025),
{
    let white = Rgb { r: 255, g: 255, b: 255 };
    color_distance(color, &white) > 65025
}

/// Refuses the state that no item can be in: flagged but not held.
pub fn check_lock_state(marked: bool, locked: bool) -> (r: Result<(), IdentifyError>)
    ensures
        r is Ok <==> !(marked && !locked),
{
    if marked && !locked {
        Err(IdentifyError::MarkedNotLocked)
    } else {
        Ok(())
    }
}

/// What a sub stat line holds.
#[derive(Clone, Debug)]
pub enum SubStatLine {
    /// No `+`: the sub stats have ended.
    End,
    /// Not a sub stat; passed over.
    Skip,
    Stat(String, Dec),
}

/// Position of the first `+` in `t`, if any.
pub open spec fn plus_index(t: Seq<char>) -> Option<int>
    decreases t.len(),
{
    if t.len() == 0 {
        None
    } else {
        match plus_index(t.drop_last()) {
            Some(i) => Some(i),
            None => if t.last() == '+' {
                Some(t.len() - 1)
            } else {
                None
            },
        }
    }
}

/// Result of `str::trim` on `s`.
pub uninterp spec fn trimmed(s: Seq<char>) -> Seq<char>;

/// Relies on `str::trim`: the text without leading and trailing white space.
#[verifier::external_body]
fn trim_text(s: &str) -> (r: String)
    ensures
        r@ == trimmed(s@),
{
    s.trim().to_string()
}

fn find_plus(text: &str) -> (r: Option<usize>)
    ensures
        match (r, plus_index(text@)) {
            (Some(i), Some(j)) => i == j && i < text@.len(),
            (None, None) => true,
            _ => false,
        },
{
    let n = text.unicode_len();
    let mut i: usize = 0;
    while i < n
        invariant
            n == text@.len(),
            i <= n,
            plus_index(text@.subrange(0, i as int)) is None,
        decreases n - i,
    {
        assert(text@.subrange(0, i + 1).drop_last() =~= text@.subrange(0, i as int));
        if text.get_char(i) == '+' {
            proof {
                lemma_plus_prefix(text@, i + 1);
            }
            return Some(i);
        }
        i = i + 1;
    }
    assert(text@.subrange(0, n as int) =~= text@);
    None
}

proof fn lemma_plus_prefix(t: Seq<char>, j: int)
    requires
        0 <= j <= t.len(),
        plus_index(t.subrange(0, j)) is Some,
    ensures
        plus_index(t) == plus_index(t.subrange(0, j)),
    decreases t.len() - j,
{
    if j < t.len() {
        assert(t.subrange(0, j + 1).drop_last() =~= t.subrange(0, j));
        lemma_plus_prefix(t, j + 1);
    } else {
        assert(t.subrange(0, j) =~= t);
    }
}

/// Reads a sub stat line `name+value`: the name, trimmed, must be a known
/// stat and the value a number; else the line is passed over, or refused
/// when `strict`.
pub fn parse_sub_stat(info: &ArtifactInfo, text: &str, strict: bool) -> (r: Result<
    SubStatLine,
    IdentifyError,
>)
    ensures
        match plus_index(text@) {
            None => r matches Ok(SubStatLine::End),
            Some(p) => {
                let name = trimmed(text@.subrange(0, p));
                let value = decimal_text(number_chars(text@.subrange(p + 1, text@.len() as int)));
                if !info.stats.deep_view().contains(name) {
                    if strict {
                        r matches Err(IdentifyError::UnknownStat(t)) && t@ == text@
                    } else {
                        r matches Ok(SubStatLine::Skip)
                    }
                } else {
                    match value {
                        Some(v) => r matches Ok(SubStatLine::Stat(n, w)) && n@ == name && w == v,
                        None => if strict {
                            r matches Err(IdentifyError::BadStatValue(t)) && t@ == text@
                        } else {
                            r matches Ok(SubStatLine::Skip)
                        },
                    }
                }
            },
        },
{
    let p = match find_plus(text) {
        Some(p) => p,
        None => {
            return Ok(SubStatLine::End);
        },
    };
    let n = text.unicode_len();
    let name = trim_text(text.substring_char(0, p));
    if !contains_name(&info.stats, &name) {
        if strict {
            return Err(IdentifyError::UnknownStat(text.to_owned()));
        }
        return Ok(SubStatLine::Skip);
    }
    match str_to_number(text.substring_char(p + 1, n)) {
        Some(v) => Ok(SubStatLine::Stat(name, v)),
        None => {
            if strict {
                Err(IdentifyError::BadStatValue(text.to_owned()))
            } else {
                Ok(SubStatLine::Skip)
            }
        },
    }
}

/// Maps the set name recognition read, special characters removed, to a
/// set name.
pub fn recognize_set_name(info: &ArtifactInfo, text: &str, enabled: bool, strict: bool) -> (r: Result<
    String,
    IdentifyError,
>)
    ensures
        !enabled ==> (r matches Ok(s) && s@.len() == 0),
        enabled ==> match lookup(set_spellings(info.sets@), without_special(text@)) {
            Some(n) => r matches Ok(s) && s@ == n,
            None => if strict {
                r matches Err(IdentifyError::UnknownSetName(t)) && t@ == without_special(text@)
            } else {
                r matches Ok(s) && s@.len() == 0
            },
        },
{
    if enabled {
        let cleaned = remove_special_char(text);
        if let Some(name) = info.get_artifact_set_name_by_alias(cleaned.as_str()) {
            return Ok(name);
        }
        if strict {
            return Err(IdentifyError::UnknownSetName(cleaned));
        }
    }
    Ok(String::new())
}

/// The vertical offset `rows` rows of height `height` below `offset`, when
/// it fits in `i32`.
pub fn rows_below(offset: i32, height: u32, rows: u32) -> (r: Option<i32>)
    ensures
        match r {
            Some(v) => v == offset + height * rows,
            None => !(i32::MIN <= offset + height * rows <= i32::MAX),
        },
{
    assert(0 <= height * rows <= 0xffff_ffff * 0xffff_ffff) by (nonlinear_arith)
        requires
            height <= 0xffff_ffff,
            rows <= 0xffff_ffff,
    ;
    let v = offset as i128 + (height as i128) * (rows as i128);
    if v < i32::MIN as i128 || v > i32::MAX as i128 {
        None
    } else {
        Some(v as i32)
    }
}

/// `w` occurs in `t`.
pub open spec fn occurs_in(w: Seq<char>, t: Seq<char>) -> bool {
    exists|i: int| 0 <= i && i + w.len() <= t.len() && #[trigger] t.subrange(i, i + w.len()) == w
}

fn same_text(a: &str, b: &str) -> (r: bool)
    ensures
        r == (a@ == b@),
{
    let n = a.unicode_len();
    if n != b.unicode_len() {
        return false;
    }
    let mut i: usize = 0;
    while i < n
        invariant
            n == a@.len() == b@.len(),
            i <= n,
            a@.subrange(0, i as int) == b@.subrange(0, i as int),
        decreases n - i,
    {
        if a.get_char(i) != b.get_char(i) {
            assert(a@[i as int] != b@[i as int]);
            return false;
        }
        assert(a@.subrange(0, i + 1) =~= a@.subrange(0, i as int).push(a@[i as int]));
        assert(b@.subrange(0, i + 1) =~= b@.subrange(0, i as int).push(b@[i as int]));
        i = i + 1;
    }
    assert(a@ =~= a@.subrange(0, n as int));
    assert(b@ =~= b@.subrange(0, n as int));
    true
}

/// Whether the item is worn: the equipped word occurs in the text; false
/// when off.
pub fn recognize_equipped(words: &ArtifactWord, text: &str, enabled: bool) -> (r: bool)
    ensures
        r == (enabled && occurs_in(words.equipped@, text@)),
{
    if !enabled {
        return false;
    }
    let w = words.equipped.as_str();
    let m = w.unicode_len();
    let n = text.unicode_len();
    if m > n {
        return false;
    }
    if m == 0 {
        assert(text@.subrange(0int, 0int + words.equipped@.len()) =~= words.equipped@);
        return true;
    }
    let mut i: usize = 0;
    while i < n && m <= n - i
        invariant
            enabled,
            m >= 1,
            m == w@.len(),
            n == text@.len(),
            m <= n,
            i <= n - m + 1,
            w@ == words.equipped@,
            forall|j: int| 0 <= j < i ==> #[trigger] text@.subrange(j, j + m) != w@,
        decreases n - m + 1 - i,
    {
        if same_text(text.substring_char(i, i + m), w) {
            assert(text@.subrange(i as int, i + words.equipped@.len()) == words.equipped@);
            return true;
        }
        i = i + 1;
    }
    assert forall|j: int| 0 <= j && j + words.equipped@.len() <= text@.len() implies #[trigger] text@.subrange(
        j,
        j + words.equipped@.len(),
    ) != words.equipped@ by {
        assert(j < i);
    }
    false
}

} // verus!
