use vstd::prelude::*;

use crate::geometry::{lemma_i32_product, Point, Region, Size};

verus! {

/// Where the parts of the inventory screen are, at one reference
/// resolution.
#[derive(Clone, Debug)]
pub struct CoordinateData {
    pub backpack_name: Region,
    pub artifact_count: Region,
    pub artifact_page_rows: u32,
    pub artifact_page_cols: u32,
    pub artifact_list_card_start: Point,
    pub artifact_list_card_horizontal_interval: u32,
    pub artifact_list_card_vertical_interval: u32,
    pub artifact_list_card_check_start: Point,
    pub artifact_list_card_check_width: u32,
    pub artifact_detail_center: Point,
    pub artifact_detail_scroll_to_top_length: i32,
    pub artifact_list_center: Point,
    pub artifact_list_scroll_to_top_length: i32,
    pub artifact_list_empty_tip: Region,
    pub artifact_list_scrollbar_start: Point,
    pub artifact_list_scrollbar_height: u32,
    pub artifact_list_height: u32,
    pub artifact_name: Region,
    pub artifact_slot: Region,
    pub artifact_main_stat_name: Region,
    pub artifact_main_stat_value: Region,
    pub artifact_mark_top_right: Region,
    pub artifact_stars_start: Point,
    pub artifact_stars_horizontal_interval: u32,
    pub artifact_sanctifying_elixir: Region,
    pub artifact_sanctifying_elixir_height: u32,
    pub artifact_level: Region,
    pub artifact_lock: Point,
    pub artifact_mark: Point,
    pub artifact_sub_stat_start: Region,
    pub artifact_sub_stat_height: u32,
    pub artifact_set_name_x: i32,
    pub artifact_set_name_width: u32,
    pub artifact_set_name_height: u32,
    pub artifact_equipped: Region,
    pub artifact_page_turn: Point,
    pub artifact_filter_button: Point,
    pub artifact_filter_reset_button: Point,
    pub artifact_filter_confirm_button: Point,
}

/// Coordinate data with the resolution it was measured at.
#[derive(Clone, Debug)]
pub struct Coordinate {
    pub resolution: Size,
    pub description: Option<String>,
    pub data: CoordinateData,
}

/// No coordinate data has the aspect ratio of the window.
#[derive(Clone, Copy, Debug, PartialEq, Eq, Structural)]
pub struct NoCoordinate {
    pub resolution: Size,
}

/// `a` and `b` have the same aspect ratio.
pub open spec fn same_ratio(a: Size, b: Size) -> bool {
    a.width * b.height == a.height * b.width
}

fn ratio_matches(a: Size, b: Size) -> (r: bool)
    ensures
        r == same_ratio(a, b),
{
    proof {
        lemma_i32_product(a.width as int, b.height as int);
        lemma_i32_product(a.height as int, b.width as int);
    }
    (a.width as i64) * (b.height as i64) == (a.height as i64) * (b.width as i64)
}

impl Coordinate {
    /// Picks, among `all`, the first coordinate data whose resolution has
    /// the aspect ratio of `resolution`.
    pub fn load(all: Vec<Coordinate>, resolution: Size) -> (r: Result<Coordinate, NoCoordinate>)
        ensures
            r is Ok <==> exists|i: int|
                0 <= i < all@.len() && same_ratio(resolution, #[trigger] all@[i].resolution),
            r matches Ok(c) ==> exists|i: int|
                0 <= i < all@.len() && all@[i] == c && same_ratio(resolution, c.resolution) && (
                forall|j: int| 0 <= j < i ==> !same_ratio(resolution, #[trigger] all@[j].resolution)),
            r matches Err(e) ==> e.resolution == resolution,
    {
        let mut items = all;
        let ghost orig = items@;
        let mut i: usize = 0;
        while i < items.len()
            invariant
                items@ == orig,
                orig == all@,
                i <= items@.len(),
                forall|j: int| 0 <= j < i ==> !same_ratio(resolution, #[trigger] orig[j].resolution),
            decreases items@.len() - i,
        {
            if ratio_matches(resolution, items[i].resolution) {
                let c = items.remove(i);
                assert(c == all@[i as int]);
                assert(same_ratio(resolution, all@[i as int].resolution));
                return Ok(c);
            }
            i = i + 1;
        }
        Err(NoCoordinate { resolution })
    }
}

} // verus!
