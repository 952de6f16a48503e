use giaa::actuator::{Actuation, Actuator};
use giaa::artifact::{Artifact, ArtifactIdentify, ArtifactSubStat};
use giaa::color::{average_color_diff, color_distance, has_card, Frame, Rgb};
use giaa::coordinate::{Coordinate, CoordinateData};
use giaa::converter::Converter;
use giaa::decimal::Dec;
use giaa::eval::{CompileError, Parser};
use giaa::expr::ExprVarKey;
use giaa::geometry::{
    point_offset, point_to_square_region, region_offset, remove_special_char, str_to_number,
    Point, Region, Size,
};
use giaa::metadata::{Artifact as Item, ArtifactInfo, ArtifactSet, ArtifactWord};
use giaa::navigation::{
    get_artifact_list_total_rows, get_scrollbar, plan_continuation, Scrollbar,
    cell_point, item_count, plan_traversal, tally, Job, MovePlan, MoveStep, RowAdjust, RowMove,
    ScrollCursor,
};
use giaa::rule::{decide, ActuatorResult, Clicks, Rule, RuleAction, RuleExpr};
use giaa::session::{ScanAction, ScanEvent, ScanFailure, ScanSession};

fn s(v: &str) -> String {
    String::from(v)
}

fn words() -> ArtifactWord {
    ArtifactWord {
        artifact: s("圣遗物"),
        star: s("星级"),
        level: s("等级"),
        equipped: s("已装备"),
        locked: s("已锁定"),
        marked: s("已标记"),
        sanctifying_elixir: s("祝圣之霜定义"),
        main_stat: s("主词条"),
        sub_stats_count: s("count"),
        unactivated: s("待激活"),
        no_match_artifacts: s("暂无满足条件的圣遗物"),
    }
}

fn info() -> ArtifactInfo {
    ArtifactInfo {
        slots: vec![s("生之花"), s("死之羽")],
        stats: vec![s("攻击力"), s("暴击率")],
        sets: vec![
            ArtifactSet {
                name: s("角斗士的终幕礼"),
                alias: Some(vec![s("角斗士")]),
                artifacts: vec![Item { name: s("角斗士的留恋"), alias: Some(vec![s("留恋")]) }],
            },
            ArtifactSet {
                name: s("绝缘之旗印"),
                alias: None,
                artifacts: vec![
                    Item { name: s("明威之镡"), alias: None },
                    Item { name: s("切落之羽"), alias: Some(vec![s("留恋")]) },
                ],
            },
        ],
        words: words(),
    }
}

fn origin() -> Point {
    Point { x: 0, y: 0 }
}

fn region() -> Region {
    Region { start: origin(), end: origin() }
}

fn coordinate_data() -> CoordinateData {
    CoordinateData {
        backpack_name: region(),
        artifact_count: region(),
        artifact_page_rows: 5,
        artifact_page_cols: 8,
        artifact_list_card_start: Point { x: 100, y: 200 },
        artifact_list_card_horizontal_interval: 120,
        artifact_list_card_vertical_interval: 150,
        artifact_list_card_check_start: origin(),
        artifact_list_card_check_width: 10,
        artifact_detail_center: origin(),
        artifact_detail_scroll_to_top_length: 0,
        artifact_list_center: origin(),
        artifact_list_scroll_to_top_length: 0,
        artifact_list_empty_tip: region(),
        artifact_list_scrollbar_start: origin(),
        artifact_list_scrollbar_height: 0,
        artifact_list_height: 0,
        artifact_name: region(),
        artifact_slot: region(),
        artifact_main_stat_name: region(),
        artifact_main_stat_value: region(),
        artifact_mark_top_right: region(),
        artifact_stars_start: origin(),
        artifact_stars_horizontal_interval: 0,
        artifact_sanctifying_elixir: region(),
        artifact_sanctifying_elixir_height: 40,
        artifact_level: region(),
        artifact_lock: Point { x: 1500, y: 300 },
        artifact_mark: Point { x: 1550, y: 300 },
        artifact_sub_stat_start: region(),
        artifact_sub_stat_height: 0,
        artifact_set_name_x: 0,
        artifact_set_name_width: 0,
        artifact_set_name_height: 0,
        artifact_equipped: region(),
        artifact_page_turn: origin(),
        artifact_filter_button: origin(),
        artifact_filter_reset_button: origin(),
        artifact_filter_confirm_button: origin(),
    }
}

fn item(locked: bool, marked: bool) -> Artifact {
    Artifact {
        name: s("角斗士的留恋"),
        slot: s("生之花"),
        main_stat: s("攻击力"),
        main_stat_value: Dec::from_int(311),
        stars: Dec::from_int(5),
        sanctifying_elixir: false,
        level: Dec::from_int(20),
        marked,
        locked,
        sub_stats: vec![],
        set_name: s("角斗士的终幕礼"),
        equipped: false,
    }
}

fn compile(info: &ArtifactInfo, rules: Vec<Rule>) -> (Parser, Vec<RuleExpr>) {
    let parser =
        Parser::new(3, ExprVarKey::new(info.get_boolean_keys(), info.get_number_keys())).unwrap();
    let exprs = RuleExpr::from_rules(&rules, &parser).unwrap();
    (parser, exprs)
}

fn rule(expr: &str, action: RuleAction) -> Rule {
    Rule { description: s("rule"), expression: s(expr), action }
}

#[test]
fn end_to_end_hold_rule() {
    let info = info();
    let (parser, exprs) = compile(&info, vec![rule("count=0", RuleAction::Lock)]);
    let data = coordinate_data();
    let actuator = Actuator::new(&parser, &info, &exprs, &data);
    let mut results = vec![];
    let mut items = vec![item(false, false), item(true, false), item(true, true)];
    for it in items.iter_mut() {
        results.push(actuator.exec(it).unwrap());
    }
    assert_eq!(
        results,
        vec![
            Actuation { result: ActuatorResult::OnlyLock, clicks: Clicks { lock: true, mark: false } },
            Actuation { result: ActuatorResult::OnlyLock, clicks: Clicks { lock: false, mark: false } },
            Actuation {
                result: ActuatorResult::LockAndMark,
                clicks: Clicks { lock: false, mark: false }
            },
        ]
    );
    assert!(items.iter().all(|a| a.locked));
    assert_eq!(items.iter().map(|a| a.marked).collect::<Vec<_>>(), vec![false, false, true]);
}

#[test]
fn later_rules_see_earlier_effects() {
    let info = info();
    let (parser, exprs) = compile(
        &info,
        vec![
            rule("角斗士的留恋", RuleAction::ClickMark),
            rule("已锁定 && 主词条:攻击力 > 300", RuleAction::UnLockAndMark),
        ],
    );
    let data = coordinate_data();
    let actuator = Actuator::new(&parser, &info, &exprs, &data);
    let mut it = item(true, false);
    let out = actuator.exec(&mut it).unwrap();
    assert_eq!(out.result, ActuatorResult::UnlockAndUnmark);
    assert_eq!(out.clicks, Clicks { lock: true, mark: false });
    assert!(!it.locked && !it.marked);
}

#[test]
fn rule_error_names_rule() {
    let info = info();
    let parser =
        Parser::new(3, ExprVarKey::new(info.get_boolean_keys(), info.get_number_keys())).unwrap();
    let rules = vec![rule("星级 >= 5", RuleAction::Lock), rule("unknown > 1", RuleAction::Lock)];
    let err = RuleExpr::from_rules(&rules, &parser).unwrap_err();
    assert_eq!(err.expression, "unknown > 1");
    assert_eq!(err.description, "rule");
}

#[test]
fn actuation_minimality_matrix() {
    let c = |lock, mark| Clicks { lock, mark };
    assert_eq!(decide((false, false), (true, false)).unwrap().1, c(true, false));
    assert_eq!(decide((true, false), (true, true)).unwrap().1, c(false, true));
    assert_eq!(decide((true, true), (true, false)).unwrap().1, c(false, true));
    assert_eq!(decide((true, false), (false, false)).unwrap().1, c(true, false));
    assert_eq!(decide((false, false), (true, true)).unwrap().1, c(false, true));
    assert_eq!(decide((true, true), (false, false)).unwrap().1, c(true, false));
    for s in [(false, false), (true, false), (true, true)] {
        assert_eq!(decide(s, s).unwrap().1, c(false, false));
    }
    assert!(decide((true, false), (false, true)).is_err());
}

#[test]
fn elixir_moves_controls_down() {
    let info = info();
    let (parser, exprs) = compile(&info, vec![]);
    let data = coordinate_data();
    let actuator = Actuator::new(&parser, &info, &exprs, &data);
    let mut it = item(false, false);
    assert_eq!(actuator.sanctifying_elixir_offset(&data.artifact_lock, &it), Point { x: 1500, y: 300 });
    it.sanctifying_elixir = true;
    assert_eq!(actuator.sanctifying_elixir_offset(&data.artifact_lock, &it), Point { x: 1500, y: 340 });
}

#[test]
fn bindings_of_an_item() {
    let info = info();
    let mut it = item(true, false);
    it.sub_stats = vec![
        ArtifactSubStat { name: s("暴击率"), value: Dec::new(39, 1).unwrap(), unactivated: false },
        ArtifactSubStat { name: s("攻击力"), value: Dec::from_int(19), unactivated: true },
    ];
    let nums = it.get_number_maps(&info.words);
    assert_eq!(nums.len(), 6);
    assert_eq!(nums[2].0, "主词条:攻击力");
    assert_eq!(nums[5].0, "count");
    assert_eq!(nums[5].1, Dec::from_int(1));
    let bools = it.get_boolean_maps(&info.words);
    assert_eq!(bools[6], (s("已锁定"), true));
}

#[test]
fn vocabulary_lists() {
    let info = info();
    assert_eq!(info.get_artifact_names(), vec![s("角斗士的留恋"), s("明威之镡"), s("切落之羽")]);
    assert_eq!(info.get_artifact_set_names(), vec![s("角斗士的终幕礼"), s("绝缘之旗印")]);
    assert_eq!(
        info.get_number_keys(),
        vec![s("星级"), s("等级"), s("count"), s("攻击力"), s("主词条:攻击力"), s("暴击率"), s("主词条:暴击率")]
    );
    let b = info.get_boolean_keys();
    assert_eq!(b.len(), 4 + 2 + 2 + 2 + 3);
    assert_eq!(b[0], "已装备");
    assert_eq!(info.get_artifact_name_by_alias("留恋"), Some(s("切落之羽")));
    assert_eq!(info.get_artifact_name_by_alias("明威之镡"), Some(s("明威之镡")));
    assert_eq!(info.get_artifact_name_by_alias("无"), None);
    assert_eq!(info.get_artifact_set_name_by_alias("角斗士"), Some(s("角斗士的终幕礼")));
}

#[test]
fn identify_filter_forces_sub_stats() {
    let info = info();
    let (_, exprs) = compile(&info, vec![rule("绝缘之旗印 && 等级 > 0", RuleAction::Lock)]);
    let f = ArtifactIdentify::filter(&exprs, &info);
    assert!(f.set_name && f.sub_stats && f.level);
    assert!(!f.name && !f.slot && !f.main_stat && !f.stars && !f.equipped && !f.sub_stats_count);
    let (_, exprs) = compile(&info, vec![rule("主词条:暴击率 > 0 || 生之花", RuleAction::Lock)]);
    let f = ArtifactIdentify::filter(&exprs, &info);
    assert!(f.main_stat && f.main_stat_value && f.slot && !f.sub_stats);
    let d = ArtifactIdentify::default();
    assert!(!d.name && !d.sub_stats);
}

#[test]
fn test_translate_point() {
    let resolution = Size { width: 1920, height: 1080 };
    let window_rect = (Point { x: 100, y: 50 }, Size { width: 1280, height: 720 });
    let converter = Converter::new(&resolution, window_rect).unwrap();
    let point = Point { x: 960, y: 540 };
    let translated_point = converter.translate_point(&point, true).unwrap();
    assert_eq!(translated_point, Point { x: 100 + 640, y: 50 + 360 });
}

#[test]
fn test_translate_region() {
    let resolution = Size { width: 1920, height: 1080 };
    let window_rect = (Point { x: 100, y: 50 }, Size { width: 1280, height: 720 });
    let converter = Converter::new(&resolution, window_rect).unwrap();
    let region = Region { start: Point { x: 0, y: 0 }, end: Point { x: 1920, y: 1080 } };
    let translated_region = converter.translate_region(&region).unwrap();
    assert_eq!(
        translated_region,
        Region { start: Point { x: 0, y: 0 }, end: Point { x: 1280, y: 720 } }
    );
}

#[test]
fn translate_truncates_toward_zero_and_rejects_bad_resolution() {
    let conv = Converter::new(&Size { width: 3, height: 3 }, (origin(), Size { width: 2, height: 2 })).unwrap();
    assert_eq!(conv.translate_point(&Point { x: -2, y: 2 }, false).unwrap(), Point { x: -1, y: 1 });
    assert!(Converter::new(&Size { width: 0, height: 3 }, (origin(), Size { width: 2, height: 2 })).is_err());
}

#[test]
fn offsets_and_squares() {
    let p = Point { x: 10, y: 20 };
    assert_eq!(point_offset(&p, Some(5), None), Point { x: 15, y: 20 });
    assert_eq!(
        region_offset(&Region { start: p, end: p }, None, Some(-3)),
        Region { start: Point { x: 10, y: 17 }, end: Point { x: 10, y: 17 } }
    );
    assert_eq!(
        point_to_square_region(&p, 4),
        Region { start: Point { x: 6, y: 16 }, end: Point { x: 14, y: 24 } }
    );
}

#[test]
fn numbers_from_recognised_text() {
    assert_eq!(str_to_number("+46.6%"), Dec::new(466, 1));
    assert_eq!(str_to_number("Lv. 20"), Dec::new(20, 2));
    assert_eq!(str_to_number("+20"), Some(Dec::from_int(20)));
    assert_eq!(str_to_number("abc"), None);
    assert_eq!(str_to_number("1.2.3"), None);
    assert_eq!(str_to_number("1①"), None);
}

#[test]
fn special_characters_removed() {
    assert_eq!(remove_special_char("《角斗士》:的“终幕礼”?"), "角斗士的终幕礼");
    assert_eq!(remove_special_char("plain"), "plain");
}

#[test]
fn coordinate_by_aspect_ratio() {
    let c = |w, h| Coordinate { resolution: Size { width: w, height: h }, description: None, data: coordinate_data() };
    let picked = Coordinate::load(vec![c(1920, 1200), c(1920, 1080)], Size { width: 1280, height: 720 }).unwrap();
    assert_eq!(picked.resolution, Size { width: 1920, height: 1080 });
    assert!(Coordinate::load(vec![c(1920, 1080)], Size { width: 1000, height: 1000 }).is_err());
}

#[test]
fn row_move_needs_change_then_settle() {
    let mut m = RowMove::new(30, 10);
    assert_eq!(m.observe(0), MoveStep::Continue);
    assert_eq!(m.observe(500), MoveStep::Continue);
    assert_eq!(m.observe(200), MoveStep::Continue);
    assert_eq!(m.observe(3), MoveStep::Done);
    assert_eq!(m.attempts, 4);
}

#[test]
fn row_move_fails_after_budget() {
    let mut m = RowMove::new(3, 10);
    assert_eq!(m.observe(0), MoveStep::Continue);
    assert_eq!(m.observe(0), MoveStep::Continue);
    assert_eq!(m.observe(0), MoveStep::Failed);
}

#[test]
fn row_adjust_steps() {
    let mut a = RowAdjust::new(2, 10);
    assert_eq!(a.observe(50), MoveStep::Continue);
    assert_eq!(a.observe(5), MoveStep::Done);
    let mut c = RowAdjust::new(10, 10);
    for _ in 0..10 {
        assert!(!c.exhausted());
        assert_eq!(c.observe(11), MoveStep::Continue);
    }
    assert!(c.exhausted());
    assert_eq!(c.attempts, 10);
    assert!(RowAdjust::new(0, 10).exhausted());
}

#[test]
fn bulk_moves_after_first_page() {
    let mut c = ScrollCursor::new();
    assert_eq!(c.plan_move(5, 3), MovePlan::RowByRow(3));
    for _ in 0..20 {
        c.record_row_scroll();
    }
    c.record_rows(5);
    assert_eq!(c.calculate_page_scroll_count(5, 3), 12);
    assert_eq!(c.plan_move(5, 3), MovePlan::Bulk(12));
}

#[test]
fn traversal_plan_covers_each_item_once() {
    assert_eq!(plan_traversal(0, 5, 8), vec![]);
    assert_eq!(
        plan_traversal(20, 5, 8),
        vec![Job::ScanForward { start_row: 0, rows: 3, last_row_cols: 4 }]
    );
    assert_eq!(
        plan_traversal(61, 5, 8),
        vec![
            Job::ScanForward { start_row: 0, rows: 5, last_row_cols: 8 },
            Job::MoveRows(3),
            Job::ScanForward { start_row: 2, rows: 3, last_row_cols: 5 },
        ]
    );
    assert_eq!(plan_traversal(96, 5, 8).len(), 5);
}

#[test]
fn grid_cells() {
    assert_eq!(cell_point(Point { x: 100, y: 200 }, 2, 1, 120, 150), Some(Point { x: 340, y: 350 }));
    assert_eq!(cell_point(Point { x: i32::MAX, y: 0 }, 1, 0, 1, 1), None);
}

#[test]
fn run_summary_counts() {
    let r = tally(&vec![ActuatorResult::OnlyLock, ActuatorResult::LockAndMark, ActuatorResult::OnlyLock]);
    assert_eq!((r.lock_and_mark, r.only_lock, r.unlock_and_unmark), (1, 2, 0));
}

#[test]
fn counter_text() {
    assert_eq!(item_count("圣遗物 1234/2000"), Some(1234));
    assert_eq!(item_count("/2000"), None);
    assert_eq!(item_count("99999999999/1"), None);
    assert_eq!(item_count("7"), Some(7));
}

fn frame(w: u32, h: u32, px: Vec<Rgb>) -> Frame {
    Frame { width: w, height: h, pixels: px }
}

fn rgb(r: u8, g: u8, b: u8) -> Rgb {
    Rgb { r, g, b }
}

#[test]
fn test_average_color_diff_happy_path() {
    let img = frame(2, 2, vec![rgb(255, 0, 0), rgb(0, 255, 0), rgb(0, 0, 255), rgb(255, 255, 0)]);
    let expected_diff = color_distance(&rgb(255, 0, 0), &rgb(0, 255, 0)) as f32
        + color_distance(&rgb(255, 0, 0), &rgb(0, 0, 255)) as f32
        + color_distance(&rgb(0, 255, 0), &rgb(255, 255, 0)) as f32
        + color_distance(&rgb(0, 0, 255), &rgb(255, 255, 0)) as f32;
    let avg_diff = average_color_diff(&img);
    assert_eq!(avg_diff as i32, (expected_diff / 4.0) as i32);
}

#[test]
fn test_average_color_diff_single_pixel() {
    let img = frame(1, 1, vec![rgb(255, 0, 0)]);
    assert_eq!(average_color_diff(&img), 0);
}

#[test]
fn test_average_color_diff_uniform_image() {
    let img = frame(10, 10, vec![rgb(128, 128, 128); 100]);
    assert_eq!(average_color_diff(&img), 0);
}

#[test]
fn test_average_color_diff_edge_case() {
    let img = frame(2, 1, vec![rgb(255, 0, 0), rgb(0, 255, 0)]);
    let expected_diff = color_distance(&rgb(255, 0, 0), &rgb(0, 255, 0)) as f32;
    assert_eq!(average_color_diff(&img) as i32, (expected_diff / 1.0) as i32);
}

#[test]
fn test_average_color_diff_vertical_edge_case() {
    let img = frame(1, 2, vec![rgb(255, 0, 0), rgb(0, 255, 0)]);
    let expected_diff = color_distance(&rgb(255, 0, 0), &rgb(0, 255, 0)) as f32;
    assert_eq!(average_color_diff(&img) as i32, (expected_diff / 1.0) as i32);
}

#[test]
fn card_threshold() {
    assert!(has_card(1001, 1000));
    assert!(!has_card(1000, 1000));
}

#[test]
fn scrollbar_fallback_estimate() {
    let bg = rgb(40, 40, 40);
    let thumb = rgb(210, 210, 210);
    let bar = get_scrollbar(&vec![bg, thumb, thumb, thumb, bg], thumb, 10000);
    assert_eq!(bar, Scrollbar { height: 5, button_height: 2, scroll_length: 1 });
    assert_eq!(get_artifact_list_total_rows(&bar, 5, 5, 600, 150), Some(20));
    assert_eq!(get_artifact_list_total_rows(&bar, 0, 5, 600, 150), Some(10));
    let none = get_scrollbar(&vec![bg, bg], thumb, 10000);
    assert_eq!(get_artifact_list_total_rows(&none, 0, 5, 600, 150), None);
}

#[test]
fn session_follows_plan_and_stops_on_cancel() {
    let jobs = plan_traversal(10, 1, 4);
    let mut s = ScanSession::new(&jobs, 4, false);
    assert_eq!(s.start(), ScanAction::Visit { col: 0, row: 0 });
    assert_eq!(s.next(ScanEvent::Item(ActuatorResult::OnlyLock)), ScanAction::Visit { col: 1, row: 0 });
    assert_eq!(s.next(ScanEvent::Skipped), ScanAction::Visit { col: 2, row: 0 });
    assert_eq!(s.next(ScanEvent::Item(ActuatorResult::LockAndMark)), ScanAction::Visit { col: 3, row: 0 });
    assert_eq!(s.next(ScanEvent::Skipped), ScanAction::Move(1));
    match s.next(ScanEvent::Cancelled) {
        ScanAction::Finish(r) => assert_eq!((r.lock_and_mark, r.only_lock, r.unlock_and_unmark), (1, 1, 0)),
        other => panic!("unexpected {:?}", other),
    }
    let mut t = ScanSession::new(&plan_traversal(2, 5, 8), 8, false);
    assert_eq!(t.start(), ScanAction::Visit { col: 0, row: 0 });
    assert_eq!(t.next(ScanEvent::NoCard), ScanAction::Abort(ScanFailure::NoCard));
    let mut u = ScanSession::new(&plan_traversal(1, 5, 8), 8, false);
    assert_eq!(u.start(), ScanAction::Visit { col: 0, row: 0 });
    match u.next(ScanEvent::Item(ActuatorResult::UnlockAndUnmark)) {
        ScanAction::Finish(r) => assert_eq!(r.unlock_and_unmark, 1),
        other => panic!("unexpected {:?}", other),
    }
}

#[test]
fn bindings_are_only_for_the_rule_names() {
    let info = info();
    let (parser, exprs) = compile(&info, vec![rule("已锁定 && 星级 >= 5", RuleAction::Lock)]);
    let data = coordinate_data();
    let actuator = Actuator::new(&parser, &info, &exprs, &data);
    let vars = actuator.generate_vars(&item(true, false), &exprs[0].expr_var_key);
    assert_eq!(vars.boolean_vars, vec![(s("已锁定"), true)]);
    assert_eq!(vars.number_vars, vec![(s("星级"), Dec::from_int(5))]);
}

#[test]
fn rule_error_carries_the_cause() {
    let info = info();
    let parser =
        Parser::new(3, ExprVarKey::new(info.get_boolean_keys(), info.get_number_keys())).unwrap();
    let rules = vec![
        rule("星级 >= 5", RuleAction::Lock),
        rule("unknown > 1", RuleAction::Lock),
        rule("(", RuleAction::Lock),
    ];
    let err = RuleExpr::from_rules(&rules, &parser).unwrap_err();
    match err.cause {
        CompileError::UnknownNumberVariable(n) => assert_eq!(n, "unknown"),
        other => panic!("unexpected {:?}", other),
    }
    let err = RuleExpr::from_rule(rule("(", RuleAction::Lock), &parser).unwrap_err();
    assert!(matches!(err.cause, CompileError::Syntax(_)));
}

#[test]
fn estimated_session_ends_at_list_end_and_continues() {
    let mut s = ScanSession::new(&plan_traversal(4, 1, 2), 2, true);
    assert_eq!(s.start(), ScanAction::Visit { col: 0, row: 0 });
    assert_eq!(s.next(ScanEvent::Skipped), ScanAction::Visit { col: 1, row: 0 });
    assert_eq!(s.next(ScanEvent::Skipped), ScanAction::Move(1));
    assert_eq!(s.next(ScanEvent::Moved), ScanAction::Visit { col: 0, row: 0 });
    match s.next(ScanEvent::NoCard) {
        ScanAction::Finish(_) => {}
        other => panic!("unexpected {:?}", other),
    }
    let mut t = ScanSession::new(&plan_traversal(2, 1, 2), 2, true);
    assert_eq!(t.start(), ScanAction::Visit { col: 0, row: 0 });
    assert_eq!(t.next(ScanEvent::Item(ActuatorResult::OnlyLock)), ScanAction::Visit { col: 1, row: 0 });
    assert!(matches!(t.next(ScanEvent::Skipped), ScanAction::Finish(_)));
    let cont = plan_continuation(1, 1, 2);
    assert_eq!(cont, vec![Job::MoveRows(1), Job::ScanForward { start_row: 0, rows: 1, last_row_cols: 2 }]);
    assert_eq!(t.continue_with(&cont, 2), ScanAction::Move(1));
    assert_eq!(t.next(ScanEvent::Moved), ScanAction::Visit { col: 0, row: 0 });
}
