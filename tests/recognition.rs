use giaa::color::Rgb;
use giaa::decimal::Dec;
use giaa::identify::{
    check_lock_state, count_stars, is_toggled, parse_sub_stat, recognize_equipped,
    recognize_level, recognize_main_stat, recognize_main_stat_value, recognize_name,
    recognize_set_name, recognize_slot, rows_below, IdentifyError, SubStatLine,
};
use giaa::metadata::{Artifact as Item, ArtifactInfo, ArtifactSet, ArtifactWord};

fn s(v: &str) -> String {
    String::from(v)
}

fn info() -> ArtifactInfo {
    ArtifactInfo {
        slots: vec![s("生之花")],
        stats: vec![s("攻击力"), s("暴击率")],
        sets: vec![ArtifactSet {
            name: s("角斗士的终幕礼"),
            alias: Some(vec![s("角斗士终幕礼")]),
            artifacts: vec![Item { name: s("角斗士的留恋"), alias: Some(vec![s("角斗士的留")]) }],
        }],
        words: ArtifactWord {
            artifact: s("圣遗物"),
            star: s("星级"),
            level: s("等级"),
            equipped: s("已装备"),
            locked: s("已锁定"),
            marked: s("已标记"),
            sanctifying_elixir: s("祝圣之霜定义"),
            main_stat: s("主词条"),
            sub_stats_count: s("副词条个数"),
            unactivated: s("待激活"),
            no_match_artifacts: s("暂无满足条件的圣遗物"),
        },
    }
}

#[test]
fn names_by_spelling() {
    let i = info();
    assert_eq!(recognize_name(&i, "角斗士的留", true, false).unwrap(), "角斗士的留恋");
    assert_eq!(recognize_name(&i, "???", true, false).unwrap(), "");
    assert!(matches!(recognize_name(&i, "???", true, true), Err(IdentifyError::UnknownName(_))));
    assert_eq!(recognize_name(&i, "角斗士的留", false, true).unwrap(), "");
    assert_eq!(recognize_set_name(&i, "《角斗士终幕礼》", true, true).unwrap(), "角斗士的终幕礼");
    assert!(matches!(recognize_set_name(&i, "x", true, true), Err(IdentifyError::UnknownSetName(_))));
}

#[test]
fn slots_and_main_stats() {
    let i = info();
    assert_eq!(recognize_slot(&i, "生之花", true, true).unwrap(), "生之花");
    assert!(matches!(recognize_slot(&i, "花", true, true), Err(IdentifyError::UnknownSlot(_))));
    assert_eq!(recognize_main_stat(&i, "暴击率", true, true).unwrap(), "暴击率");
    assert_eq!(recognize_main_stat(&i, "x", true, false).unwrap(), "");
    assert_eq!(recognize_main_stat_value("46.6%", true, true).unwrap(), Dec::new(466, 1).unwrap());
    assert!(matches!(recognize_main_stat_value("--", true, true), Err(IdentifyError::BadMainStatValue(_))));
    assert_eq!(recognize_main_stat_value("--", true, false).unwrap(), Dec::from_int(0));
}

#[test]
fn levels_in_range() {
    assert_eq!(recognize_level("+20", true, true).unwrap(), Dec::from_int(20));
    assert!(matches!(recognize_level("+21", true, false), Err(IdentifyError::LevelOutOfRange(_))));
    assert!(matches!(recognize_level("+", true, true), Err(IdentifyError::BadLevel(_))));
    assert_eq!(recognize_level("+", true, false).unwrap(), Dec::from_int(0));
}

#[test]
fn sub_stat_lines() {
    let i = info();
    match parse_sub_stat(&i, " 暴击率 +3.9%", true).unwrap() {
        SubStatLine::Stat(n, v) => {
            assert_eq!(n, "暴击率");
            assert_eq!(v, Dec::new(39, 1).unwrap());
        }
        other => panic!("unexpected {:?}", other),
    }
    assert!(matches!(parse_sub_stat(&i, "套装", true).unwrap(), SubStatLine::End));
    assert!(matches!(parse_sub_stat(&i, "防御力+19", false).unwrap(), SubStatLine::Skip));
    assert!(matches!(parse_sub_stat(&i, "防御力+19", true), Err(IdentifyError::UnknownStat(_))));
    assert!(matches!(parse_sub_stat(&i, "攻击力+", true), Err(IdentifyError::BadStatValue(_))));
}

#[test]
fn pixels_to_states() {
    let yellow = Rgb { r: 255, g: 204, b: 50 };
    let grey = Rgb { r: 100, g: 100, b: 100 };
    assert_eq!(count_stars(&vec![yellow, yellow, yellow], true), Dec::from_int(5));
    assert_eq!(count_stars(&vec![yellow, grey, yellow], true), Dec::from_int(3));
    assert_eq!(count_stars(&vec![yellow], false), Dec::from_int(0));
    assert!(is_toggled(&Rgb { r: 0, g: 0, b: 0 }));
    assert!(!is_toggled(&Rgb { r: 250, g: 250, b: 250 }));
    assert!(check_lock_state(true, false).is_err());
    assert!(check_lock_state(true, true).is_ok());
}

#[test]
fn equipped_word_and_offsets() {
    let i = info();
    assert!(recognize_equipped(&i.words, "胡桃已装备", true));
    assert!(!recognize_equipped(&i.words, "胡桃", true));
    assert!(!recognize_equipped(&i.words, "胡桃已装备", false));
    assert_eq!(rows_below(10, 40, 3), Some(130));
    assert_eq!(rows_below(i32::MAX, 1, 1), None);
}
