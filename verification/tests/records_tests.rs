use akbox::json::JsonValue;
use akbox::records::external_operator_growth_record;
use akbox::records::external_recipe_record;
use akbox::records::external_stage_def_record;
use akbox::records::json_i64;
use akbox::records::merge_penguin_stage_json;
use akbox::records::merge_prts_stage_json;

fn object(members: Vec<(&str, JsonValue)>) -> JsonValue {
    JsonValue::Object(members.into_iter().map(|(k, v)| (k.to_string(), v)).collect())
}

fn text(s: &str) -> JsonValue {
    JsonValue::String(s.to_string())
}

fn number(s: &str) -> JsonValue {
    JsonValue::Number(s.to_string())
}

fn entry(name: &str, count: &str) -> JsonValue {
    object(vec![("item_name_zh", text(name)), ("count", number(count))])
}

fn member_names(value: &JsonValue) -> Vec<String> {
    match value {
        JsonValue::Object(members) => members.iter().map(|(k, _)| k.clone()).collect(),
        _ => panic!("not an object"),
    }
}

fn member_text(value: &JsonValue, key: &str) -> Option<String> {
    match value {
        JsonValue::Object(members) => members.iter().find(|(k, _)| k == key).and_then(|(_, v)| match v {
            JsonValue::String(s) => Some(s.clone()),
            _ => None,
        }),
        _ => None,
    }
}

#[test]
fn json_numbers_read_as_integers_only_when_whole() {
    assert_eq!(json_i64(&number("42")), Some(42));
    assert_eq!(json_i64(&number("-7")), Some(-7));
    assert_eq!(json_i64(&number("1.5")), None);
    assert_eq!(json_i64(&number("9223372036854775808")), None);
    assert_eq!(json_i64(&text("42")), None);
}

#[test]
fn growth_record_sums_up_materials_and_skips_incomplete_entries() {
    let raw = object(vec![(
        "materials",
        JsonValue::Array(vec![
            entry("固源岩组", "4"),
            object(vec![("item_name_zh", text("无数量"))]),
            entry("聚酸酯组", "2"),
        ]),
    )]);
    let record = external_operator_growth_record(
        "g1".to_string(),
        "char_1".to_string(),
        "阿米娅".to_string(),
        "精英1".to_string(),
        "elite".to_string(),
        &raw,
    );
    assert_eq!(record.growth_id, "g1");
    assert_eq!(record.operator_id, "char_1");
    assert_eq!(record.material_summary, "固源岩组 x4 / 聚酸酯组 x2");
}

#[test]
fn growth_record_without_materials_has_empty_summary() {
    let record = external_operator_growth_record(
        "g".to_string(),
        "o".to_string(),
        "n".to_string(),
        "s".to_string(),
        "m".to_string(),
        &JsonValue::Null,
    );
    assert_eq!(record.material_summary, "");
}

#[test]
fn recipe_record_reads_kind_level_and_ingredients() {
    let raw = object(vec![
        ("workshop_level", number("3")),
        ("recipe_kind", text("精英材料")),
        ("ingredients", JsonValue::Array(vec![entry("提纯源岩", "1"), entry("研磨石", "2")])),
    ]);
    let record = external_recipe_record(
        "r1".to_string(),
        "30104".to_string(),
        "聚合剂".to_string(),
        "WORKSHOP".to_string(),
        &raw,
    );
    assert_eq!(record.workshop_level, 3);
    assert_eq!(record.recipe_kind, "精英材料");
    assert_eq!(record.ingredient_summary, "提纯源岩 x1 / 研磨石 x2");
    assert_eq!(record.room_type, "WORKSHOP");
}

#[test]
fn recipe_record_defaults_when_fields_are_missing() {
    let record = external_recipe_record(
        "r2".to_string(),
        "i".to_string(),
        "n".to_string(),
        "WORKSHOP".to_string(),
        &object(vec![("workshop_level", text("3"))]),
    );
    assert_eq!(record.workshop_level, 0);
    assert_eq!(record.recipe_kind, "未分类");
    assert_eq!(record.ingredient_summary, "");
}

#[test]
fn stage_record_reads_page_title_and_string_categories() {
    let raw = object(vec![(
        "prts",
        object(vec![
            ("page_title", text("1-7")),
            ("categories", JsonValue::Array(vec![text("主线关卡"), number("3"), text("第一章")])),
        ]),
    )]);
    let record = external_stage_def_record("main_01-07".to_string(), Some("main_1".to_string()), "1-7".to_string(), true, &raw);
    assert_eq!(record.page_title.as_deref(), Some("1-7"));
    assert_eq!(record.categories, vec!["主线关卡".to_string(), "第一章".to_string()]);
    assert_eq!(record.zone_id.as_deref(), Some("main_1"));
    assert!(record.is_open);

    let bare = external_stage_def_record("s".to_string(), None, "c".to_string(), false, &object(vec![]));
    assert_eq!(bare.page_title, None);
    assert!(bare.categories.is_empty());
}

#[test]
fn merging_page_data_keeps_other_members_and_replaces_prts() {
    let existing = object(vec![("stageId", text("main_01-07")), ("prts", text("old"))]);
    let merged = merge_prts_stage_json(Some(existing), object(vec![("page_title", text("1-7"))]));
    assert_eq!(member_names(&merged), vec!["stageId".to_string(), "prts".to_string()]);

    let fresh = merge_prts_stage_json(None, text("page"));
    assert_eq!(member_names(&fresh), vec!["prts".to_string()]);
    assert_eq!(member_text(&fresh, "prts").as_deref(), Some("page"));
}

#[test]
fn merging_stage_statistics_preserves_page_data() {
    let existing = object(vec![("prts", text("page")), ("code", text("old"))]);
    let penguin = object(vec![("stageId", text("main_01-07")), ("code", text("1-7"))]);
    let merged = merge_penguin_stage_json(Some(existing), penguin);
    assert_eq!(member_names(&merged), vec!["stageId".to_string(), "code".to_string(), "prts".to_string()]);
    assert_eq!(member_text(&merged, "code").as_deref(), Some("1-7"));
    assert_eq!(member_text(&merged, "prts").as_deref(), Some("page"));

    let wrapped = merge_penguin_stage_json(None, text("raw"));
    assert_eq!(member_names(&wrapped), vec!["penguin".to_string()]);
    assert_eq!(member_text(&wrapped, "penguin").as_deref(), Some("raw"));
}
