use akbox::skland::auth_file_candidates;
use akbox::json::JsonValue;
use akbox::skland::summarize_skland_response_body;
use akbox::skland::ExternalOperatorDefRecord;
use akbox::skland::SklandApiEnvelope;
use akbox::skland::SklandCharacter;
use akbox::skland::SklandCharacterInfo;
use akbox::skland::SklandClientError;
use akbox::skland::SklandEquipState;
use akbox::skland::SklandPlayerInfo;
use akbox::skland::SklandPlayerStatus;
use akbox::skland::SklandSkillState;
use akbox::skland::SKLAND_PLAYER_INFO_CACHE_KEY;
use akbox::skland::SKLAND_PLAYER_INFO_SOURCE_ID;
use akbox::skland::base_building_facts;
use akbox::skland::build_inspect_outcome;
use akbox::skland::build_operator_sample;
use akbox::skland::build_operator_state_plan;
use akbox::skland::build_skland_sign_secret;
use akbox::skland::build_status_keys;
use akbox::skland::compute_skland_sign;
use akbox::skland::default_uid_file_name;
use akbox::skland::encode_query_string;
use akbox::skland::ensure_skland_success;
use akbox::skland::normalize_skland_response_text;
use akbox::skland::operator_import_audit_entry;
use akbox::skland::player_info_cache_entry;
use akbox::skland::require_skland_success_data;
use akbox::skland::resolve_module_state;
use akbox::skland::resolve_operator_branch;
use akbox::skland::resolve_operator_name;
use akbox::skland::resolve_operator_profession;
use akbox::skland::resolve_operator_rarity;
use akbox::skland::skland_header_json;
use akbox::skland::skland_request_url;
use akbox::skland::status_building_audit_entry;

const TEST_UID: &str = "test_uid_0001";

fn character(id: &str, level: i64, equip: Vec<SklandEquipState>, default_equip: Option<&str>) -> SklandCharacter {
    SklandCharacter {
        char_id: id.to_string(),
        level,
        evolve_phase: 2,
        main_skill_lvl: 7,
        skills: vec![
            SklandSkillState { id: Some("s1".to_string()), specialize_level: 3 },
            SklandSkillState { id: Some("s2".to_string()), specialize_level: 1 },
        ],
        equip,
        default_equip_id: default_equip.map(|d| d.to_string()),
    }
}

fn equip(id: &str, level: i64, locked: bool) -> SklandEquipState {
    SklandEquipState { id: id.to_string(), level, locked }
}

fn info(name: &str, profession: &str, rarity: i64, branch: &str) -> SklandCharacterInfo {
    SklandCharacterInfo {
        id: None,
        name: Some(name.to_string()),
        profession: Some(profession.to_string()),
        rarity: Some(rarity),
        sub_profession_name: Some(branch.to_string()),
    }
}

fn object(members: Vec<(&str, JsonValue)>) -> JsonValue {
    JsonValue::Object(members.into_iter().map(|(k, v)| (k.to_string(), v)).collect())
}

fn player_info(chars: Vec<SklandCharacter>, char_info_map: Vec<(String, SklandCharacterInfo)>) -> SklandPlayerInfo {
    SklandPlayerInfo {
        status: SklandPlayerStatus {
            name: Some("  博士  ".to_string()),
            store_ts: Some(1700000000),
            extra_fields: vec![("level".to_string(), JsonValue::Number("120".to_string()))],
        },
        assist_chars: Vec::new(),
        chars,
        building: object(vec![
            ("tiredChars", JsonValue::Array(vec![JsonValue::Null])),
            ("control", object(vec![])),
            ("meeting", JsonValue::Null),
            ("manufactures", JsonValue::Array(vec![JsonValue::Null, JsonValue::Null])),
        ]),
        equipment_info_map: Vec::new(),
        char_info_map,
    }
}

#[test]
fn build_skland_sign_secret_omits_question_mark_before_query() {
    let secret = build_skland_sign_secret(
        "/api/v1/game/player/info",
        &format!("uid={TEST_UID}"),
        "1234567890",
        "{\"platform\":\"\",\"timestamp\":\"1234567890\",\"dId\":\"\",\"vName\":\"\"}",
    );

    assert_eq!(
        secret,
        format!(
            "/api/v1/game/player/infouid={TEST_UID}1234567890{{\"platform\":\"\",\"timestamp\":\"1234567890\",\"dId\":\"\",\"vName\":\"\"}}"
        )
    );
}

#[test]
fn sign_is_md5_of_hex_hmac_sha256() {
    let sign = match compute_skland_sign("token-1", "/api/v1/game/player/infouid=11700000000{}") {
        Ok(sign) => sign,
        Err(_) => panic!("signing failed"),
    };
    assert_eq!(sign, "3b1f062c43b527b26c8ac84a1cb0b23a");
}

#[test]
fn query_string_joins_pairs_without_escaping() {
    assert_eq!(encode_query_string(&[("uid", "123"), ("gameId", "1")]), "uid=123&gameId=1");
    assert_eq!(encode_query_string(&[]), "");
}

#[test]
fn request_url_adds_question_mark_only_before_a_query() {
    assert_eq!(
        skland_request_url("https://zonai.skland.com/api/v1", "/game/player/info", "uid=1"),
        "https://zonai.skland.com/api/v1/game/player/info?uid=1"
    );
    assert_eq!(skland_request_url("https://h", "/user/binding", ""), "https://h/user/binding");
}

#[test]
fn header_json_carries_the_timestamp() {
    assert_eq!(
        skland_header_json("1234567890"),
        "{\"platform\":\"\",\"timestamp\":\"1234567890\",\"dId\":\"\",\"vName\":\"\"}"
    );
}

#[test]
fn response_text_loses_leading_byte_order_marks() {
    assert_eq!(normalize_skland_response_text("\u{feff}\u{feff}{\"code\":0}"), "{\"code\":0}");
    assert_eq!(normalize_skland_response_text("{\u{feff}}"), "{\u{feff}}");
}

#[test]
fn default_uid_file_is_uid_txt() {
    assert_eq!(default_uid_file_name(), "uid.txt");
}

#[test]
fn envelope_success_and_errors() {
    let ok = SklandApiEnvelope { status: None, code: Some(0), msg: None, message: None, data: Some(5) };
    match ensure_skland_success(ok, "读取") {
        Ok(envelope) => assert_eq!(envelope.data, Some(5)),
        Err(_) => panic!("code zero is a success"),
    }

    let refused: SklandApiEnvelope<i32> =
        SklandApiEnvelope { status: Some(10001), code: None, msg: Some("登录已过期".to_string()), message: None, data: None };
    match ensure_skland_success(refused, "读取") {
        Err(SklandClientError::ApiError { operation, message }) => {
            assert_eq!(operation, "读取");
            assert_eq!(message, "登录已过期");
        }
        _ => panic!("a non-zero code is an error"),
    }

    let empty: SklandApiEnvelope<i32> = SklandApiEnvelope { status: None, code: Some(0), msg: None, message: None, data: None };
    match require_skland_success_data(empty, "读取") {
        Err(SklandClientError::ApiError { message, .. }) => assert_eq!(message, "服务端返回成功，但 data 为空"),
        _ => panic!("missing data is an error"),
    }

    let silent: SklandApiEnvelope<i32> = SklandApiEnvelope { status: None, code: None, msg: None, message: None, data: None };
    assert_eq!(silent.message_text(), "服务端没有返回可读消息");
    assert_eq!(silent.status_code(), None);
}

#[test]
fn module_state_prefers_the_default_unlocked_module() {
    let op = character("char_1", 90, vec![equip("a", 2, false), equip("b", 0, false)], Some("b"));
    assert_eq!(resolve_module_state(&op), (Some("b".to_string()), Some(1)));

    let op = character("char_1", 90, vec![equip("a", 2, true), equip("b", 3, false)], Some("a"));
    assert_eq!(resolve_module_state(&op), (Some("b".to_string()), Some(3)));

    let op = character("char_1", 90, vec![equip("a", 2, true)], None);
    assert_eq!(resolve_module_state(&op), (Some("locked".to_string()), None));

    let op = character("char_1", 90, Vec::new(), None);
    assert_eq!(resolve_module_state(&op), (None, None));
}

#[test]
fn operator_fields_fall_back_from_definitions_to_character_info() {
    let def = ExternalOperatorDefRecord {
        operator_id: "char_1".to_string(),
        name_zh: "阿米娅".to_string(),
        rarity: 5,
        profession: "术师".to_string(),
        branch: None,
    };
    let char_info = info(" 阿米娅2 ", " 近卫 ", 4, " 剑豪 ");
    assert_eq!(resolve_operator_name("char_1", Some(&def), Some(&char_info)), "阿米娅");
    assert_eq!(resolve_operator_name("char_1", None, Some(&char_info)), "阿米娅2");
    assert_eq!(resolve_operator_name("char_1", None, None), "char_1");
    assert_eq!(resolve_operator_profession(Some(&def), Some(&char_info)), "术师");
    assert_eq!(resolve_operator_profession(None, Some(&char_info)), "近卫");
    assert_eq!(resolve_operator_profession(None, None), "未知");
    assert_eq!(resolve_operator_branch(Some(&def), Some(&char_info)), Some("剑豪".to_string()));
    assert_eq!(resolve_operator_branch(None, None), None);
    assert_eq!(resolve_operator_rarity(Some(&def), Some(&char_info)), 5);
    assert_eq!(resolve_operator_rarity(None, Some(&char_info)), 5);
    assert_eq!(resolve_operator_rarity(None, None), 1);
    let low = ExternalOperatorDefRecord { rarity: -3, ..def };
    assert_eq!(resolve_operator_rarity(Some(&low), None), 1);
}

#[test]
fn status_keys_are_sorted_and_include_name_and_store_time() {
    let info = player_info(Vec::new(), Vec::new());
    assert_eq!(build_status_keys(&info.status), vec!["level".to_string(), "name".to_string(), "storeTs".to_string()]);
}

#[test]
fn operator_sample_clamps_levels_and_reads_masteries() {
    let op = character("char_2", 0, Vec::new(), None);
    let map = vec![("char_2".to_string(), info("能天使", "狙击", 5, "速射手"))];
    let sample = build_operator_sample(&op, &map);
    assert_eq!(sample.operator_id, "char_2");
    assert_eq!(sample.name_zh, "能天使");
    assert_eq!(sample.level, 1);
    assert_eq!(sample.elite_stage, 2);
    assert_eq!(sample.skill_level, 7);
    assert_eq!((sample.mastery_1, sample.mastery_2, sample.mastery_3), (3, 1, 0));
    assert_eq!(sample.module_state, None);
}

#[test]
fn operator_plan_covers_definitions_sorted_and_counts_owned_rows() {
    let defs = vec![
        ExternalOperatorDefRecord {
            operator_id: "char_b".to_string(),
            name_zh: "乙".to_string(),
            rarity: 6,
            profession: "先锋".to_string(),
            branch: Some("尖兵".to_string()),
        },
        ExternalOperatorDefRecord {
            operator_id: "char_a".to_string(),
            name_zh: "甲".to_string(),
            rarity: 3,
            profession: "重装".to_string(),
            branch: None,
        },
    ];
    let info = player_info(vec![character("char_b", 80, Vec::new(), None)], Vec::new());
    let plan = build_operator_state_plan(&defs, &info, "snap-1", "2026-01-01T00:00:00Z");

    assert_eq!(plan.imported_row_count, 2);
    assert_eq!(plan.owned_row_count, 1);
    assert_eq!(plan.unowned_row_count, 1);
    assert!(plan.used_external_operator_defs);
    assert_eq!(plan.entries[0].operator_id, "char_a");
    assert!(!plan.entries[0].owned);
    assert_eq!(plan.entries[0].level, 1);
    assert_eq!(plan.entries[0].mastery_1, 0);
    assert_eq!(plan.entries[1].operator_id, "char_b");
    assert!(plan.entries[1].owned);
    assert_eq!(plan.entries[1].level, 80);
    assert_eq!(plan.entries[1].rarity, 6);
    assert_eq!(plan.entries[1].branch, Some("尖兵".to_string()));
    assert_eq!(plan.entries[1].snapshot_id, "snap-1");
    assert_eq!(plan.entries[1].last_scanned_at, Some("2026-01-01T00:00:00Z".to_string()));
}

#[test]
fn operator_plan_without_definitions_uses_character_info_then_owned_characters() {
    let map = vec![
        ("char_z".to_string(), info("Z", "辅助", 2, "")),
        ("char_y".to_string(), info("Y", "医疗", 3, "")),
    ];
    let info = player_info(vec![character("char_y", 50, Vec::new(), None)], map);
    let plan = build_operator_state_plan(&[], &info, "snap", "t");
    assert!(!plan.used_external_operator_defs);
    let ids: Vec<&str> = plan.entries.iter().map(|e| e.operator_id.as_str()).collect();
    assert_eq!(ids, vec!["char_y", "char_z"]);
    assert_eq!(plan.entries[0].rarity, 4);
    assert_eq!(plan.entries[0].branch, None);

    let info = player_info(
        vec![character("char_2", 10, Vec::new(), None), character("char_1", 20, Vec::new(), None)],
        Vec::new(),
    );
    let plan = build_operator_state_plan(&[], &info, "snap", "t");
    assert_eq!(plan.imported_row_count, 2);
    assert_eq!(plan.owned_row_count, 2);
    assert_eq!(plan.entries[0].operator_id, "char_1");
    assert_eq!(plan.entries[0].profession, "未知");
}

#[test]
fn building_facts_count_rooms_and_name_members() {
    let info = player_info(Vec::new(), Vec::new());
    let facts = base_building_facts(&info.building);
    assert_eq!(
        facts.building_keys,
        vec!["control".to_string(), "manufactures".to_string(), "meeting".to_string(), "tiredChars".to_string()]
    );
    assert!(facts.has_control);
    assert!(!facts.has_meeting);
    assert!(!facts.has_hire);
    assert_eq!(facts.manufacture_count, 2);
    assert_eq!(facts.tired_char_count, 1);
    assert_eq!(facts.dormitory_count, 0);
}

#[test]
fn inspection_summarises_the_player_info() {
    let info = player_info(vec![character("char_1", 30, Vec::new(), None)], Vec::new());
    let outcome = build_inspect_outcome(TEST_UID, 2, b"{\"code\":0}", &info, "1700000000");
    assert_eq!(outcome.source_id, SKLAND_PLAYER_INFO_SOURCE_ID);
    assert_eq!(outcome.cache_key, SKLAND_PLAYER_INFO_CACHE_KEY);
    assert_eq!(outcome.cache_size_bytes, 10);
    assert_eq!(outcome.uid, TEST_UID);
    assert_eq!(outcome.account_name, Some("博士".to_string()));
    assert_eq!(outcome.binding_count, 2);
    assert_eq!(outcome.char_count, 1);
    assert!(outcome.has_building);
    assert_eq!(outcome.manufacture_count, 2);
    match outcome.sample_operator {
        Some(sample) => assert_eq!(sample.operator_id, "char_1"),
        None => panic!("the first operator is the sample"),
    }
}

#[test]
fn import_records_name_their_sources() {
    let cache = player_info_cache_entry("1700000000", b"{}");
    assert_eq!(cache.cache_key, "skland:player-info:current");
    assert_eq!(cache.source_name, "skland.player-info.current");
    assert_eq!(cache.revision, Some("1700000000"));
    assert_eq!(cache.content_type, "application/json");

    let audit = operator_import_audit_entry("audit-1", "snap-1", "{}");
    assert_eq!(audit.entity_type, "operator_snapshot");
    assert_eq!(audit.entity_id, Some("snap-1"));
    assert_eq!(audit.action, "replace_from_skland");

    let audit = status_building_audit_entry("audit-2", "status-1", "{}");
    assert_eq!(audit.entity_type, "player_status_snapshot");
    assert_eq!(audit.action, "import");
    assert_eq!(audit.source, "skland.player-info.current");
}

fn summary_object(members: Vec<(&str, JsonValue)>) -> JsonValue {
    JsonValue::Object(members.into_iter().map(|(k, v)| (k.to_string(), v)).collect())
}

#[test]
fn response_summary_of_an_empty_body() {
    assert_eq!(summarize_skland_response_body(" \n ", None), "响应体为空");
}

#[test]
fn response_summary_lists_codes_messages_and_sorted_data_keys() {
    let parsed = summary_object(vec![
        ("code", JsonValue::Number("10001".to_string())),
        ("message", JsonValue::String("bad".to_string())),
        (
            "data",
            summary_object(vec![("b", JsonValue::Number("1".to_string())), ("a", JsonValue::Null)]),
        ),
    ]);
    assert_eq!(
        summarize_skland_response_body("{...}", Some(&parsed)),
        "code=10001；message=bad；data_keys=a,b"
    );
}

#[test]
fn response_summary_describes_data_shapes() {
    let array = summary_object(vec![
        ("status", JsonValue::Number("0".to_string())),
        ("data", JsonValue::Array(vec![JsonValue::Null, JsonValue::Null, JsonValue::Null])),
    ]);
    assert_eq!(summarize_skland_response_body("x", Some(&array)), "status=0；data_len=3");
    let null = summary_object(vec![("msg", JsonValue::String("m".to_string())), ("data", JsonValue::Null)]);
    assert_eq!(summarize_skland_response_body("x", Some(&null)), "msg=m；data=null");
    let scalar = summary_object(vec![("data", JsonValue::Bool(true))]);
    assert_eq!(summarize_skland_response_body("x", Some(&scalar)), "data=<scalar>");
}

#[test]
fn response_summary_falls_back_to_the_byte_length() {
    assert_eq!(
        summarize_skland_response_body("  not json  ", None),
        "响应体不是可解析 JSON，长度 8 字节"
    );
    assert_eq!(
        summarize_skland_response_body("森空岛", Some(&summary_object(vec![]))),
        "响应体不是可解析 JSON，长度 9 字节"
    );
}

#[test]
fn auth_file_is_looked_for_beside_and_under_target() {
    let candidates = auth_file_candidates();
    assert_eq!(
        candidates,
        vec![
            vec!["skland-auth.local.toml".to_string()],
            vec!["target".to_string(), "debug".to_string(), "skland-auth.local.toml".to_string()],
            vec!["target".to_string(), "release".to_string(), "skland-auth.local.toml".to_string()],
        ]
    );
}
