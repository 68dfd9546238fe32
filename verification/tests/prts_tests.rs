use akbox::json::JsonValue;
use akbox::prts::PrtsClientError;
use akbox::prts::PrtsOperatorQueryResult;
use akbox::prts::PrtsStageQueryResult;
use akbox::prts::build_operator_index_query;
use akbox::prts::build_stage_index_query;
use akbox::prts::building_skill_condition_key;
use akbox::prts::building_skill_room_type_key;
use akbox::prts::decode_html_attribute;
use akbox::prts::decode_html_entity;
use akbox::prts::derive_stage_code;
use akbox::prts::elite_stage_key;
use akbox::prts::extract_item_definitions;
use akbox::prts::extract_operator_definitions;
use akbox::prts::extract_stage_definitions;
use akbox::prts::is_retryable_status;
use akbox::prts::mastery_stage_key;
use akbox::prts::normalize_optional_text;
use akbox::prts::normalize_text;
use akbox::prts::normalize_wiki_url;
use akbox::prts::operator_availability_kind;
use akbox::prts::parse_i64_text;
use akbox::prts::prts_retry_delay_ms;
use akbox::prts::retry_pause_ms;
use akbox::prts::skill_upgrade_stage_key;
use akbox::prts::PRTS_FETCH_MAX_ATTEMPTS;

fn chars(s: &str) -> Vec<char> {
    s.chars().collect()
}

fn text(v: Vec<char>) -> String {
    v.into_iter().collect()
}

fn strings(parts: &[&str]) -> Vec<String> {
    parts.iter().map(|p| p.to_string()).collect()
}

const ITEM_HTML: &str = "<div class=\"mw-content-ltr mw-parser-output\" lang=\"zh-Hans-CN\" dir=\"ltr\"><div class=\"smwdata\" data-name=\"龙门币\" data-description=\"基础货币。\" data-usage=\"用于养成。\" data-obtain_approach=\"&#91;&#91;主线&#93;&#93;掉落\" data-rarity=\"3\" data-category=\"分类:道具, 分类:货币\" data-id=\"4001\" data-dark-background=\"no\" data-file=\"https&#58;//media.prts.wiki/item_4001.png\"></div><div class=\"smwdata\" data-name=\"双极纳米片\" data-description=\"高阶材料。\" data-usage=\"用于精二与专精。\" data-obtain_approach=\"加工站合成\" data-rarity=\"4\" data-category=\"分类:道具, 分类:养成材料\" data-id=\"30104\" data-dark-background=\"yes\" data-file=\"https&#58;//media.prts.wiki/item_30104.png\"></div></div>";

#[test]
fn item_index_html_yields_item_definitions() {
    let items = match extract_item_definitions(ITEM_HTML) {
        Ok(items) => items,
        Err(_) => panic!("the item index parses"),
    };
    assert_eq!(items.len(), 2);
    assert_eq!(items[0].item_id, "4001");
    assert_eq!(items[0].name_zh, "龙门币");
    assert_eq!(items[0].item_type, "货币");
    assert_eq!(items[0].rarity, Some(3));
    assert_eq!(items[0].obtain_approach.as_deref(), Some("[[主线]]掉落"));
    assert_eq!(items[0].file_url.as_deref(), Some("https://media.prts.wiki/item_4001.png"));
    assert_eq!(items[0].categories, strings(&["道具", "货币"]));
    assert_eq!(items[0].dark_background, Some(false));
    assert_eq!(items[1].item_id, "30104");
    assert_eq!(items[1].dark_background, Some(true));
    assert_eq!(items[1].item_type, "养成材料");
}

#[test]
fn item_index_without_entries_is_refused() {
    match extract_item_definitions("<div>nothing</div>") {
        Err(PrtsClientError::ParseItemIndexHtml { message }) => {
            assert_eq!(message, "item index HTML does not contain any smwdata entries");
        }
        _ => panic!("an empty index is an error"),
    }
    match extract_item_definitions("<div class=\"smwdata\" data-name=\"x\"") {
        Err(PrtsClientError::ParseItemIndexHtml { message }) => assert_eq!(message, "unterminated smwdata div"),
        _ => panic!("an unterminated tag is an error"),
    }
}

#[test]
fn html_entities_and_attributes_decode() {
    assert_eq!(decode_html_entity(&chars("quot")), Some('"'));
    assert_eq!(decode_html_entity(&chars("#91")), Some('['));
    assert_eq!(decode_html_entity(&chars("#x4E2D")), Some('中'));
    assert_eq!(decode_html_entity(&chars("#xD800")), None);
    assert_eq!(decode_html_entity(&chars("nbsp")), None);
    assert_eq!(text(decode_html_attribute(&chars("a&amp;b&unknown;c&#58;d&"))), "a&b&unknown;c:d&");
}

#[test]
fn index_queries_carry_limit_and_offset() {
    assert_eq!(build_stage_index_query(None), "[[关卡id::+]]|?关卡id|?分类|limit=500");
    assert_eq!(build_stage_index_query(Some(500)), "[[关卡id::+]]|?关卡id|?分类|limit=500|offset=500");
    assert_eq!(
        build_operator_index_query(Some(1000)),
        "[[干员id::+]]|?干员id|?稀有度|?职业|?分支|?分类|limit=500|offset=1000"
    );
}

#[test]
fn operator_availability_kinds() {
    assert_eq!(operator_availability_kind("阿米娅", &strings(&["专属干员"])), "exclusive_mode");
    assert_eq!(operator_availability_kind("预备干员-近战", &Vec::new()), "reserve_operator");
    assert_eq!(operator_availability_kind("能天使", &strings(&["干员"])), "box_collectible");
}

#[test]
fn stage_codes_come_from_the_page_title() {
    assert_eq!(derive_stage_code("1-7 暴君"), "1-7");
    assert_eq!(derive_stage_code("(活动) 关卡"), "(活动) 关卡");
    assert_eq!(derive_stage_code("主线 关卡"), "主线 关卡");
    assert_eq!(derive_stage_code("CE-5"), "CE-5");
}

#[test]
fn growth_stage_keys() {
    assert_eq!(elite_stage_key("精英0→精英1"), Some("elite_0_1".to_string()));
    assert_eq!(elite_stage_key("精英1"), None);
    assert_eq!(skill_upgrade_stage_key(" 1 → 2 "), Some("skill_1_2".to_string()));
    assert_eq!(skill_upgrade_stage_key("1→2→3"), None);
    assert_eq!(mastery_stage_key("专精等级3"), Some("mastery_3".to_string()));
    assert_eq!(mastery_stage_key("专精"), None);
    assert_eq!(building_skill_condition_key("精英2解锁"), Some("elite_2".to_string()));
    assert_eq!(building_skill_condition_key("初始携带"), None);
    assert_eq!(building_skill_room_type_key("贸易站"), "trading_post");
    assert_eq!(building_skill_room_type_key("训练室"), "training_room");
    assert_eq!(building_skill_room_type_key("未知房间"), "未知房间");
}

#[test]
fn text_normalisation() {
    assert_eq!(normalize_text("  a \n b\t c "), "a b c");
    assert_eq!(normalize_optional_text(" － "), None);
    assert_eq!(normalize_optional_text("-"), None);
    assert_eq!(normalize_optional_text(" x  y "), Some("x y".to_string()));
    assert_eq!(normalize_wiki_url("//prts.wiki/w/A"), "https://prts.wiki/w/A");
    assert_eq!(normalize_wiki_url("https://prts.wiki/w/A"), "https://prts.wiki/w/A");
    assert_eq!(parse_i64_text("x1,234y"), Some(1234));
    assert_eq!(parse_i64_text("none"), None);
    assert_eq!(parse_i64_text("99999999999999999999"), None);
}

#[test]
fn retry_schedule() {
    assert_eq!(prts_retry_delay_ms(0), 500);
    assert_eq!(prts_retry_delay_ms(1), 1500);
    assert_eq!(prts_retry_delay_ms(7), 1500);
    assert!(is_retryable_status(Some(503)));
    assert!(is_retryable_status(Some(429)));
    assert!(!is_retryable_status(Some(404)));
    assert!(!is_retryable_status(None));
    assert_eq!(retry_pause_ms(0, true, PRTS_FETCH_MAX_ATTEMPTS), Some(500));
    assert_eq!(retry_pause_ms(1, true, PRTS_FETCH_MAX_ATTEMPTS), Some(1500));
    assert_eq!(retry_pause_ms(2, true, PRTS_FETCH_MAX_ATTEMPTS), None);
    assert_eq!(retry_pause_ms(0, false, PRTS_FETCH_MAX_ATTEMPTS), None);
}

#[test]
fn operator_definitions_from_query_results() {
    let results = vec![PrtsOperatorQueryResult {
        fulltext: "阿米娅".to_string(),
        fullurl: "//prts.wiki/w/%E9%98%BF%E7%B1%B3%E5%A8%85".to_string(),
        operator_ids: strings(&["char_002_amiya"]),
        rarities: strings(&["5"]),
        professions: strings(&["术师"]),
        branches: strings(&["中坚术师"]),
        categories: strings(&["分类:干员", "专属干员"]),
    }];
    let defs = match extract_operator_definitions(&results) {
        Ok(defs) => defs,
        Err(_) => panic!("the result is complete"),
    };
    assert_eq!(defs.len(), 1);
    assert_eq!(defs[0].operator_id, "char_002_amiya");
    assert_eq!(defs[0].name_zh, "阿米娅");
    assert_eq!(defs[0].rarity, 5);
    assert_eq!(defs[0].branch.as_deref(), Some("中坚术师"));
    assert_eq!(defs[0].categories, strings(&["干员", "专属干员"]));
    assert!(!defs[0].is_box_collectible);
    match &defs[0].raw_json {
        JsonValue::Object(members) => {
            assert!(members.iter().any(|(k, v)| k == "page_url"
                && matches!(v, JsonValue::String(u) if u == "https://prts.wiki/w/%E9%98%BF%E7%B1%B3%E5%A8%85")));
            assert!(members.iter().any(|(k, v)| k == "availability_kind"
                && matches!(v, JsonValue::String(u) if u == "exclusive_mode")));
        }
        _ => panic!("the raw record is an object"),
    }
}

#[test]
fn operator_results_missing_fields_are_refused() {
    let missing_rarity = vec![PrtsOperatorQueryResult {
        fulltext: "X".to_string(),
        fullurl: String::new(),
        operator_ids: strings(&["char_x"]),
        rarities: strings(&["five"]),
        professions: strings(&["术师"]),
        branches: Vec::new(),
        categories: Vec::new(),
    }];
    match extract_operator_definitions(&missing_rarity) {
        Err(PrtsClientError::ParseOperatorIndexPayload { message }) => {
            assert_eq!(message, "operator page X is missing 稀有度");
        }
        _ => panic!("a rarity that is not a number is refused"),
    }
    match extract_operator_definitions(&Vec::new()) {
        Err(PrtsClientError::ParseOperatorIndexPayload { message }) => {
            assert_eq!(message, "operator index query returned no results");
        }
        _ => panic!("no results is an error"),
    }
}

#[test]
fn stage_definitions_from_query_results() {
    let results = vec![PrtsStageQueryResult {
        fulltext: "1-7 暴君".to_string(),
        fullurl: "https://prts.wiki/w/1-7".to_string(),
        stage_ids: strings(&["main_01-07"]),
        categories: strings(&["分类:主线关卡"]),
    }];
    let defs = match extract_stage_definitions(&results) {
        Ok(defs) => defs,
        Err(_) => panic!("the result is complete"),
    };
    assert_eq!(defs[0].stage_id, "main_01-07");
    assert_eq!(defs[0].code, "1-7");
    assert_eq!(defs[0].zone_id, None);
    assert_eq!(defs[0].categories, strings(&["主线关卡"]));

    let missing = vec![PrtsStageQueryResult {
        fulltext: "S".to_string(),
        fullurl: String::new(),
        stage_ids: Vec::new(),
        categories: Vec::new(),
    }];
    match extract_stage_definitions(&missing) {
        Err(PrtsClientError::ParseStageIndexPayload { message }) => assert_eq!(message, "stage page S is missing 关卡id"),
        _ => panic!("a missing id is refused"),
    }
}

fn request_error() -> reqwest::Error {
    match reqwest::blocking::Client::new().get("not a url").build() {
        Err(error) => error,
        Ok(_) => panic!("the url is refused"),
    }
}

#[test]
fn refused_requests_are_retried_by_their_status() {
    let unavailable = PrtsClientError::HttpStatus { source: request_error(), status: Some(503) };
    assert!(unavailable.is_retryable());
    let missing = PrtsClientError::HttpStatus { source: request_error(), status: Some(404) };
    assert!(!missing.is_retryable());
    let unknown = PrtsClientError::HttpStatus { source: request_error(), status: None };
    assert!(!unknown.is_retryable());
    assert!(PrtsClientError::SendRequest { source: request_error() }.is_retryable());
    assert!(!PrtsClientError::ParseHtmlSelector { message: String::new() }.is_retryable());
}
