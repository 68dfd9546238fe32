use akbox::json::JsonValue;
use akbox::official::OfficialNoticeFeedEntry;
use akbox::records::RawSourceCacheSummary;
use akbox::records::SyncSourceStateRecord;
use akbox::sync::ExternalItemNameMatchRecord;
use akbox::sync::PenguinMatrixRow;
use akbox::sync::RecipeIngredientMatches;
use akbox::sync::RecipeNameMatches;
use akbox::sync::penguin_matrix_upsert;
use akbox::sync::penguin_stage_upsert;
use akbox::sync::plan_recipe_rows;
use akbox::sync::SyncAction;
use akbox::sync::SyncEvent;
use akbox::sync::SyncFlow;
use akbox::sync::SyncMode;
use akbox::sync::SyncRunStatus;
use akbox::sync::SyncSource;
use akbox::sync::can_skip_unchanged_source;
use akbox::sync::item_match_resolution_score;
use akbox::sync::latest_notice_revision;
use akbox::sync::matrix_revision;
use akbox::sync::operator_building_skill_id;
use akbox::sync::operator_growth_id;
use akbox::sync::penguin_cursor_anchor;
use akbox::sync::penguin_matrix_id;
use akbox::sync::penguin_stage_is_open;
use akbox::sync::recipe_resolution_report;
use akbox::sync::resolve_external_item_id;
use akbox::sync::resolve_preferred_item_match;
use akbox::sync::sync_failure_alert;
use akbox::sync::sync_failure_alert_id;

fn state(cursor: Option<&str>) -> SyncSourceStateRecord {
    SyncSourceStateRecord {
        source_id: "prts.item-index.cn".to_string(),
        status: "succeeded".to_string(),
        last_attempt_at: None,
        last_success_at: None,
        cursor_value: cursor.map(|c| c.to_string()),
        last_error: None,
    }
}

fn cache(bytes: i64, revision: Option<&str>) -> RawSourceCacheSummary {
    RawSourceCacheSummary {
        cache_key: "prts:item-index:cn".to_string(),
        source_name: "prts".to_string(),
        revision: revision.map(|r| r.to_string()),
        content_type: "application/json".to_string(),
        payload_bytes: bytes,
        fetched_at: "2026-01-01T00:00:00Z".to_string(),
        expires_at: None,
    }
}

fn name_match(id: &str, has_prts: bool, sort_id: Option<&str>) -> ExternalItemNameMatchRecord {
    ExternalItemNameMatchRecord {
        item_id: id.to_string(),
        item_type: "MATERIAL".to_string(),
        rarity: Some(1),
        has_prts_payload: has_prts,
        penguin_sort_id: sort_id.map(|s| s.to_string()),
        penguin_group_id: None,
    }
}

fn object(members: Vec<(&str, JsonValue)>) -> JsonValue {
    JsonValue::Object(members.into_iter().map(|(k, v)| (k.to_string(), v)).collect())
}

fn row(stage: &str, item: &str, start: i64, end: Option<i64>) -> PenguinMatrixRow {
    PenguinMatrixRow {
        stage_id: stage.to_string(),
        item_id: item.to_string(),
        times: 100,
        quantity: 50,
        std_dev: 0.5f64.to_bits(),
        start,
        end,
    }
}

#[test]
fn mode_and_status_labels() {
    assert_eq!(SyncMode::Incremental.label_zh(), "增量");
    assert_eq!(SyncMode::Full.label_zh(), "全量");
    assert_eq!(SyncRunStatus::Updated.label_zh(), "已更新");
    assert_eq!(SyncRunStatus::SkippedUnchanged.label_zh(), "未变化，已跳过");
    assert_eq!(sync_failure_alert_id("penguin.matrix.cn"), "sync-failure:penguin.matrix.cn");
}

#[test]
fn failure_alert_is_an_active_error() {
    let alert = sync_failure_alert("sync-failure:x", "PRTS 同步失败", "boom");
    assert_eq!(alert.alert_type, "sync_failure");
    assert_eq!(alert.severity, "error");
    assert_eq!(alert.status, "active");
    assert_eq!(alert.title, "PRTS 同步失败");
    assert_eq!(alert.message, "boom");
    assert!(alert.payload_json.is_none());
}

#[test]
fn unchanged_source_is_skipped_only_with_rows_state_and_cache() {
    let st = state(Some("335500"));
    let c = cache(1234, Some("335500"));
    assert_eq!(can_skip_unchanged_source(true, Some(&st), Some(&c), "335500"), Some(1234));
    assert_eq!(can_skip_unchanged_source(false, Some(&st), Some(&c), "335500"), None);
    assert_eq!(can_skip_unchanged_source(true, None, Some(&c), "335500"), None);
    assert_eq!(can_skip_unchanged_source(true, Some(&st), None, "335500"), None);
    assert_eq!(can_skip_unchanged_source(true, Some(&st), Some(&c), "335501"), None);
    assert_eq!(can_skip_unchanged_source(true, Some(&state(None)), Some(&c), "335500"), None);
    assert_eq!(can_skip_unchanged_source(true, Some(&st), Some(&cache(-5, None)), "335500"), Some(0));
}

#[test]
fn penguin_anchor_needs_all_three_headers() {
    assert_eq!(
        penguin_cursor_anchor(Some("m"), Some("s"), Some("i")),
        Some("matrix=m|stages=s|items=i".to_string())
    );
    assert_eq!(penguin_cursor_anchor(Some("m"), None, Some("i")), None);
}

#[test]
fn matrix_rows_are_identified_and_the_revision_is_the_latest_window() {
    assert_eq!(penguin_matrix_id(&row("main_01-07", "30012", 1556676000000, None)), "main_01-07:30012:1556676000000:0");
    assert_eq!(penguin_matrix_id(&row("s", "i", -5, Some(7))), "s:i:-5:7");
    let rows = vec![row("a", "b", 10, Some(20)), row("a", "c", 30, None), row("a", "d", 5, Some(25))];
    assert_eq!(matrix_revision(&rows), "30");
    assert_eq!(matrix_revision(&Vec::new()), "0");
}

#[test]
fn penguin_stage_existence_on_the_cn_server() {
    let closed = object(vec![("CN", object(vec![("exist", JsonValue::Bool(false))]))]);
    let open = object(vec![("CN", object(vec![("exist", JsonValue::Bool(true))]))]);
    let unknown = object(vec![("US", object(vec![("exist", JsonValue::Bool(false))]))]);
    assert!(!penguin_stage_is_open(&closed));
    assert!(penguin_stage_is_open(&open));
    assert!(penguin_stage_is_open(&unknown));
    assert!(penguin_stage_is_open(&JsonValue::Null));
}

#[test]
fn recipe_item_resolution_prefers_prts_definition_over_penguin_alias() {
    let matches = vec![name_match("200008", true, None), name_match("3112", false, Some("200008"))];
    assert_eq!(item_match_resolution_score(&matches[0]), 1000);
    assert_eq!(item_match_resolution_score(&matches[1]), -100);
    assert_eq!(resolve_external_item_id("碳", &matches), Ok(Some("200008".to_string())));
}

#[test]
fn item_resolution_with_one_none_or_tied_matches() {
    assert_eq!(resolve_external_item_id("碳", &Vec::new()), Ok(None));
    assert_eq!(resolve_external_item_id("碳", &vec![name_match("x", false, Some("y"))]), Ok(Some("x".to_string())));
    let tied = vec![name_match("a", true, None), name_match("b", true, None)];
    assert_eq!(
        resolve_preferred_item_match("碳", &tied),
        Err("道具 `碳` 匹配到多个 item_id: a, b".to_string())
    );
    let self_sorted = vec![name_match("a", false, None), name_match("b", false, Some("b"))];
    assert_eq!(resolve_preferred_item_match("x", &self_sorted), Ok(Some("b".to_string())));
}

#[test]
fn recipe_report_sorts_and_deduplicates_failures() {
    assert_eq!(recipe_resolution_report(Vec::new()), None);
    assert_eq!(
        recipe_resolution_report(vec!["b".to_string(), "a".to_string(), "b".to_string()]),
        Some("a；b".to_string())
    );
}

#[test]
fn growth_and_building_skill_row_ids() {
    let raw = object(vec![
        ("stage_key", JsonValue::String("elite_0_1".to_string())),
        ("material_slot_key", JsonValue::String("slot_1".to_string())),
    ]);
    assert_eq!(operator_growth_id("char_002_amiya", &raw), "char_002_amiya:elite_0_1:slot_1");
    assert_eq!(operator_growth_id("c", &JsonValue::Null), "c:unknown-stage:unknown-slot");
    let skill = object(vec![("condition_key", JsonValue::String("elite_2".to_string()))]);
    assert_eq!(operator_building_skill_id("c", &skill, "trading_post", 0), "c:elite_2:trading_post:row1");
    assert_eq!(operator_building_skill_id("c", &JsonValue::Null, "dormitory", 9), "c:unknown-condition:dormitory:row10");
}

#[test]
fn latest_notice_revision_is_the_greatest_publication_time() {
    assert_eq!(latest_notice_revision(&Vec::new()), None);
    let notices = vec![
        notice("2026-03-11T11:00:00+08:00"),
        notice("2026-03-14T11:00:00+08:00"),
        notice("2026-02-24T17:00:00+08:00"),
    ];
    assert_eq!(latest_notice_revision(&notices), Some("2026-03-14T11:00:00+08:00".to_string()));
}

fn notice(published_at: &str) -> OfficialNoticeFeedEntry {
    OfficialNoticeFeedEntry {
        notice_id: published_at.to_string(),
        title: String::new(),
        notice_type: "notice".to_string(),
        author: String::new(),
        published_at: published_at.to_string(),
        start_at: None,
        end_at: None,
        source_url: String::new(),
        brief: String::new(),
        raw_json: serde_json::Value::Null,
    }
}

fn drive(flow: &mut SyncFlow, event: SyncEvent) -> SyncAction {
    flow.step(event)
}

#[test]
fn full_run_fetches_stores_and_records_success() {
    let (mut flow, first) = SyncFlow::new(SyncSource::PrtsItemIndex, SyncMode::Full);
    assert!(matches!(first, SyncAction::RecordAttempt { ref source_id } if source_id == "prts.item-index.cn"));
    assert!(matches!(drive(&mut flow, SyncEvent::Done), SyncAction::FetchPayload));
    match drive(&mut flow, SyncEvent::Payload { revision: Some("335500".to_string()), cache_size_bytes: 2048, row_count: 2 }) {
        SyncAction::Store { cache_key, source_name, revision } => {
            assert_eq!(cache_key, "prts:item-index:cn");
            assert_eq!(source_name, "prts");
            assert_eq!(revision.as_deref(), Some("335500"));
        }
        _ => panic!("a fetched payload is stored"),
    }
    match drive(&mut flow, SyncEvent::Stored { stored_row_count: 7 }) {
        SyncAction::RecordSuccess { source_id, cursor, alert_id } => {
            assert_eq!(source_id, "prts.item-index.cn");
            assert_eq!(cursor.as_deref(), Some("335500"));
            assert_eq!(alert_id, "sync-failure:prts.item-index.cn");
        }
        _ => panic!("a stored payload is a success"),
    }
    match drive(&mut flow, SyncEvent::Done) {
        SyncAction::Finish(Some(outcome)) => {
            assert_eq!(outcome.revision, "335500");
            assert_eq!(outcome.cache_size_bytes, 2048);
            assert_eq!(outcome.row_count, 7);
            assert!(outcome.requested_mode == SyncMode::Full);
            assert!(outcome.effective_mode == SyncMode::Full);
            assert!(outcome.run_status == SyncRunStatus::Updated);
        }
        _ => panic!("the run ends with its outcome"),
    }
    assert!(matches!(drive(&mut flow, SyncEvent::Done), SyncAction::Finish(None)));
}

#[test]
fn incremental_run_skips_an_unchanged_source() {
    let (mut flow, _) = SyncFlow::new(SyncSource::PrtsItemIndex, SyncMode::Incremental);
    assert!(matches!(drive(&mut flow, SyncEvent::Done), SyncAction::FetchCursor));
    assert!(matches!(drive(&mut flow, SyncEvent::Cursor(Some("335500".to_string()))), SyncAction::ReadLocalState));
    match drive(
        &mut flow,
        SyncEvent::LocalState { row_count: 12, state: Some(state(Some("335500"))), cache: Some(cache(4096, Some("335500"))) },
    ) {
        SyncAction::RecordSkip { source_id, cursor, alert_id } => {
            assert_eq!(source_id, "prts.item-index.cn");
            assert_eq!(cursor, "335500");
            assert_eq!(alert_id, "sync-failure:prts.item-index.cn");
        }
        _ => panic!("an unchanged source is skipped"),
    }
    match drive(&mut flow, SyncEvent::Done) {
        SyncAction::Finish(Some(outcome)) => {
            assert!(outcome.run_status == SyncRunStatus::SkippedUnchanged);
            assert!(outcome.effective_mode == SyncMode::Incremental);
            assert_eq!(outcome.revision, "335500");
            assert_eq!(outcome.cache_size_bytes, 4096);
            assert_eq!(outcome.row_count, 12);
        }
        _ => panic!("the skipped run ends with its outcome"),
    }
}

#[test]
fn incremental_penguin_run_reports_the_cached_revision_when_skipped() {
    let (mut flow, _) = SyncFlow::new(SyncSource::PenguinMatrix, SyncMode::Incremental);
    drive(&mut flow, SyncEvent::Done);
    drive(&mut flow, SyncEvent::Cursor(Some("matrix=m|stages=s|items=i".to_string())));
    let action = drive(
        &mut flow,
        SyncEvent::LocalState {
            row_count: 3,
            state: Some(state(Some("matrix=m|stages=s|items=i"))),
            cache: Some(cache(10, Some("1700000000000"))),
        },
    );
    assert!(matches!(action, SyncAction::RecordSkip { .. }));
    match drive(&mut flow, SyncEvent::Done) {
        SyncAction::Finish(Some(outcome)) => assert_eq!(outcome.revision, "1700000000000"),
        _ => panic!("the skipped run ends with its outcome"),
    }
}

#[test]
fn incremental_penguin_run_records_the_anchor_fetched_after_storing() {
    let (mut flow, _) = SyncFlow::new(SyncSource::PenguinMatrix, SyncMode::Incremental);
    drive(&mut flow, SyncEvent::Done);
    drive(&mut flow, SyncEvent::Cursor(Some("a1".to_string())));
    let action = drive(&mut flow, SyncEvent::LocalState { row_count: 0, state: None, cache: None });
    assert!(matches!(action, SyncAction::FetchPayload));
    match drive(&mut flow, SyncEvent::Payload { revision: Some("99".to_string()), cache_size_bytes: 5, row_count: 1 }) {
        SyncAction::Store { source_name, .. } => assert_eq!(source_name, "penguin"),
        _ => panic!("a fetched payload is stored"),
    }
    assert!(matches!(drive(&mut flow, SyncEvent::Stored { stored_row_count: 1 }), SyncAction::FetchSuccessCursor));
    match drive(&mut flow, SyncEvent::Cursor(Some("a2".to_string()))) {
        SyncAction::RecordSuccess { cursor, .. } => assert_eq!(cursor.as_deref(), Some("a2")),
        _ => panic!("the new anchor is recorded"),
    }
}

#[test]
fn failed_fetch_is_recorded_with_its_alert() {
    let (mut flow, _) = SyncFlow::new(SyncSource::OfficialNotice, SyncMode::Incremental);
    assert!(matches!(drive(&mut flow, SyncEvent::Done), SyncAction::FetchPayload));
    match drive(&mut flow, SyncEvent::Failed { message: "timeout".to_string() }) {
        SyncAction::RecordFailure { source_id, alert_id, title, message } => {
            assert_eq!(source_id, "official.notice.cn");
            assert_eq!(alert_id, "sync-failure:official.notice.cn");
            assert_eq!(title, "官方公告同步失败");
            assert_eq!(message, "timeout");
        }
        _ => panic!("a failure is recorded"),
    }
    assert!(matches!(drive(&mut flow, SyncEvent::Done), SyncAction::Finish(None)));
}

#[test]
fn site_info_is_always_read_in_full() {
    let (mut flow, _) = SyncFlow::new(SyncSource::PrtsSiteInfo, SyncMode::Incremental);
    assert!(flow.requested_mode == SyncMode::Full);
    assert!(matches!(drive(&mut flow, SyncEvent::Done), SyncAction::FetchPayload));
}

#[test]
fn full_mode_never_reads_the_cursor_even_for_incremental_sources() {
    for source in [SyncSource::PrtsOperatorIndex, SyncSource::PrtsStageIndex, SyncSource::PrtsRecipeIndex, SyncSource::PenguinMatrix] {
        let (mut flow, _) = SyncFlow::new(source, SyncMode::Full);
        assert!(matches!(drive(&mut flow, SyncEvent::Done), SyncAction::FetchPayload));
    }
    let (mut flow, _) = SyncFlow::new(SyncSource::PrtsOperatorGrowth, SyncMode::Incremental);
    assert!(matches!(drive(&mut flow, SyncEvent::Done), SyncAction::FetchPayload));
}

fn recipe(output: &str, output_matches: Vec<ExternalItemNameMatchRecord>, level: i64, ingredients: Vec<(&str, Vec<ExternalItemNameMatchRecord>)>) -> RecipeNameMatches {
    RecipeNameMatches {
        output_name_zh: output.to_string(),
        workshop_level: level,
        output_matches,
        ingredients: ingredients
            .into_iter()
            .map(|(name, matches)| RecipeIngredientMatches { item_name_zh: name.to_string(), matches })
            .collect(),
    }
}

#[test]
fn recipe_rows_take_the_preferred_items_and_their_positions() {
    let recipes = vec![
        recipe("碳", vec![name_match("200008", true, None), name_match("3112", false, Some("200008"))], 1, vec![
            ("碳素", vec![name_match("3113", true, None)]),
            ("龙门币", vec![name_match("4001", true, None)]),
        ]),
        recipe("碳素组", vec![name_match("3114", true, None)], 2, vec![("碳素", vec![name_match("3113", true, None)])]),
    ];
    let rows = match plan_recipe_rows(&recipes) {
        Ok(rows) => rows,
        Err(message) => panic!("unexpected failure: {message}"),
    };
    assert_eq!(rows.len(), 2);
    assert_eq!(rows[0].recipe_index, 0);
    assert_eq!(rows[0].recipe_id, "workshop:200008:lv1:row1");
    assert_eq!(rows[0].output_item_id, "200008");
    assert_eq!(rows[0].ingredient_item_ids, vec!["3113".to_string(), "4001".to_string()]);
    assert_eq!(rows[1].recipe_id, "workshop:3114:lv2:row2");
}

#[test]
fn recipe_names_not_found_are_reported_sorted_once() {
    let recipes = vec![
        recipe("未知", Vec::new(), 1, vec![("也未知", Vec::new())]),
        recipe("碳", vec![name_match("200008", true, None)], 1, vec![("缺失", Vec::new()), ("缺失", Vec::new())]),
        recipe("未知", Vec::new(), 3, Vec::new()),
    ];
    assert_eq!(
        plan_recipe_rows(&recipes).err(),
        Some("产物 `未知` 未匹配到 item_id；原料 `缺失` 未匹配到 item_id".to_string())
    );
}

#[test]
fn recipe_resolution_stops_at_an_ambiguous_name() {
    let recipes = vec![
        recipe("未知", Vec::new(), 1, Vec::new()),
        recipe("碳", vec![name_match("200008", true, None)], 1, vec![(
            "双名",
            vec![name_match("a", false, None), name_match("b", false, None)],
        )]),
    ];
    assert_eq!(plan_recipe_rows(&recipes).err(), Some("道具 `双名` 匹配到多个 item_id: a, b".to_string()));
}

#[test]
fn penguin_rows_and_stages_as_stored() {
    let upsert = penguin_matrix_upsert(&row("main_01-07", "30012", 1556676000000, Some(1600000000000)), serde_json::Value::Null);
    assert_eq!(upsert.matrix_id, "main_01-07:30012:1556676000000:1600000000000");
    assert_eq!(upsert.sample_count, 100);
    assert_eq!(upsert.drop_count, 50);
    assert_eq!(upsert.window_start_at.as_deref(), Some("1556676000000"));
    assert_eq!(upsert.window_end_at.as_deref(), Some("1600000000000"));
    let open = penguin_matrix_upsert(&row("s", "i", 5, None), serde_json::Value::Null);
    assert_eq!(open.window_end_at, None);

    let closed = object(vec![("CN", object(vec![("exist", JsonValue::Bool(false))]))]);
    let stage = penguin_stage_upsert("main_01-07".to_string(), Some("main_1".to_string()), "1-7".to_string(), &closed, serde_json::Value::Null);
    assert!(!stage.is_open);
    assert_eq!(stage.code, "1-7");
}
