//! Synchronising the external sources into the local store: the modes, the
//! outcomes, the decisions of an incremental run (skip a source whose
//! cursor has not moved), the revisions recorded, and the choice among the
//! items that share a name.
use vstd::prelude::*;
use crate::json::{JsonValue, member_str, json_str_member, names_sorted, sort_strings};
use crate::skland::{dedup_sorted, strictly_sorted};
use crate::text::{join, join_strings, u64_to_decimal, decimal};
use crate::official::OfficialNoticeFeedEntry;
use crate::records::{AlertUpsert, RawSourceCacheSummary, SyncSourceStateRecord};
use crate::text::{i64_to_decimal, opt_view, push_char, seq_lt, signed_decimal, str_eq, str_lt, string_views};

verus! {

pub const OFFICIAL_NOTICE_SOURCE_ID: &'static str = "official.notice.cn";
pub const OFFICIAL_NOTICE_CACHE_KEY: &'static str = "official:notice:cn";
pub const PRTS_ITEM_INDEX_SOURCE_ID: &'static str = "prts.item-index.cn";
pub const PRTS_ITEM_INDEX_CACHE_KEY: &'static str = "prts:item-index:cn";
pub const PRTS_OPERATOR_INDEX_SOURCE_ID: &'static str = "prts.operator-index.cn";
pub const PRTS_OPERATOR_INDEX_CACHE_KEY: &'static str = "prts:operator-index:cn";
pub const PRTS_OPERATOR_GROWTH_SOURCE_ID: &'static str = "prts.operator-growth.cn";
pub const PRTS_OPERATOR_GROWTH_CACHE_KEY: &'static str = "prts:operator-growth:cn";
pub const PRTS_OPERATOR_BUILDING_SKILL_SOURCE_ID: &'static str = "prts.operator-building-skill.cn";
pub const PRTS_OPERATOR_BUILDING_SKILL_CACHE_KEY: &'static str = "prts:operator-building-skill:cn";
pub const PRTS_RECIPE_INDEX_SOURCE_ID: &'static str = "prts.recipe-index.cn";
pub const PRTS_RECIPE_INDEX_CACHE_KEY: &'static str = "prts:recipe-index:cn";
pub const PRTS_STAGE_INDEX_SOURCE_ID: &'static str = "prts.stage-index.cn";
pub const PRTS_STAGE_INDEX_CACHE_KEY: &'static str = "prts:stage-index:cn";
pub const PRTS_SITEINFO_SOURCE_ID: &'static str = "prts.siteinfo.general";
pub const PRTS_SITEINFO_CACHE_KEY: &'static str = "prts:siteinfo:general";
pub const PENGUIN_MATRIX_SOURCE_ID: &'static str = "penguin.matrix.cn";
pub const PENGUIN_MATRIX_CACHE_KEY: &'static str = "penguin:matrix:cn";

#[derive(Clone, Copy, Debug, PartialEq, Eq, Structural)]
pub enum SyncMode {
    Incremental,
    Full,
}

impl SyncMode {
    pub fn label_zh(self) -> (res: &'static str)
        ensures
            res@ == (match self {
                SyncMode::Incremental => "增量"@,
                SyncMode::Full => "全量"@,
            }),
    {
        match self {
            SyncMode::Incremental => "增量",
            SyncMode::Full => "全量",
        }
    }

    pub fn is_full(self) -> (res: bool)
        ensures
            res == (self == SyncMode::Full),
    {
        match self {
            SyncMode::Full => true,
            SyncMode::Incremental => false,
        }
    }
}

#[derive(Clone, Copy, Debug, PartialEq, Eq, Structural)]
pub enum SyncRunStatus {
    Updated,
    SkippedUnchanged,
}

impl SyncRunStatus {
    pub fn label_zh(self) -> (res: &'static str)
        ensures
            res@ == (match self {
                SyncRunStatus::Updated => "已更新"@,
                SyncRunStatus::SkippedUnchanged => "未变化，已跳过"@,
            }),
    {
        match self {
            SyncRunStatus::Updated => "已更新",
            SyncRunStatus::SkippedUnchanged => "未变化，已跳过",
        }
    }
}

pub struct SyncOfficialNoticeOutcome {
    pub source_id: String,
    pub cache_key: String,
    pub revision: String,
    pub cache_size_bytes: usize,
    pub row_count: usize,
    pub requested_mode: SyncMode,
    pub effective_mode: SyncMode,
    pub run_status: SyncRunStatus,
}

pub struct SyncPrtsSiteInfoOutcome {
    pub source_id: String,
    pub cache_key: String,
    pub revision: String,
    pub cache_size_bytes: usize,
    pub requested_mode: SyncMode,
    pub effective_mode: SyncMode,
    pub run_status: SyncRunStatus,
}

pub struct SyncPrtsOutcome {
    pub site_info: SyncPrtsSiteInfoOutcome,
    pub operator_index: SyncPrtsOperatorIndexOutcome,
    pub item_index: SyncPrtsItemIndexOutcome,
    pub stage_index: SyncPrtsStageIndexOutcome,
    pub recipe_index: SyncPrtsRecipeIndexOutcome,
}

pub struct SyncPrtsItemIndexOutcome {
    pub source_id: String,
    pub cache_key: String,
    pub revision: String,
    pub cache_size_bytes: usize,
    pub row_count: usize,
    pub requested_mode: SyncMode,
    pub effective_mode: SyncMode,
    pub run_status: SyncRunStatus,
}

pub struct SyncPrtsOperatorIndexOutcome {
    pub source_id: String,
    pub cache_key: String,
    pub revision: String,
    pub cache_size_bytes: usize,
    pub row_count: usize,
    pub requested_mode: SyncMode,
    pub effective_mode: SyncMode,
    pub run_status: SyncRunStatus,
}

pub struct SyncPrtsOperatorGrowthOutcome {
    pub source_id: String,
    pub cache_key: String,
    pub revision: String,
    pub cache_size_bytes: usize,
    pub row_count: usize,
    pub requested_mode: SyncMode,
    pub effective_mode: SyncMode,
    pub run_status: SyncRunStatus,
}

pub struct SyncPrtsOperatorBuildingSkillOutcome {
    pub source_id: String,
    pub cache_key: String,
    pub revision: String,
    pub cache_size_bytes: usize,
    pub row_count: usize,
    pub requested_mode: SyncMode,
    pub effective_mode: SyncMode,
    pub run_status: SyncRunStatus,
}

pub struct SyncPrtsStageIndexOutcome {
    pub source_id: String,
    pub cache_key: String,
    pub revision: String,
    pub cache_size_bytes: usize,
    pub row_count: usize,
    pub requested_mode: SyncMode,
    pub effective_mode: SyncMode,
    pub run_status: SyncRunStatus,
}

pub struct SyncPrtsRecipeIndexOutcome {
    pub source_id: String,
    pub cache_key: String,
    pub revision: String,
    pub cache_size_bytes: usize,
    pub row_count: usize,
    pub requested_mode: SyncMode,
    pub effective_mode: SyncMode,
    pub run_status: SyncRunStatus,
}

pub struct SyncPenguinMatrixOutcome {
    pub source_id: String,
    pub cache_key: String,
    pub revision: String,
    pub cache_size_bytes: usize,
    pub row_count: usize,
    pub requested_mode: SyncMode,
    pub effective_mode: SyncMode,
    pub run_status: SyncRunStatus,
}

/// The id of the alert that a source's failed run raises.
pub fn sync_failure_alert_id(source_id: &str) -> (res: String)
    ensures
        res@ == "sync-failure:"@ + source_id@,
{
    let mut s = "sync-failure:".to_string();
    s.append(source_id);
    s
}

/// The cursor of the Penguin matrix: the three `Last-Modified` headers,
/// where all three are there.
pub fn penguin_cursor_anchor(matrix: Option<&str>, stages: Option<&str>, items: Option<&str>) -> (res: Option<String>)
    ensures
        match (matrix, stages, items) {
            (Some(m), Some(s), Some(i)) => res matches Some(a) && a@ == "matrix="@ + m@ + "|stages="@ + s@
                + "|items="@ + i@,
            _ => res is None,
        },
{
    match (matrix, stages, items) {
        (Some(m), Some(s), Some(i)) => {
            let mut a = "matrix=".to_string();
            a.append(m);
            a.append("|stages=");
            a.append(s);
            a.append("|items=");
            a.append(i);
            Some(a)
        },
        _ => None,
    }
}

/// An incremental run may skip a source whose local rows exist, whose
/// recorded state holds the cursor just fetched, and whose cached payload is
/// there: it then reports the cached payload's size (a negative size counts
/// as none).
pub open spec fn skip_size(
    has_local_rows: bool,
    state: Option<SyncSourceStateRecord>,
    cache: Option<RawSourceCacheSummary>,
    expected_cursor: Seq<char>,
) -> Option<int> {
    match (state, cache) {
        (Some(st), Some(c)) => if has_local_rows && opt_view(st.cursor_value) == Some(expected_cursor) {
            Some(if c.payload_bytes < 0 {
                0
            } else {
                c.payload_bytes as int
            })
        } else {
            None
        },
        _ => None,
    }
}

/// Whether an incremental run skips the source, and with what cached size,
/// given the source's recorded state and the summary of its cached payload.
pub fn can_skip_unchanged_source(
    has_local_rows: bool,
    state: Option<&SyncSourceStateRecord>,
    cache: Option<&RawSourceCacheSummary>,
    expected_cursor: &str,
) -> (res: Option<u64>)
    ensures
        match skip_size(
            has_local_rows,
            match state {
                Some(st) => Some(*st),
                None => None,
            },
            match cache {
                Some(c) => Some(*c),
                None => None,
            },
            expected_cursor@,
        ) {
            Some(n) => res == Some(n as u64),
            None => res is None,
        },
{
    if !has_local_rows {
        return None;
    }
    let st = match state {
        Some(st) => st,
        None => {
            return None;
        },
    };
    let c = match cache {
        Some(c) => c,
        None => {
            return None;
        },
    };
    match &st.cursor_value {
        Some(v) => if str_eq(v.as_str(), expected_cursor) {
            Some(
                if c.payload_bytes < 0 {
                    0
                } else {
                    c.payload_bytes as u64
                },
            )
        } else {
            None
        },
        None => None,
    }
}

/// The alert that a failed run raises, or refreshes, under `alert_id`: an
/// active error of the sync-failure kind, with no payload.
pub fn sync_failure_alert<'a>(alert_id: &'a str, title: &'a str, message: &'a str) -> (res: AlertUpsert<'a>)
    ensures
        res.alert_id@ == alert_id@,
        res.alert_type@ == "sync_failure"@,
        res.severity@ == "error"@,
        res.title@ == title@,
        res.message@ == message@,
        res.status@ == "active"@,
        res.payload_json is None,
{
    AlertUpsert {
        alert_id,
        alert_type: "sync_failure",
        severity: "error",
        title,
        message,
        status: "active",
        payload_json: None,
    }
}

/// A drop-matrix row of Penguin Stats; the standard deviation is kept as
/// the bits of its `f64`.
pub struct PenguinMatrixRow {
    pub stage_id: String,
    pub item_id: String,
    pub times: i64,
    pub quantity: i64,
    pub std_dev: u64,
    pub start: i64,
    pub end: Option<i64>,
}

pub open spec fn row_window_end(row: PenguinMatrixRow) -> int {
    match row.end {
        Some(e) => e as int,
        None => row.start as int,
    }
}

/// The latest window end (or start, for open windows) of the rows; zero
/// without rows.
pub open spec fn max_window_end(rows: Seq<PenguinMatrixRow>) -> int
    decreases rows.len(),
{
    if rows.len() == 0 {
        0
    } else if rows.len() == 1 {
        row_window_end(rows[0])
    } else {
        let prev = max_window_end(rows.drop_last());
        let last = row_window_end(rows.last());
        if last > prev {
            last
        } else {
            prev
        }
    }
}

/// The revision of a drop matrix: its latest window end, in decimal.
pub fn matrix_revision(rows: &Vec<PenguinMatrixRow>) -> (res: String)
    ensures
        res@ == signed_decimal(max_window_end(rows@)),
{
    if rows.len() == 0 {
        return i64_to_decimal(0);
    }
    let mut best: i64 = match rows[0].end {
        Some(e) => e,
        None => rows[0].start,
    };
    let mut i: usize = 1;
    assert(rows@.take(1).len() == 1);
    while i < rows.len()
        invariant
            1 <= i <= rows@.len(),
            best == max_window_end(rows@.take(i as int)),
        decreases rows@.len() - i,
    {
        assert(rows@.take(i + 1).drop_last() =~= rows@.take(i as int));
        let v = match rows[i].end {
            Some(e) => e,
            None => rows[i].start,
        };
        if v > best {
            best = v;
        }
        i += 1;
    }
    assert(rows@.take(i as int) =~= rows@);
    i64_to_decimal(best)
}

/// The id of a drop-matrix row: stage, item, window start and end (zero
/// for open windows), joined by `:`.
pub fn penguin_matrix_id(row: &PenguinMatrixRow) -> (res: String)
    ensures
        res@ == row.stage_id@ + seq![':'] + row.item_id@ + seq![':'] + signed_decimal(row.start as int) + seq![':']
            + signed_decimal(
            match row.end {
                Some(e) => e as int,
                None => 0,
            },
        ),
{
    let mut s = row.stage_id.clone();
    push_char(&mut s, ':');
    s.append(row.item_id.as_str());
    push_char(&mut s, ':');
    let start = i64_to_decimal(row.start);
    s.append(start.as_str());
    push_char(&mut s, ':');
    let end = i64_to_decimal(
        match row.end {
            Some(e) => e,
            None => 0,
        },
    );
    s.append(end.as_str());
    s
}

/// A drop-matrix row as the store writes it, with its record as given.
pub struct PenguinMatrixUpsert {
    pub matrix_id: String,
    pub stage_id: String,
    pub item_id: String,
    pub sample_count: i64,
    pub drop_count: i64,
    pub window_start_at: Option<String>,
    pub window_end_at: Option<String>,
    pub raw_json: serde_json::Value,
}

/// A Penguin stage as the store writes it.
pub struct PenguinStageUpsert {
    pub stage_id: String,
    pub zone_id: Option<String>,
    pub code: String,
    pub is_open: bool,
    pub raw_json: serde_json::Value,
}

/// A Penguin item as the store writes it.
pub struct PenguinItemUpsert {
    pub item_id: String,
    pub name_zh: String,
    pub item_type: String,
    pub rarity: Option<i64>,
    pub raw_json: serde_json::Value,
}

/// The stored form of a drop-matrix row: its id, its counts, and its window
/// as decimal timestamps (no end for an open window).
pub fn penguin_matrix_upsert(row: &PenguinMatrixRow, raw_json: serde_json::Value) -> (res: PenguinMatrixUpsert)
    ensures
        res.matrix_id@ == row.stage_id@ + seq![':'] + row.item_id@ + seq![':'] + signed_decimal(row.start as int)
            + seq![':'] + signed_decimal(
            match row.end {
                Some(e) => e as int,
                None => 0,
            },
        ),
        res.stage_id@ == row.stage_id@,
        res.item_id@ == row.item_id@,
        res.sample_count == row.times,
        res.drop_count == row.quantity,
        opt_view(res.window_start_at) == Some(signed_decimal(row.start as int)),
        opt_view(res.window_end_at) == match row.end {
            Some(e) => Some(signed_decimal(e as int)),
            None => None,
        },
        res.raw_json == raw_json,
{
    PenguinMatrixUpsert {
        matrix_id: penguin_matrix_id(row),
        stage_id: row.stage_id.clone(),
        item_id: row.item_id.clone(),
        sample_count: row.times,
        drop_count: row.quantity,
        window_start_at: Some(i64_to_decimal(row.start)),
        window_end_at: match row.end {
            Some(e) => Some(i64_to_decimal(e)),
            None => None,
        },
        raw_json,
    }
}

/// The stored form of a Penguin stage: open unless its `existence` says
/// otherwise for the CN server.
pub fn penguin_stage_upsert(
    stage_id: String,
    zone_id: Option<String>,
    code: String,
    existence: &JsonValue,
    raw_json: serde_json::Value,
) -> (res: PenguinStageUpsert)
    ensures
        res.stage_id == stage_id,
        res.zone_id == zone_id,
        res.code == code,
        res.is_open == match crate::json::member(*existence, "CN"@) {
            Some(cn) => match crate::json::member_bool(cn, "exist"@) {
                Some(b) => b,
                None => true,
            },
            None => true,
        },
        res.raw_json == raw_json,
{
    let is_open = penguin_stage_is_open(existence);
    PenguinStageUpsert { stage_id, zone_id, code, is_open, raw_json }
}

/// Whether a Penguin stage is open on the CN server: its
/// `existence.CN.exist`, where that is a boolean; open otherwise.
pub fn penguin_stage_is_open(existence: &JsonValue) -> (res: bool)
    ensures
        res == match crate::json::member(*existence, "CN"@) {
            Some(cn) => match crate::json::member_bool(cn, "exist"@) {
                Some(b) => b,
                None => true,
            },
            None => true,
        },
{
    match existence {
        JsonValue::Object(_) => {},
        _ => {
            return true;
        },
    }
    let cn = crate::json::json_member(existence, "CN");
    match cn {
        Some(v) => match crate::json::json_bool_member(v, "exist") {
            Some(b) => b,
            None => true,
        },
        None => true,
    }
}

// ---------------------------------------------------------------------------
// revisions and ids

/// The greatest of the texts, in the order of strings.
pub open spec fn max_text(texts: Seq<Seq<char>>) -> Seq<char>
    decreases texts.len(),
{
    if texts.len() <= 1 {
        texts[0]
    } else {
        let prev = max_text(texts.drop_last());
        if seq_lt(texts.last(), prev) {
            prev
        } else {
            texts.last()
        }
    }
}

pub open spec fn published_times(notices: Seq<OfficialNoticeFeedEntry>) -> Seq<Seq<char>> {
    notices.map_values(|n: OfficialNoticeFeedEntry| n.published_at@)
}

/// The revision of the notice feed: its latest publication time.
pub fn latest_notice_revision(notices: &Vec<OfficialNoticeFeedEntry>) -> (res: Option<String>)
    ensures
        notices@.len() == 0 ==> res is None,
        notices@.len() > 0 ==> (res matches Some(r) && r@ == max_text(published_times(notices@))),
{
    if notices.len() == 0 {
        return None;
    }
    let mut best: usize = 0;
    let mut i: usize = 1;
    assert(published_times(notices@).take(1) =~= seq![notices@[0].published_at@]);
    while i < notices.len()
        invariant
            1 <= i <= notices@.len(),
            best < i,
            notices@[best as int].published_at@ == max_text(published_times(notices@).take(i as int)),
        decreases notices@.len() - i,
    {
        assert(published_times(notices@).take(i + 1).drop_last() =~= published_times(notices@).take(i as int));
        if !str_lt(notices[i].published_at.as_str(), notices[best].published_at.as_str()) {
            best = i;
        }
        i += 1;
    }
    assert(published_times(notices@).take(i as int) =~= published_times(notices@));
    Some(notices[best].published_at.clone())
}

/// An item that a name matches, as the store lists it.
pub struct ExternalItemNameMatchRecord {
    pub item_id: String,
    pub item_type: String,
    pub rarity: Option<i64>,
    pub has_prts_payload: bool,
    pub penguin_sort_id: Option<String>,
    pub penguin_group_id: Option<String>,
}

/// How strongly a match stands for its name: a PRTS definition counts
/// most; a Penguin sort id equal to the item id counts for it, another one
/// against it.
pub open spec fn match_score(m: ExternalItemNameMatchRecord) -> int {
    (if m.has_prts_payload {
        1000int
    } else {
        0int
    }) + match m.penguin_sort_id {
        Some(sort_id) => if sort_id@ == m.item_id@ {
            100int
        } else {
            -100int
        },
        None => 0int,
    }
}

/// A match whose Penguin sort id is its own item id.
pub open spec fn penguin_agrees(m: ExternalItemNameMatchRecord) -> bool {
    m.penguin_sort_id matches Some(s) && s@ == m.item_id@
}

/// A match whose Penguin sort id is another item's id.
pub open spec fn penguin_disagrees(m: ExternalItemNameMatchRecord) -> bool {
    m.penguin_sort_id matches Some(s) && s@ != m.item_id@
}

/// Law: the two signals of a match weigh independently. A PRTS definition
/// outweighs any Penguin evidence; between matches with the same PRTS
/// standing, a Penguin sort id equal to the item id beats a missing one,
/// which beats a different one; and matches with the same signals score
/// the same.
pub proof fn lemma_match_score_signals(a: ExternalItemNameMatchRecord, b: ExternalItemNameMatchRecord)
    ensures
        a.has_prts_payload && !b.has_prts_payload ==> match_score(a) > match_score(b),
        a.has_prts_payload == b.has_prts_payload && penguin_agrees(a) && !penguin_agrees(b) ==> match_score(a)
            > match_score(b),
        a.has_prts_payload == b.has_prts_payload && a.penguin_sort_id is None && penguin_disagrees(b) ==> match_score(
            a,
        ) > match_score(b),
        a.has_prts_payload == b.has_prts_payload && penguin_agrees(a) == penguin_agrees(b) && penguin_disagrees(a)
            == penguin_disagrees(b) ==> match_score(a) == match_score(b),
{
}

pub fn item_match_resolution_score(item_match: &ExternalItemNameMatchRecord) -> (res: i32)
    ensures
        res == match_score(*item_match),
{
    let mut score: i32 = 0;
    if item_match.has_prts_payload {
        score += 1000;
    }
    match &item_match.penguin_sort_id {
        Some(sort_id) => {
            if str_eq(sort_id.as_str(), item_match.item_id.as_str()) {
                score += 100;
            } else {
                score -= 100;
            }
        },
        None => {},
    }
    score
}

/// The match with the strictly highest score, where one has it.
pub open spec fn sole_best(matches: Seq<ExternalItemNameMatchRecord>, k: int) -> bool {
    0 <= k < matches.len() && forall|j: int|
        0 <= j < matches.len() && j != k ==> match_score(#[trigger] matches[j]) < match_score(matches[k])
}

pub open spec fn item_ids(matches: Seq<ExternalItemNameMatchRecord>) -> Seq<Seq<char>> {
    matches.map_values(|m: ExternalItemNameMatchRecord| m.item_id@)
}

/// The message when a name matches several items and none stands out.
pub open spec fn ambiguous_name_message(name: Seq<char>, matches: Seq<ExternalItemNameMatchRecord>) -> Seq<char> {
    "道具 `"@ + name + "` 匹配到多个 item_id: "@ + join(item_ids(matches), ", "@)
}

fn ids_of_matches(matches: &Vec<ExternalItemNameMatchRecord>) -> (res: Vec<String>)
    ensures
        string_views(res@) == item_ids(matches@),
{
    let mut out: Vec<String> = Vec::new();
    let mut i: usize = 0;
    while i < matches.len()
        invariant
            i <= matches@.len(),
            string_views(out@) == item_ids(matches@).take(i as int),
        decreases matches@.len() - i,
    {
        let ghost before = out@;
        out.push(matches[i].item_id.clone());
        assert(string_views(out@) =~= string_views(before).push(matches@[i as int].item_id@));
        assert(item_ids(matches@).take(i + 1) =~= item_ids(matches@).take(i as int).push(matches@[i as int].item_id@));
        i += 1;
    }
    assert(item_ids(matches@).take(i as int) =~= item_ids(matches@));
    out
}

/// Among the items a name matches, the one with the strictly highest
/// score; an error where the highest score is shared.
pub fn resolve_preferred_item_match(name_zh: &str, item_matches: &Vec<ExternalItemNameMatchRecord>) -> (res: Result<Option<String>, String>)
    ensures
        item_matches@.len() == 0 ==> res == Ok::<Option<String>, String>(None),
        item_matches@.len() > 0 ==> match res {
            Ok(Some(id)) => exists|k: int| sole_best(item_matches@, k) && #[trigger] item_matches@[k].item_id@ == id@,
            Ok(None) => false,
            Err(message) => (forall|k: int| !sole_best(item_matches@, k)) && message@ == ambiguous_name_message(
                name_zh@,
                item_matches@,
            ),
        },
{
    if item_matches.len() == 0 {
        return Ok(None);
    }
    let mut best: usize = 0;
    let mut best_score = item_match_resolution_score(&item_matches[0]);
    let mut tied = false;
    let mut i: usize = 1;
    while i < item_matches.len()
        invariant
            1 <= i <= item_matches@.len(),
            best < i,
            best_score == match_score(item_matches@[best as int]),
            forall|j: int| 0 <= j < i ==> match_score(#[trigger] item_matches@[j]) <= best_score,
            tied <==> exists|j: int| 0 <= j < i && j != best && match_score(#[trigger] item_matches@[j]) == best_score,
        decreases item_matches@.len() - i,
    {
        let score = item_match_resolution_score(&item_matches[i]);
        if score > best_score {
            best = i;
            best_score = score;
            tied = false;
            assert forall|j: int| 0 <= j < i + 1 && j != best implies match_score(#[trigger] item_matches@[j]) != best_score by {}
        } else if score == best_score {
            tied = true;
        }
        i += 1;
    }
    if !tied {
        assert(sole_best(item_matches@, best as int));
        let id = item_matches[best].item_id.clone();
        assert(item_matches@[best as int].item_id@ == id@);
        return Ok(Some(id));
    }
    proof {
        let j = choose|j: int| 0 <= j < item_matches@.len() && j != best && match_score(#[trigger] item_matches@[j]) == best_score;
        assert forall|k: int| !sole_best(item_matches@, k) by {
            if sole_best(item_matches@, k) {
                if k == best {
                    assert(match_score(item_matches@[j]) < match_score(item_matches@[k]));
                } else {
                    assert(match_score(item_matches@[best as int]) < match_score(item_matches@[k]));
                }
            }
        }
    }
    let ids = ids_of_matches(item_matches);
    let mut message = "道具 `".to_string();
    message.append(name_zh);
    message.append("` 匹配到多个 item_id: ");
    let joined = join_strings(ids.as_slice(), ", ");
    message.append(joined.as_str());
    Err(message)
}

/// What a name resolves to: nothing where it matches nothing, the item it
/// alone matches, the sole best of several, or else the ambiguity message.
pub open spec fn name_resolution(name: Seq<char>, matches: Seq<ExternalItemNameMatchRecord>) -> Result<Option<Seq<char>>, Seq<char>> {
    if matches.len() == 0 {
        Ok(None)
    } else if matches.len() == 1 {
        Ok(Some(matches[0].item_id@))
    } else if exists|k: int| sole_best(matches, k) {
        Ok(Some(matches[choose|k: int| sole_best(matches, k)].item_id@))
    } else {
        Err(ambiguous_name_message(name, matches))
    }
}

pub open spec fn resolution_view(r: Result<Option<String>, String>) -> Result<Option<Seq<char>>, Seq<char>> {
    match r {
        Ok(o) => Ok(opt_view(o)),
        Err(e) => Err(e@),
    }
}

proof fn lemma_sole_best_unique(matches: Seq<ExternalItemNameMatchRecord>, a: int, b: int)
    requires
        sole_best(matches, a),
        sole_best(matches, b),
    ensures
        a == b,
{
    if a != b {
        assert(match_score(matches[b]) < match_score(matches[a]));
        assert(match_score(matches[a]) < match_score(matches[b]));
    }
}

/// The item a recipe names: none where the name matches nothing, the one
/// it matches, or the preferred among several.
pub fn resolve_external_item_id(name_zh: &str, item_matches: &Vec<ExternalItemNameMatchRecord>) -> (res: Result<Option<String>, String>)
    ensures
        resolution_view(res) == name_resolution(name_zh@, item_matches@),
        item_matches@.len() == 0 ==> res == Ok::<Option<String>, String>(None),
        item_matches@.len() == 1 ==> (res matches Ok(Some(id)) && id@ == item_matches@[0].item_id@),
        item_matches@.len() > 1 ==> match res {
            Ok(Some(id)) => exists|k: int| sole_best(item_matches@, k) && #[trigger] item_matches@[k].item_id@ == id@,
            Ok(None) => false,
            Err(message) => (forall|k: int| !sole_best(item_matches@, k)) && message@ == ambiguous_name_message(
                name_zh@,
                item_matches@,
            ),
        },
{
    if item_matches.len() == 0 {
        Ok(None)
    } else if item_matches.len() == 1 {
        Ok(Some(item_matches[0].item_id.clone()))
    } else {
        let r = resolve_preferred_item_match(name_zh, item_matches);
        proof {
            if r is Ok && r->Ok_0 is Some {
                let id = r->Ok_0->Some_0;
                let k = choose|k: int| sole_best(item_matches@, k) && #[trigger] item_matches@[k].item_id@ == id@;
                let c = choose|k: int| sole_best(item_matches@, k);
                lemma_sole_best_unique(item_matches@, k, c);
            }
        }
        r
    }
}

/// The report of the recipe names that did not resolve: each message
/// once, sorted, joined by `；`.
pub fn recipe_resolution_report(failures: Vec<String>) -> (res: Option<String>)
    ensures
        failures@.len() == 0 ==> res is None,
        failures@.len() > 0 ==> (res matches Some(r) && exists|ms: Seq<Seq<char>>|
            strictly_sorted(ms) && (forall|x: Seq<char>| #[trigger] ms.contains(x) <==> string_views(failures@).contains(x))
                && r@ == join(ms, "；"@)),
{
    if failures.len() == 0 {
        return None;
    }
    let ghost given = string_views(failures@);
    let sorted = sort_strings(failures);
    proof {
        assert forall|x: Seq<char>| string_views(sorted@).contains(x) <==> given.contains(x) by {
            broadcast use vstd::seq_lib::group_to_multiset_ensures;

            assert(string_views(sorted@).to_multiset().count(x) == given.to_multiset().count(x));
        }
    }
    let unique = dedup_sorted(sorted);
    let r = join_strings(unique.as_slice(), "；");
    assert(strictly_sorted(string_views(unique@)));
    Some(r)
}

// ---------------------------------------------------------------------------
// the recipe rows

/// An ingredient's name and the items it matches.
pub struct RecipeIngredientMatches {
    pub item_name_zh: String,
    pub matches: Vec<ExternalItemNameMatchRecord>,
}

/// What the resolution of a recipe reads: its product's name and matches,
/// its workshop level, and each ingredient's name and matches.
pub struct RecipeNameMatches {
    pub output_name_zh: String,
    pub workshop_level: i64,
    pub output_matches: Vec<ExternalItemNameMatchRecord>,
    pub ingredients: Vec<RecipeIngredientMatches>,
}

/// A recipe whose product and ingredients all resolved: its position in
/// the index, its row id, and the items.
pub struct ResolvedRecipe {
    pub recipe_index: usize,
    pub recipe_id: String,
    pub output_item_id: String,
    pub ingredient_item_ids: Vec<String>,
}

pub open spec fn resolved_recipe_view(r: ResolvedRecipe) -> (int, Seq<char>, Seq<char>, Seq<Seq<char>>) {
    (r.recipe_index as int, r.recipe_id@, r.output_item_id@, string_views(r.ingredient_item_ids@))
}

pub open spec fn missing_output_message(name: Seq<char>) -> Seq<char> {
    "产物 `"@ + name + "` 未匹配到 item_id"@
}

pub open spec fn missing_ingredient_message(name: Seq<char>) -> Seq<char> {
    "原料 `"@ + name + "` 未匹配到 item_id"@
}

/// The row id of the recipe at `index` (counted from zero).
pub open spec fn recipe_row_id(output_item_id: Seq<char>, workshop_level: i64, index: int) -> Seq<char> {
    "workshop:"@ + output_item_id + ":lv"@ + signed_decimal(workshop_level as int) + ":row"@ + decimal((index + 1) as nat)
}

/// The first `n` ingredients resolved in order: the items found and the
/// names not found; the first ambiguity ends it.
pub open spec fn ingredients_resolution(ings: Seq<RecipeIngredientMatches>, n: int) -> Result<(Seq<Seq<char>>, Seq<Seq<char>>), Seq<char>>
    decreases n,
{
    if n <= 0 {
        Ok((seq![], seq![]))
    } else {
        match ingredients_resolution(ings, n - 1) {
            Err(m) => Err(m),
            Ok((ids, fails)) => match name_resolution(ings[n - 1].item_name_zh@, ings[n - 1].matches@) {
                Err(m) => Err(m),
                Ok(Some(id)) => Ok((ids.push(id), fails)),
                Ok(None) => Ok((ids, fails.push(missing_ingredient_message(ings[n - 1].item_name_zh@)))),
            },
        }
    }
}

/// The first `n` recipes resolved in order: the rows written and the names
/// not found. A recipe whose product is not found is skipped without its
/// ingredients; one with an ingredient not found is not written; the first
/// ambiguity ends it.
pub open spec fn recipes_plan(recipes: Seq<RecipeNameMatches>, n: int) -> Result<(Seq<(int, Seq<char>, Seq<char>, Seq<Seq<char>>)>, Seq<Seq<char>>), Seq<char>>
    decreases n,
{
    if n <= 0 {
        Ok((seq![], seq![]))
    } else {
        match recipes_plan(recipes, n - 1) {
            Err(m) => Err(m),
            Ok((rows, fails)) => {
                let r = recipes[n - 1];
                match name_resolution(r.output_name_zh@, r.output_matches@) {
                    Err(m) => Err(m),
                    Ok(None) => Ok((rows, fails.push(missing_output_message(r.output_name_zh@)))),
                    Ok(Some(out)) => match ingredients_resolution(r.ingredients@, r.ingredients@.len() as int) {
                        Err(m) => Err(m),
                        Ok((ids, ifails)) => if ifails.len() == 0 {
                            Ok((rows.push((n - 1, recipe_row_id(out, r.workshop_level, n - 1), out, ids)), fails))
                        } else {
                            Ok((rows, fails + ifails))
                        },
                    },
                }
            },
        }
    }
}

proof fn lemma_ingredients_error_stays(ings: Seq<RecipeIngredientMatches>, k: int, n: int)
    requires
        0 <= k <= n,
        ingredients_resolution(ings, k) is Err,
    ensures
        ingredients_resolution(ings, n) == ingredients_resolution(ings, k),
    decreases n - k,
{
    if k < n {
        lemma_ingredients_error_stays(ings, k, n - 1);
    }
}

proof fn lemma_recipes_error_stays(recipes: Seq<RecipeNameMatches>, k: int, n: int)
    requires
        0 <= k <= n,
        recipes_plan(recipes, k) is Err,
    ensures
        recipes_plan(recipes, n) == recipes_plan(recipes, k),
    decreases n - k,
{
    if k < n {
        lemma_recipes_error_stays(recipes, k, n - 1);
    }
}

/// `text` reports the failures: each message once, sorted, joined by `；`.
pub open spec fn is_failure_report(fails: Seq<Seq<char>>, text: Seq<char>) -> bool {
    exists|ms: Seq<Seq<char>>|
        strictly_sorted(ms) && (forall|x: Seq<char>| #[trigger] ms.contains(x) <==> fails.contains(x)) && text == join(
            ms,
            "；"@,
        )
}

fn message_for(prefix: &str, name: &str) -> (res: String)
    ensures
        res@ == prefix@ + name@ + "` 未匹配到 item_id"@,
{
    let mut m = prefix.to_string();
    m.append(name);
    m.append("` 未匹配到 item_id");
    m
}

fn resolve_ingredients(ings: &Vec<RecipeIngredientMatches>) -> (res: Result<(Vec<String>, Vec<String>), String>)
    ensures
        match ingredients_resolution(ings@, ings@.len() as int) {
            Err(m) => res matches Err(e) && e@ == m,
            Ok((ids, fails)) => res matches Ok((v, f)) && string_views(v@) == ids && string_views(f@) == fails,
        },
{
    let mut ids: Vec<String> = Vec::new();
    let mut fails: Vec<String> = Vec::new();
    let mut j: usize = 0;
    assert(string_views(ids@) =~= Seq::<Seq<char>>::empty());
    assert(string_views(fails@) =~= Seq::<Seq<char>>::empty());
    while j < ings.len()
        invariant
            j <= ings@.len(),
            ingredients_resolution(ings@, j as int) == Ok::<(Seq<Seq<char>>, Seq<Seq<char>>), Seq<char>>(
                (string_views(ids@), string_views(fails@)),
            ),
        decreases ings@.len() - j,
    {
        let ing = &ings[j];
        let r = resolve_external_item_id(ing.item_name_zh.as_str(), &ing.matches);
        match r {
            Err(e) => {
                proof {
                    lemma_ingredients_error_stays(ings@, j + 1, ings@.len() as int);
                }
                return Err(e);
            },
            Ok(Some(id)) => {
                let ghost before = ids@;
                ids.push(id);
                assert(string_views(ids@) =~= string_views(before).push(ids@.last()@));
            },
            Ok(None) => {
                let ghost before = fails@;
                let m = message_for("原料 `", ing.item_name_zh.as_str());
                fails.push(m);
                proof {
                    reveal_strlit("原料 `");
                    assert(string_views(fails@) =~= string_views(before).push(fails@.last()@));
                }
            },
        }
        j += 1;
    }
    Ok((ids, fails))
}

fn recipe_row_id_text(output_item_id: &str, workshop_level: i64, index: usize) -> (res: String)
    requires
        index < usize::MAX,
    ensures
        res@ == recipe_row_id(output_item_id@, workshop_level, index as int),
{
    let mut s = "workshop:".to_string();
    s.append(output_item_id);
    s.append(":lv");
    let level = i64_to_decimal(workshop_level);
    s.append(level.as_str());
    s.append(":row");
    let n = u64_to_decimal((index + 1) as u64);
    s.append(n.as_str());
    s
}

/// The rows that a recipe index writes, from the items that each name
/// matches: fails with the first ambiguity, or with the report of the names
/// not found where there are any.
pub fn plan_recipe_rows(recipes: &Vec<RecipeNameMatches>) -> (res: Result<Vec<ResolvedRecipe>, String>)
    ensures
        match recipes_plan(recipes@, recipes@.len() as int) {
            Err(m) => res matches Err(e) && e@ == m,
            Ok((rows, fails)) => if fails.len() == 0 {
                res matches Ok(v) && v@.map_values(|r: ResolvedRecipe| resolved_recipe_view(r)) == rows
            } else {
                res matches Err(e) && is_failure_report(fails, e@)
            },
        },
{
    let mut rows: Vec<ResolvedRecipe> = Vec::new();
    let mut fails: Vec<String> = Vec::new();
    let mut i: usize = 0;
    assert(rows@.map_values(|r: ResolvedRecipe| resolved_recipe_view(r)) =~= Seq::<
        (int, Seq<char>, Seq<char>, Seq<Seq<char>>),
    >::empty());
    assert(string_views(fails@) =~= Seq::<Seq<char>>::empty());
    while i < recipes.len()
        invariant
            i <= recipes@.len(),
            recipes_plan(recipes@, i as int) == Ok::<
                (Seq<(int, Seq<char>, Seq<char>, Seq<Seq<char>>)>, Seq<Seq<char>>),
                Seq<char>,
            >((rows@.map_values(|r: ResolvedRecipe| resolved_recipe_view(r)), string_views(fails@))),
        decreases recipes@.len() - i,
    {
        let recipe = &recipes[i];
        let out = resolve_external_item_id(recipe.output_name_zh.as_str(), &recipe.output_matches);
        match out {
            Err(e) => {
                proof {
                    lemma_recipes_error_stays(recipes@, i + 1, recipes@.len() as int);
                }
                return Err(e);
            },
            Ok(None) => {
                let ghost before = fails@;
                let m = message_for("产物 `", recipe.output_name_zh.as_str());
                fails.push(m);
                proof {
                    reveal_strlit("产物 `");
                    assert(string_views(fails@) =~= string_views(before).push(fails@.last()@));
                }
            },
            Ok(Some(out_id)) => {
                let ings = resolve_ingredients(&recipe.ingredients);
                match ings {
                    Err(e) => {
                        proof {
                            lemma_recipes_error_stays(recipes@, i + 1, recipes@.len() as int);
                        }
                        return Err(e);
                    },
                    Ok((ids, ing_fails)) => {
                        if ing_fails.len() == 0 {
                            let ghost before = rows@;
                            let recipe_id = recipe_row_id_text(out_id.as_str(), recipe.workshop_level, i);
                            rows.push(
                                ResolvedRecipe { recipe_index: i, recipe_id, output_item_id: out_id, ingredient_item_ids: ids },
                            );
                            assert(rows@.map_values(|r: ResolvedRecipe| resolved_recipe_view(r)) =~= before.map_values(
                                |r: ResolvedRecipe| resolved_recipe_view(r),
                            ).push(resolved_recipe_view(rows@.last())));
                        } else {
                            let ghost before = fails@;
                            let mut extra = ing_fails;
                            fails.append(&mut extra);
                            assert(string_views(fails@) =~= string_views(before) + string_views(ing_fails@));
                        }
                    },
                }
            },
        }
        i += 1;
    }
    if fails.len() == 0 {
        Ok(rows)
    } else {
        match recipe_resolution_report(fails) {
            Some(r) => Err(r),
            None => Err(String::new()),
        }
    }
}

/// The id of an operator growth row: operator, stage key and material slot
/// key (as the row's JSON names them), joined by `:`.
pub fn operator_growth_id(operator_id: &str, raw_json: &JsonValue) -> (res: String)
    ensures
        res@ == operator_id@ + seq![':'] + match member_str(*raw_json, "stage_key"@) {
            Some(k) => k,
            None => "unknown-stage"@,
        } + seq![':'] + match member_str(*raw_json, "material_slot_key"@) {
            Some(k) => k,
            None => "unknown-slot"@,
        },
{
    let stage_key = match json_str_member(raw_json, "stage_key") {
        Some(k) => k,
        None => "unknown-stage".to_string(),
    };
    let slot_key = match json_str_member(raw_json, "material_slot_key") {
        Some(k) => k,
        None => "unknown-slot".to_string(),
    };
    let mut s = operator_id.to_string();
    push_char(&mut s, ':');
    s.append(stage_key.as_str());
    push_char(&mut s, ':');
    s.append(slot_key.as_str());
    s
}

/// The id of the `index`-th base skill row (counted from zero): operator,
/// condition key and room type key (as the row's JSON names them; the room
/// type itself where it names none) and the row number.
pub fn operator_building_skill_id(operator_id: &str, raw_json: &JsonValue, room_type: &str, index: usize) -> (res: String)
    requires
        index < usize::MAX,
    ensures
        res@ == operator_id@ + seq![':'] + match member_str(*raw_json, "condition_key"@) {
            Some(k) => k,
            None => "unknown-condition"@,
        } + seq![':'] + match member_str(*raw_json, "room_type_key"@) {
            Some(k) => k,
            None => room_type@,
        } + ":row"@ + decimal((index + 1) as nat),
{
    let condition_key = match json_str_member(raw_json, "condition_key") {
        Some(k) => k,
        None => "unknown-condition".to_string(),
    };
    let room_key = match json_str_member(raw_json, "room_type_key") {
        Some(k) => k,
        None => room_type.to_string(),
    };
    let mut s = operator_id.to_string();
    push_char(&mut s, ':');
    s.append(condition_key.as_str());
    push_char(&mut s, ':');
    s.append(room_key.as_str());
    s.append(":row");
    let n = u64_to_decimal((index + 1) as u64);
    s.append(n.as_str());
    s
}

// ---------------------------------------------------------------------------
// the run of a source

#[derive(Clone, Copy, Debug, PartialEq, Eq, Structural)]
pub enum SyncSource {
    OfficialNotice,
    PrtsSiteInfo,
    PrtsItemIndex,
    PrtsOperatorIndex,
    PrtsOperatorGrowth,
    PrtsOperatorBuildingSkill,
    PrtsStageIndex,
    PrtsRecipeIndex,
    PenguinMatrix,
}

impl SyncSource {
    pub open spec fn id_spec(self) -> Seq<char> {
        match self {
            SyncSource::OfficialNotice => OFFICIAL_NOTICE_SOURCE_ID@,
            SyncSource::PrtsSiteInfo => PRTS_SITEINFO_SOURCE_ID@,
            SyncSource::PrtsItemIndex => PRTS_ITEM_INDEX_SOURCE_ID@,
            SyncSource::PrtsOperatorIndex => PRTS_OPERATOR_INDEX_SOURCE_ID@,
            SyncSource::PrtsOperatorGrowth => PRTS_OPERATOR_GROWTH_SOURCE_ID@,
            SyncSource::PrtsOperatorBuildingSkill => PRTS_OPERATOR_BUILDING_SKILL_SOURCE_ID@,
            SyncSource::PrtsStageIndex => PRTS_STAGE_INDEX_SOURCE_ID@,
            SyncSource::PrtsRecipeIndex => PRTS_RECIPE_INDEX_SOURCE_ID@,
            SyncSource::PenguinMatrix => PENGUIN_MATRIX_SOURCE_ID@,
        }
    }

    pub fn source_id(self) -> (res: &'static str)
        ensures
            res@ == self.id_spec(),
    {
        match self {
            SyncSource::OfficialNotice => OFFICIAL_NOTICE_SOURCE_ID,
            SyncSource::PrtsSiteInfo => PRTS_SITEINFO_SOURCE_ID,
            SyncSource::PrtsItemIndex => PRTS_ITEM_INDEX_SOURCE_ID,
            SyncSource::PrtsOperatorIndex => PRTS_OPERATOR_INDEX_SOURCE_ID,
            SyncSource::PrtsOperatorGrowth => PRTS_OPERATOR_GROWTH_SOURCE_ID,
            SyncSource::PrtsOperatorBuildingSkill => PRTS_OPERATOR_BUILDING_SKILL_SOURCE_ID,
            SyncSource::PrtsStageIndex => PRTS_STAGE_INDEX_SOURCE_ID,
            SyncSource::PrtsRecipeIndex => PRTS_RECIPE_INDEX_SOURCE_ID,
            SyncSource::PenguinMatrix => PENGUIN_MATRIX_SOURCE_ID,
        }
    }

    pub open spec fn cache_key_spec(self) -> Seq<char> {
        match self {
            SyncSource::OfficialNotice => OFFICIAL_NOTICE_CACHE_KEY@,
            SyncSource::PrtsSiteInfo => PRTS_SITEINFO_CACHE_KEY@,
            SyncSource::PrtsItemIndex => PRTS_ITEM_INDEX_CACHE_KEY@,
            SyncSource::PrtsOperatorIndex => PRTS_OPERATOR_INDEX_CACHE_KEY@,
            SyncSource::PrtsOperatorGrowth => PRTS_OPERATOR_GROWTH_CACHE_KEY@,
            SyncSource::PrtsOperatorBuildingSkill => PRTS_OPERATOR_BUILDING_SKILL_CACHE_KEY@,
            SyncSource::PrtsStageIndex => PRTS_STAGE_INDEX_CACHE_KEY@,
            SyncSource::PrtsRecipeIndex => PRTS_RECIPE_INDEX_CACHE_KEY@,
            SyncSource::PenguinMatrix => PENGUIN_MATRIX_CACHE_KEY@,
        }
    }

    pub fn cache_key(self) -> (res: &'static str)
        ensures
            res@ == self.cache_key_spec(),
    {
        match self {
            SyncSource::OfficialNotice => OFFICIAL_NOTICE_CACHE_KEY,
            SyncSource::PrtsSiteInfo => PRTS_SITEINFO_CACHE_KEY,
            SyncSource::PrtsItemIndex => PRTS_ITEM_INDEX_CACHE_KEY,
            SyncSource::PrtsOperatorIndex => PRTS_OPERATOR_INDEX_CACHE_KEY,
            SyncSource::PrtsOperatorGrowth => PRTS_OPERATOR_GROWTH_CACHE_KEY,
            SyncSource::PrtsOperatorBuildingSkill => PRTS_OPERATOR_BUILDING_SKILL_CACHE_KEY,
            SyncSource::PrtsStageIndex => PRTS_STAGE_INDEX_CACHE_KEY,
            SyncSource::PrtsRecipeIndex => PRTS_RECIPE_INDEX_CACHE_KEY,
            SyncSource::PenguinMatrix => PENGUIN_MATRIX_CACHE_KEY,
        }
    }

    pub open spec fn failure_title_spec(self) -> Seq<char> {
        match self {
            SyncSource::OfficialNotice => "官方公告同步失败"@,
            SyncSource::PrtsSiteInfo => "PRTS 同步失败"@,
            SyncSource::PrtsItemIndex => "PRTS 道具索引同步失败"@,
            SyncSource::PrtsOperatorIndex => "PRTS 干员索引同步失败"@,
            SyncSource::PrtsOperatorGrowth => "PRTS 养成需求同步失败"@,
            SyncSource::PrtsOperatorBuildingSkill => "PRTS 基建技能同步失败"@,
            SyncSource::PrtsStageIndex => "PRTS 关卡索引同步失败"@,
            SyncSource::PrtsRecipeIndex => "PRTS 配方同步失败"@,
            SyncSource::PenguinMatrix => "Penguin 同步失败"@,
        }
    }

    /// The title of the alert that a failed run raises.
    pub fn failure_title(self) -> (res: &'static str)
        ensures
            res@ == self.failure_title_spec(),
    {
        match self {
            SyncSource::OfficialNotice => "官方公告同步失败",
            SyncSource::PrtsSiteInfo => "PRTS 同步失败",
            SyncSource::PrtsItemIndex => "PRTS 道具索引同步失败",
            SyncSource::PrtsOperatorIndex => "PRTS 干员索引同步失败",
            SyncSource::PrtsOperatorGrowth => "PRTS 养成需求同步失败",
            SyncSource::PrtsOperatorBuildingSkill => "PRTS 基建技能同步失败",
            SyncSource::PrtsStageIndex => "PRTS 关卡索引同步失败",
            SyncSource::PrtsRecipeIndex => "PRTS 配方同步失败",
            SyncSource::PenguinMatrix => "Penguin 同步失败",
        }
    }

    pub open spec fn source_name_spec(self) -> Seq<char> {
        match self {
            SyncSource::OfficialNotice => "official"@,
            SyncSource::PenguinMatrix => "penguin"@,
            _ => "prts"@,
        }
    }

    /// The name under which the source's payload is cached.
    pub fn source_name(self) -> (res: &'static str)
        ensures
            res@ == self.source_name_spec(),
    {
        match self {
            SyncSource::OfficialNotice => "official",
            SyncSource::PenguinMatrix => "penguin",
            _ => "prts",
        }
    }

    /// The sources that an incremental run may skip.
    pub open spec fn incremental(self) -> bool {
        self is PrtsItemIndex || self is PrtsOperatorIndex || self is PrtsStageIndex || self is PrtsRecipeIndex
            || self is PenguinMatrix
    }
}

#[derive(Clone, Copy, Debug, PartialEq, Eq, Structural)]
pub enum SyncPhase {
    AwaitAttempt,
    AwaitCursor,
    AwaitLocalState,
    AwaitSkip,
    AwaitPayload,
    AwaitStore,
    AwaitSuccessCursor,
    AwaitSuccess,
    AwaitFailure,
    Finished,
}

/// What the caller reports after performing the action it was given.
pub enum SyncEvent {
    /// The action was performed.
    Done,
    /// The cursor of the source: a revision, or the Penguin anchor.
    Cursor(Option<String>),
    /// What the store holds of the source.
    LocalState { row_count: i64, state: Option<SyncSourceStateRecord>, cache: Option<RawSourceCacheSummary> },
    /// The payload was fetched: its revision, size and rows.
    Payload { revision: Option<String>, cache_size_bytes: usize, row_count: usize },
    /// Fetching or preparing the payload failed.
    Failed { message: String },
    /// The payload was stored; the store now holds this many rows.
    Stored { stored_row_count: i64 },
}

pub struct SyncOutcome {
    pub source_id: String,
    pub cache_key: String,
    pub revision: String,
    pub cache_size_bytes: usize,
    pub row_count: usize,
    pub requested_mode: SyncMode,
    pub effective_mode: SyncMode,
    pub run_status: SyncRunStatus,
}

/// What the caller does next.
pub enum SyncAction {
    RecordAttempt { source_id: String },
    FetchCursor,
    ReadLocalState,
    /// Record a success with the unchanged cursor and resolve the alert.
    RecordSkip { source_id: String, cursor: String, alert_id: String },
    FetchPayload,
    /// Record the failure and raise the alert.
    RecordFailure { source_id: String, alert_id: String, title: String, message: String },
    /// Cache the payload under the source's cache key and name, and write
    /// its rows.
    Store { cache_key: String, source_name: String, revision: Option<String> },
    FetchSuccessCursor,
    /// Record the success with this cursor and resolve the alert.
    RecordSuccess { source_id: String, cursor: Option<String>, alert_id: String },
    Finish(Option<SyncOutcome>),
}

pub struct SyncFlow {
    pub source: SyncSource,
    pub requested_mode: SyncMode,
    pub phase: SyncPhase,
    pub cursor: Option<String>,
    pub skip_outcome_revision: Option<String>,
    pub skip_size: u64,
    pub skip_rows: i64,
    pub payload_revision: Option<String>,
    pub payload_size: usize,
    pub payload_rows: usize,
    pub stored_rows: i64,
}

/// The revision that a skipped run reports: the cached payload's revision
/// for Penguin ("unknown" where it has none), the cursor for the others.
pub open spec fn skip_revision(source: SyncSource, cache: Option<RawSourceCacheSummary>, cursor: Seq<char>) -> Seq<char> {
    if source is PenguinMatrix {
        match cache {
            Some(c) => match opt_view(c.revision) {
                Some(r) => r,
                None => "unknown"@,
            },
            None => "unknown"@,
        }
    } else {
        cursor
    }
}

pub open spec fn effective_update_mode(source: SyncSource, requested: SyncMode) -> SyncMode {
    if source.incremental() {
        requested
    } else {
        SyncMode::Full
    }
}

/// The phase that a flow in `f`'s phase moves to on `event`: the run reads
/// the cursor only where it is incremental, skips exactly where
/// `skip_size` allows, records a failure before it ends, fetches the
/// Penguin anchor again only in an incremental Penguin run, and ends on any
/// event that its phase does not expect.
pub open spec fn next_phase(f: SyncFlow, event: SyncEvent) -> SyncPhase {
    match f.phase {
        SyncPhase::AwaitAttempt => if event is Done {
            if f.requested_mode == SyncMode::Incremental && f.source.incremental() {
                SyncPhase::AwaitCursor
            } else {
                SyncPhase::AwaitPayload
            }
        } else {
            SyncPhase::Finished
        },
        SyncPhase::AwaitCursor => match event {
            SyncEvent::Cursor(Some(_)) => SyncPhase::AwaitLocalState,
            SyncEvent::Cursor(None) => SyncPhase::AwaitPayload,
            _ => SyncPhase::Finished,
        },
        SyncPhase::AwaitLocalState => match event {
            SyncEvent::LocalState { row_count, state, cache } => if skip_size(
                row_count > 0,
                state,
                cache,
                opt_view(f.cursor)->Some_0,
            ) is Some {
                SyncPhase::AwaitSkip
            } else {
                SyncPhase::AwaitPayload
            },
            _ => SyncPhase::Finished,
        },
        SyncPhase::AwaitPayload => match event {
            SyncEvent::Payload { .. } => SyncPhase::AwaitStore,
            SyncEvent::Failed { .. } => SyncPhase::AwaitFailure,
            _ => SyncPhase::Finished,
        },
        SyncPhase::AwaitStore => match event {
            SyncEvent::Stored { .. } => if f.source is PenguinMatrix && f.requested_mode == SyncMode::Incremental {
                SyncPhase::AwaitSuccessCursor
            } else {
                SyncPhase::AwaitSuccess
            },
            SyncEvent::Failed { .. } => SyncPhase::AwaitFailure,
            _ => SyncPhase::Finished,
        },
        SyncPhase::AwaitSuccessCursor => if event is Cursor {
            SyncPhase::AwaitSuccess
        } else {
            SyncPhase::Finished
        },
        _ => SyncPhase::Finished,
    }
}

impl SyncFlow {
    /// The phases that read the cursor belong to incremental runs of the
    /// sources that support them; each phase holds what it needs.
    pub open spec fn wf(self) -> bool {
        &&& (self.phase == SyncPhase::AwaitCursor || self.phase == SyncPhase::AwaitLocalState || self.phase
            == SyncPhase::AwaitSkip) ==> self.requested_mode == SyncMode::Incremental && self.source.incremental()
        &&& self.phase == SyncPhase::AwaitSuccessCursor ==> self.source is PenguinMatrix && self.requested_mode
            == SyncMode::Incremental
        &&& self.phase == SyncPhase::AwaitLocalState ==> self.cursor is Some
        &&& self.phase == SyncPhase::AwaitSkip ==> self.skip_outcome_revision is Some
        &&& self.source is PrtsSiteInfo ==> self.requested_mode == SyncMode::Full
    }

    /// A run of `source` in the requested mode (the site info is always read
    /// in full). Its first action records the attempt.
    pub fn new(source: SyncSource, requested_mode: SyncMode) -> (res: (SyncFlow, SyncAction))
        ensures
            res.0.wf(),
            res.0.phase == SyncPhase::AwaitAttempt,
            res.0.source == source,
            res.0.requested_mode == (if source is PrtsSiteInfo {
                SyncMode::Full
            } else {
                requested_mode
            }),
            res.1 matches SyncAction::RecordAttempt { source_id } && source_id@ == source.id_spec(),
    {
        let mode = match source {
            SyncSource::PrtsSiteInfo => SyncMode::Full,
            _ => requested_mode,
        };
        (
            SyncFlow {
                source,
                requested_mode: mode,
                phase: SyncPhase::AwaitAttempt,
                cursor: None,
                skip_outcome_revision: None,
                skip_size: 0,
                skip_rows: 0,
                payload_revision: None,
                payload_size: 0,
                payload_rows: 0,
                stored_rows: 0,
            },
            SyncAction::RecordAttempt { source_id: source.source_id().to_string() },
        )
    }

    fn incremental_source(&self) -> (res: bool)
        ensures
            res == self.source.incremental(),
    {
        match self.source {
            SyncSource::PrtsItemIndex | SyncSource::PrtsOperatorIndex | SyncSource::PrtsStageIndex
            | SyncSource::PrtsRecipeIndex | SyncSource::PenguinMatrix => true,
            _ => false,
        }
    }

    fn failure(&mut self, message: String) -> (res: SyncAction)
        requires
            old(self).wf(),
        ensures
            final(self).wf(),
            final(self).phase == SyncPhase::AwaitFailure,
            final(self).source == old(self).source,
            final(self).requested_mode == old(self).requested_mode,
            final(self).cursor == old(self).cursor,
            final(self).skip_outcome_revision == old(self).skip_outcome_revision,
            final(self).skip_size == old(self).skip_size,
            final(self).skip_rows == old(self).skip_rows,
            final(self).payload_revision == old(self).payload_revision,
            final(self).payload_size == old(self).payload_size,
            final(self).payload_rows == old(self).payload_rows,
            final(self).stored_rows == old(self).stored_rows,
            res matches SyncAction::RecordFailure { source_id, alert_id, title, message: m } && source_id@
                == old(self).source.id_spec() && alert_id@ == "sync-failure:"@ + old(self).source.id_spec() && title@
                == old(self).source.failure_title_spec() && m@ == message@,
    {
        self.phase = SyncPhase::AwaitFailure;
        SyncAction::RecordFailure {
            source_id: self.source.source_id().to_string(),
            alert_id: sync_failure_alert_id(self.source.source_id()),
            title: self.source.failure_title().to_string(),
            message,
        }
    }

    /// Takes the event that answers the last action and gives the next
    /// action. An incremental run of a source that supports it reads the
    /// cursor and the local state first and skips the source where
    /// `skip_size` allows; a failure is always recorded, with its alert,
    /// before the run ends; a successful run records the payload's revision
    /// as the cursor (the Penguin anchor, fetched again, in an incremental
    /// run). An event that the phase does not expect ends the run without
    /// an outcome.
    pub fn step(&mut self, event: SyncEvent) -> (res: SyncAction)
        requires
            old(self).wf(),
        ensures
            final(self).wf(),
            final(self).source == old(self).source,
            final(self).requested_mode == old(self).requested_mode,
            final(self).phase == next_phase(*old(self), event),
            // what a step keeps: the cursor changes only when it is read, the
            // skip only when it is decided, the payload only when it comes,
            // the stored rows only when they are reported
            if old(self).phase == SyncPhase::AwaitCursor && event is Cursor && event->Cursor_0 is Some {
                opt_view(final(self).cursor) == opt_view(event->Cursor_0)
            } else {
                opt_view(final(self).cursor) == opt_view(old(self).cursor)
            },
            !(old(self).phase == SyncPhase::AwaitLocalState && next_phase(*old(self), event) == SyncPhase::AwaitSkip)
                ==> final(self).skip_size == old(self).skip_size && final(self).skip_rows == old(self).skip_rows
                && opt_view(final(self).skip_outcome_revision) == opt_view(old(self).skip_outcome_revision),
            !(old(self).phase == SyncPhase::AwaitPayload && event is Payload) ==> opt_view(final(self).payload_revision)
                == opt_view(old(self).payload_revision) && final(self).payload_size == old(self).payload_size
                && final(self).payload_rows == old(self).payload_rows,
            if old(self).phase == SyncPhase::AwaitStore && event is Stored {
                final(self).stored_rows == event->stored_row_count
            } else {
                final(self).stored_rows == old(self).stored_rows
            },
            // a read cursor is compared with the local state; without one the
            // payload is fetched
            old(self).phase == SyncPhase::AwaitCursor && event is Cursor ==> if event->Cursor_0 is Some {
                res is ReadLocalState
            } else {
                res is FetchPayload
            },
            // a step that ends the run without an outcome says so
            final(self).phase == SyncPhase::Finished && !(old(self).phase == SyncPhase::AwaitSkip && event is Done)
                && !(old(self).phase == SyncPhase::AwaitSuccess && event is Done) ==> res matches SyncAction::Finish(
                None,
            ),
            // a full run never looks at the cursor and never skips
            old(self).requested_mode == SyncMode::Full && old(self).phase != SyncPhase::AwaitSuccessCursor ==> !(res
                is FetchCursor) && !(res is ReadLocalState) && !(res is RecordSkip),
            old(self).requested_mode == SyncMode::Full ==> !(res is FetchSuccessCursor),
            // only sources that support it are skipped
            !old(self).source.incremental() ==> !(res is FetchCursor) && !(res is RecordSkip),
            old(self).phase == SyncPhase::AwaitAttempt && event is Done ==> if old(self).requested_mode
                == SyncMode::Incremental && old(self).source.incremental() {
                res is FetchCursor
            } else {
                res is FetchPayload
            },
            // a skip records the cursor that was compared, which the store held
            old(self).phase == SyncPhase::AwaitLocalState ==> match event {
                SyncEvent::LocalState { row_count, state, cache } => {
                    let c = opt_view(old(self).cursor)->Some_0;
                    match skip_size(row_count > 0, state, cache, c) {
                        Some(size) => res matches SyncAction::RecordSkip { source_id, cursor, alert_id } && cursor@ == c
                            && source_id@ == old(self).source.id_spec() && alert_id@ == "sync-failure:"@ + old(self).source.id_spec() && final(self).skip_size
                            == size && final(self).skip_rows == row_count && opt_view(final(self).skip_outcome_revision)
                            == Some(skip_revision(old(self).source, cache, c)),
                        None => res is FetchPayload,
                    }
                },
                _ => res matches SyncAction::Finish(None),
            },
            // a fetched payload is cached under the source's key and name
            old(self).phase == SyncPhase::AwaitPayload && (event is Payload) ==> (res matches SyncAction::Store {
                cache_key,
                source_name,
                revision,
            } && cache_key@ == old(self).source.cache_key_spec() && source_name@ == old(self).source.source_name_spec()
                && opt_view(revision) == opt_view(event->Payload_revision) && opt_view(final(self).payload_revision)
                == opt_view(event->Payload_revision) && final(self).payload_size == event->Payload_cache_size_bytes
                && final(self).payload_rows == event->Payload_row_count),
            // every failure is recorded with its alert
            (old(self).phase == SyncPhase::AwaitPayload || old(self).phase == SyncPhase::AwaitStore) && (event matches SyncEvent::Failed { message })
                ==> (res matches SyncAction::RecordFailure { source_id, alert_id, title, message: m } && source_id@
                == old(self).source.id_spec() && alert_id@ == "sync-failure:"@
                + old(self).source.id_spec() && title@ == old(self).source.failure_title_spec() && m@ == event->message@),
            old(self).phase == SyncPhase::AwaitFailure ==> res matches SyncAction::Finish(None),
            // the success cursor
            old(self).phase == SyncPhase::AwaitStore && (event is Stored) ==> if old(self).source is PenguinMatrix
                && old(self).requested_mode == SyncMode::Incremental {
                res is FetchSuccessCursor
            } else {
                res matches SyncAction::RecordSuccess { source_id, cursor, alert_id } && source_id@
                    == old(self).source.id_spec() && opt_view(cursor) == opt_view(
                    old(self).payload_revision,
                ) && alert_id@ == "sync-failure:"@ + old(self).source.id_spec()
            },
            old(self).phase == SyncPhase::AwaitSuccessCursor ==> match event {
                SyncEvent::Cursor(c) => res matches SyncAction::RecordSuccess { source_id, cursor, alert_id }
                    && source_id@ == old(self).source.id_spec() && alert_id@ == "sync-failure:"@
                    + old(self).source.id_spec() && opt_view(cursor)
                    == (if c is Some {
                    opt_view(c)
                } else {
                    opt_view(old(self).payload_revision)
                }),
                _ => res matches SyncAction::Finish(None),
            },
            // the outcomes
            old(self).phase == SyncPhase::AwaitSkip && event is Done ==> (res matches SyncAction::Finish(Some(o))
                && o.source_id@ == old(self).source.id_spec() && o.cache_key@ == old(self).source.cache_key_spec()
                && o.run_status == SyncRunStatus::SkippedUnchanged && o.effective_mode == SyncMode::Incremental
                && o.requested_mode == old(self).requested_mode && o.cache_size_bytes == old(self).skip_size as usize
                && o.row_count == old(self).skip_rows as usize && opt_view(old(self).skip_outcome_revision) == Some(
                o.revision@,
            )),
            old(self).phase == SyncPhase::AwaitSuccess && event is Done ==> (res matches SyncAction::Finish(Some(o))
                && o.source_id@ == old(self).source.id_spec() && o.cache_key@ == old(self).source.cache_key_spec()
                && o.run_status == SyncRunStatus::Updated && o.effective_mode == effective_update_mode(
                old(self).source,
                old(self).requested_mode,
            ) && o.requested_mode == old(self).requested_mode && o.cache_size_bytes == old(self).payload_size
                && o.revision@ == (match opt_view(old(self).payload_revision) {
                Some(r) => r,
                None => "empty"@,
            }) && o.row_count == (if old(self).source is PrtsItemIndex {
                old(self).stored_rows as usize
            } else {
                old(self).payload_rows
            })),
            old(self).phase == SyncPhase::Finished ==> res matches SyncAction::Finish(None),
    {
        match self.phase {
            SyncPhase::AwaitAttempt => match event {
                SyncEvent::Done => {
                    if self.requested_mode.is_full() || !self.incremental_source() {
                        self.phase = SyncPhase::AwaitPayload;
                        SyncAction::FetchPayload
                    } else {
                        self.phase = SyncPhase::AwaitCursor;
                        SyncAction::FetchCursor
                    }
                },
                _ => {
                    self.phase = SyncPhase::Finished;
                    SyncAction::Finish(None)
                },
            },
            SyncPhase::AwaitCursor => match event {
                SyncEvent::Cursor(Some(c)) => {
                    self.cursor = Some(c);
                    self.phase = SyncPhase::AwaitLocalState;
                    SyncAction::ReadLocalState
                },
                SyncEvent::Cursor(None) => {
                    self.phase = SyncPhase::AwaitPayload;
                    SyncAction::FetchPayload
                },
                _ => {
                    self.phase = SyncPhase::Finished;
                    SyncAction::Finish(None)
                },
            },
            SyncPhase::AwaitLocalState => match event {
                SyncEvent::LocalState { row_count, state, cache } => {
                    let cursor = match &self.cursor {
                        Some(c) => c.clone(),
                        None => String::new(),
                    };
                    let skip = can_skip_unchanged_source(row_count > 0, state.as_ref(), cache.as_ref(), cursor.as_str());
                    let cache_revision = match cache {
                        Some(c) => c.revision,
                        None => None,
                    };
                    match skip {
                        Some(size) => {
                            self.skip_size = size;
                            self.skip_rows = row_count;
                            self.skip_outcome_revision = match self.source {
                                SyncSource::PenguinMatrix => match cache_revision {
                                    Some(r) => Some(r),
                                    None => Some("unknown".to_string()),
                                },
                                _ => Some(cursor.clone()),
                            };
                            self.phase = SyncPhase::AwaitSkip;
                            SyncAction::RecordSkip {
                                source_id: self.source.source_id().to_string(),
                                cursor,
                                alert_id: sync_failure_alert_id(self.source.source_id()),
                            }
                        },
                        None => {
                            self.phase = SyncPhase::AwaitPayload;
                            SyncAction::FetchPayload
                        },
                    }
                },
                _ => {
                    self.phase = SyncPhase::Finished;
                    SyncAction::Finish(None)
                },
            },
            SyncPhase::AwaitSkip => match event {
                SyncEvent::Done => {
                    self.phase = SyncPhase::Finished;
                    let revision = match &self.skip_outcome_revision {
                        Some(r) => r.clone(),
                        None => String::new(),
                    };
                    SyncAction::Finish(
                        Some(
                            SyncOutcome {
                                source_id: self.source.source_id().to_string(),
                                cache_key: self.source.cache_key().to_string(),
                                revision,
                                cache_size_bytes: self.skip_size as usize,
                                row_count: self.skip_rows as usize,
                                requested_mode: self.requested_mode,
                                effective_mode: SyncMode::Incremental,
                                run_status: SyncRunStatus::SkippedUnchanged,
                            },
                        ),
                    )
                },
                _ => {
                    self.phase = SyncPhase::Finished;
                    SyncAction::Finish(None)
                },
            },
            SyncPhase::AwaitPayload => match event {
                SyncEvent::Payload { revision, cache_size_bytes, row_count } => {
                    let cache_revision = match &revision {
                        Some(r) => Some(r.clone()),
                        None => None,
                    };
                    self.payload_revision = revision;
                    self.payload_size = cache_size_bytes;
                    self.payload_rows = row_count;
                    self.phase = SyncPhase::AwaitStore;
                    SyncAction::Store {
                        cache_key: self.source.cache_key().to_string(),
                        source_name: self.source.source_name().to_string(),
                        revision: cache_revision,
                    }
                },
                SyncEvent::Failed { message } => self.failure(message),
                _ => {
                    self.phase = SyncPhase::Finished;
                    SyncAction::Finish(None)
                },
            },
            SyncPhase::AwaitStore => match event {
                SyncEvent::Stored { stored_row_count } => {
                    self.stored_rows = stored_row_count;
                    match (self.source, self.requested_mode) {
                        (SyncSource::PenguinMatrix, SyncMode::Incremental) => {
                            self.phase = SyncPhase::AwaitSuccessCursor;
                            SyncAction::FetchSuccessCursor
                        },
                        _ => {
                            self.phase = SyncPhase::AwaitSuccess;
                            let cursor = match &self.payload_revision {
                                Some(r) => Some(r.clone()),
                                None => None,
                            };
                            SyncAction::RecordSuccess {
                                source_id: self.source.source_id().to_string(),
                                cursor,
                                alert_id: sync_failure_alert_id(self.source.source_id()),
                            }
                        },
                    }
                },
                SyncEvent::Failed { message } => self.failure(message),
                _ => {
                    self.phase = SyncPhase::Finished;
                    SyncAction::Finish(None)
                },
            },
            SyncPhase::AwaitSuccessCursor => match event {
                SyncEvent::Cursor(c) => {
                    self.phase = SyncPhase::AwaitSuccess;
                    let cursor = match c {
                        Some(a) => Some(a),
                        None => match &self.payload_revision {
                            Some(r) => Some(r.clone()),
                            None => None,
                        },
                    };
                    SyncAction::RecordSuccess {
                        source_id: self.source.source_id().to_string(),
                        cursor,
                        alert_id: sync_failure_alert_id(self.source.source_id()),
                    }
                },
                _ => {
                    self.phase = SyncPhase::Finished;
                    SyncAction::Finish(None)
                },
            },
            SyncPhase::AwaitSuccess => match event {
                SyncEvent::Done => {
                    self.phase = SyncPhase::Finished;
                    let revision = match &self.payload_revision {
                        Some(r) => r.clone(),
                        None => "empty".to_string(),
                    };
                    let row_count = match self.source {
                        SyncSource::PrtsItemIndex => self.stored_rows as usize,
                        _ => self.payload_rows,
                    };
                    let effective_mode = if self.incremental_source() {
                        self.requested_mode
                    } else {
                        SyncMode::Full
                    };
                    SyncAction::Finish(
                        Some(
                            SyncOutcome {
                                source_id: self.source.source_id().to_string(),
                                cache_key: self.source.cache_key().to_string(),
                                revision,
                                cache_size_bytes: self.payload_size,
                                row_count,
                                requested_mode: self.requested_mode,
                                effective_mode,
                                run_status: SyncRunStatus::Updated,
                            },
                        ),
                    )
                },
                _ => {
                    self.phase = SyncPhase::Finished;
                    SyncAction::Finish(None)
                },
            },
            SyncPhase::AwaitFailure => {
                self.phase = SyncPhase::Finished;
                SyncAction::Finish(None)
            },
            SyncPhase::Finished => SyncAction::Finish(None),
        }
    }
}

} // verus!
