//! The rows the store keeps, and what is read back from the JSON stored
//! beside them.
use vstd::prelude::*;
use crate::json::{JsonValue, json_member, json_str_member, lemma_member_index_bound, member, member_index_from, member_position, member_str};
use crate::prts::{parse_i64, parse_i64_decimal};
use crate::text::{chars_of, i64_to_decimal, join, join_strings, lemma_join_push, opt_view, signed_decimal, string_views};

verus! {

/// An entry of the audit log.
pub struct AuditLogEntry<'a> {
    pub audit_id: &'a str,
    pub entity_type: &'a str,
    pub entity_id: Option<&'a str>,
    pub action: &'a str,
    pub summary: &'a str,
    pub payload_json: Option<&'a str>,
    pub source: &'a str,
}

/// A payload to cache under its key.
pub struct RawSourceCacheUpsert<'a> {
    pub cache_key: &'a str,
    pub source_name: &'a str,
    pub revision: Option<&'a str>,
    pub content_type: &'a str,
    pub payload: &'a [u8],
    pub expires_at: Option<&'a str>,
}

/// An alert to raise or refresh.
pub struct AlertUpsert<'a> {
    pub alert_id: &'a str,
    pub alert_type: &'a str,
    pub severity: &'a str,
    pub title: &'a str,
    pub message: &'a str,
    pub status: &'a str,
    pub payload_json: Option<&'a str>,
}

/// What the store records of a source's last runs.
#[derive(Debug, Clone, PartialEq, Eq)]
pub struct SyncSourceStateRecord {
    pub source_id: String,
    pub status: String,
    pub last_attempt_at: Option<String>,
    pub last_success_at: Option<String>,
    pub cursor_value: Option<String>,
    pub last_error: Option<String>,
}

/// What the store records of a cached payload, without the payload.
#[derive(Debug, Clone, PartialEq, Eq)]
pub struct RawSourceCacheSummary {
    pub cache_key: String,
    pub source_name: String,
    pub revision: Option<String>,
    pub content_type: String,
    pub payload_bytes: i64,
    pub fetched_at: String,
    pub expires_at: Option<String>,
}

#[derive(Debug, Clone, PartialEq, Eq)]
pub struct ExternalDropMatrixRecord {
    pub stage_id: String,
    pub item_id: String,
    pub sample_count: i64,
    pub drop_count: i64,
    pub window_start_at: Option<String>,
    pub window_end_at: Option<String>,
}

#[derive(Debug, Clone, PartialEq, Eq)]
pub struct ExternalEventNoticeRecord {
    pub notice_id: String,
    pub title: String,
    pub notice_type: String,
    pub published_at: String,
    pub start_at: Option<String>,
    pub end_at: Option<String>,
    pub source_url: String,
    pub confirmed: bool,
}

/// A drop-matrix row joined with what is known of its stage and item.
#[derive(Debug, Clone, PartialEq, Eq)]
pub struct PenguinDropDisplayRecord {
    pub stage_id: String,
    pub stage_code: Option<String>,
    pub stage_type: Option<String>,
    pub ap_cost: Option<i64>,
    pub stage_exists: bool,
    pub stage_open_at: Option<String>,
    pub stage_close_at: Option<String>,
    pub drop_type: Option<String>,
    pub item_id: String,
    pub item_name: String,
    pub item_type: Option<String>,
    pub item_rarity: Option<i64>,
    pub sample_count: i64,
    pub drop_count: i64,
    pub window_start_at: Option<String>,
    pub window_end_at: Option<String>,
}

#[derive(Debug, Clone, PartialEq, Eq)]
pub struct ExternalItemDefRecord {
    pub item_id: String,
    pub name_zh: String,
    pub item_type: String,
    pub rarity: Option<i64>,
}

#[derive(Debug, Clone, PartialEq, Eq)]
pub struct ExternalOperatorGrowthRecord {
    pub growth_id: String,
    pub operator_id: String,
    pub operator_name_zh: String,
    pub stage_label: String,
    pub material_slot: String,
    pub material_summary: String,
}

#[derive(Debug, Clone, PartialEq, Eq)]
pub struct ExternalRecipeRecord {
    pub recipe_id: String,
    pub output_item_id: String,
    pub output_name_zh: String,
    pub room_type: String,
    pub recipe_kind: String,
    pub workshop_level: i64,
    pub ingredient_summary: String,
}

#[derive(Debug, Clone, PartialEq, Eq)]
pub struct ExternalStageDefRecord {
    pub stage_id: String,
    pub zone_id: Option<String>,
    pub code: String,
    pub is_open: bool,
    pub page_title: Option<String>,
    pub categories: Vec<String>,
}


// JSON stored beside the rows

/// A JSON number read as a 64-bit integer, as `Value::as_i64` reads it.
pub open spec fn json_as_i64(v: JsonValue) -> Option<i64> {
    match v {
        JsonValue::Number(t) => parse_i64_decimal(t@),
        _ => None,
    }
}

pub fn json_i64(v: &JsonValue) -> (res: Option<i64>)
    ensures
        res == json_as_i64(*v),
{
    match v {
        JsonValue::Number(t) => {
            let cs = chars_of(t.as_str());
            parse_i64(cs.as_slice())
        },
        _ => None,
    }
}

/// An entry with a name and a count, written "name xcount".
pub open spec fn count_label(v: JsonValue) -> Option<Seq<char>> {
    match member_str(v, "item_name_zh"@) {
        Some(name) => match member(v, "count"@) {
            Some(c) => match json_as_i64(c) {
                Some(n) => Some(name + " x"@ + signed_decimal(n as int)),
                None => None,
            },
            None => None,
        },
        None => None,
    }
}

/// The labels of the entries that have both a name and a count, in order.
pub open spec fn count_labels(items: Seq<JsonValue>) -> Seq<Seq<char>>
    decreases items.len(),
{
    if items.len() == 0 {
        seq![]
    } else {
        let rest = count_labels(items.drop_last());
        match count_label(items.last()) {
            Some(l) => rest.push(l),
            None => rest,
        }
    }
}

/// The array member `key` summed up as "name xcount / name xcount"; empty
/// where there is no such array.
pub open spec fn count_summary(raw: JsonValue, key: Seq<char>) -> Seq<char> {
    match member(raw, key) {
        Some(JsonValue::Array(items)) => join(count_labels(items@), " / "@),
        _ => seq![],
    }
}

fn count_label_of(v: &JsonValue) -> (res: Option<String>)
    ensures
        opt_view(res) == count_label(*v),
{
    let name = match json_str_member(v, "item_name_zh") {
        Some(n) => n,
        None => return None,
    };
    let count = match json_member(v, "count") {
        Some(c) => match json_i64(c) {
            Some(n) => n,
            None => return None,
        },
        None => return None,
    };
    let mut label = name;
    label.append(" x");
    let digits = i64_to_decimal(count);
    label.append(digits.as_str());
    Some(label)
}

pub fn count_summary_of(raw: &JsonValue, key: &str) -> (res: String)
    ensures
        res@ == count_summary(*raw, key@),
{
    match json_member(raw, key) {
        Some(JsonValue::Array(items)) => {
            let mut parts: Vec<String> = Vec::new();
            let mut i: usize = 0;
            while i < items.len()
                invariant
                    i <= items@.len(),
                    string_views(parts@) == count_labels(items@.take(i as int)),
                decreases items@.len() - i,
            {
                assert(items@.take(i + 1).drop_last() =~= items@.take(i as int));
                match count_label_of(&items[i]) {
                    Some(l) => {
                        parts.push(l);
                        assert(string_views(parts@) =~= count_labels(items@.take(i as int)).push(parts@.last()@));
                    },
                    None => {},
                }
                i += 1;
            }
            assert(items@.take(items@.len() as int) =~= items@);
            join_strings(parts.as_slice(), " / ")
        },
        _ => String::new(),
    }
}

/// The string items of an array, in order; other items are skipped.
pub open spec fn string_items(items: Seq<JsonValue>) -> Seq<Seq<char>>
    decreases items.len(),
{
    if items.len() == 0 {
        seq![]
    } else {
        let rest = string_items(items.drop_last());
        match items.last() {
            JsonValue::String(s) => rest.push(s@),
            _ => rest,
        }
    }
}

/// The stage page's categories, as stored under its page data.
pub open spec fn stage_categories(prts: JsonValue) -> Seq<Seq<char>> {
    match member(prts, "categories"@) {
        Some(JsonValue::Array(items)) => string_items(items@),
        _ => seq![],
    }
}

/// The page data stored for a stage, or null.
pub open spec fn stage_page_data(raw: JsonValue) -> JsonValue {
    match member(raw, "prts"@) {
        Some(p) => p,
        None => JsonValue::Null,
    }
}

/// A growth row, its materials summed up from its stored JSON.
pub fn external_operator_growth_record(
    growth_id: String,
    operator_id: String,
    operator_name_zh: String,
    stage_label: String,
    material_slot: String,
    raw: &JsonValue,
) -> (res: ExternalOperatorGrowthRecord)
    ensures
        res.growth_id == growth_id,
        res.operator_id == operator_id,
        res.operator_name_zh == operator_name_zh,
        res.stage_label == stage_label,
        res.material_slot == material_slot,
        res.material_summary@ == count_summary(*raw, "materials"@),
{
    let material_summary = count_summary_of(raw, "materials");
    ExternalOperatorGrowthRecord { growth_id, operator_id, operator_name_zh, stage_label, material_slot, material_summary }
}

/// A recipe row, its kind, workshop level and ingredients read from its
/// stored JSON: level 0 and kind "未分类" where they are missing.
pub fn external_recipe_record(
    recipe_id: String,
    output_item_id: String,
    output_name_zh: String,
    room_type: String,
    raw: &JsonValue,
) -> (res: ExternalRecipeRecord)
    ensures
        res.recipe_id == recipe_id,
        res.output_item_id == output_item_id,
        res.output_name_zh == output_name_zh,
        res.room_type == room_type,
        res.workshop_level == match member(*raw, "workshop_level"@) {
            Some(v) => match json_as_i64(v) {
                Some(n) => n,
                None => 0,
            },
            None => 0,
        },
        res.recipe_kind@ == match member_str(*raw, "recipe_kind"@) {
            Some(k) => k,
            None => "未分类"@,
        },
        res.ingredient_summary@ == count_summary(*raw, "ingredients"@),
{
    let workshop_level = match json_member(raw, "workshop_level") {
        Some(v) => match json_i64(v) {
            Some(n) => n,
            None => 0,
        },
        None => 0,
    };
    let recipe_kind = match json_str_member(raw, "recipe_kind") {
        Some(k) => k,
        None => "未分类".to_string(),
    };
    let ingredient_summary = count_summary_of(raw, "ingredients");
    ExternalRecipeRecord { recipe_id, output_item_id, output_name_zh, room_type, recipe_kind, workshop_level, ingredient_summary }
}

fn string_items_of(items: &Vec<JsonValue>) -> (res: Vec<String>)
    ensures
        string_views(res@) == string_items(items@),
{
    let mut out: Vec<String> = Vec::new();
    let mut i: usize = 0;
    while i < items.len()
        invariant
            i <= items@.len(),
            string_views(out@) == string_items(items@.take(i as int)),
        decreases items@.len() - i,
    {
        assert(items@.take(i + 1).drop_last() =~= items@.take(i as int));
        match &items[i] {
            JsonValue::String(s) => {
                out.push(s.clone());
                assert(string_views(out@) =~= string_items(items@.take(i as int)).push(s@));
            },
            _ => {},
        }
        i += 1;
    }
    assert(items@.take(items@.len() as int) =~= items@);
    out
}

/// A stage row, its page title and categories read from the page data
/// stored under "prts".
pub fn external_stage_def_record(
    stage_id: String,
    zone_id: Option<String>,
    code: String,
    is_open: bool,
    raw: &JsonValue,
) -> (res: ExternalStageDefRecord)
    ensures
        res.stage_id == stage_id,
        res.zone_id == zone_id,
        res.code == code,
        res.is_open == is_open,
        opt_view(res.page_title) == member_str(stage_page_data(*raw), "page_title"@),
        string_views(res.categories@) == stage_categories(stage_page_data(*raw)),
{
    let (page_title, categories) = match json_member(raw, "prts") {
        Some(prts) => {
            let page_title = json_str_member(prts, "page_title");
            let categories = match json_member(prts, "categories") {
                Some(JsonValue::Array(items)) => string_items_of(items),
                _ => Vec::new(),
            };
            (page_title, categories)
        },
        None => {
            assert(string_views(Seq::<String>::empty()) =~= Seq::<Seq<char>>::empty());
            (None, Vec::new())
        },
    };
    ExternalStageDefRecord { stage_id, zone_id, code, is_open, page_title, categories }
}

/// The members of an object, each as its name and value.
pub open spec fn members_view(members: Seq<(String, JsonValue)>) -> Seq<(Seq<char>, JsonValue)> {
    members.map_values(|m: (String, JsonValue)| (m.0@, m.1))
}

/// The index of the first member named `key`.
pub open spec fn key_index_from(members: Seq<(Seq<char>, JsonValue)>, key: Seq<char>, i: int) -> Option<int>
    decreases members.len() - i,
{
    if i < 0 || i >= members.len() {
        None
    } else if members[i].0 == key {
        Some(i)
    } else {
        key_index_from(members, key, i + 1)
    }
}

/// The members with `key` set to `value`, as `Map::insert` sets it: a member
/// of that name takes the value in its place, otherwise one is added.
pub open spec fn insert_member(members: Seq<(Seq<char>, JsonValue)>, key: Seq<char>, value: JsonValue) -> Seq<(Seq<char>, JsonValue)> {
    match key_index_from(members, key, 0) {
        Some(i) => members.update(i, (key, value)),
        None => members.push((key, value)),
    }
}

proof fn lemma_key_index_views(members: Seq<(String, JsonValue)>, key: Seq<char>, i: int)
    ensures
        key_index_from(members_view(members), key, i) == member_index_from(members, key, i),
    decreases members.len() - i,
{
    if 0 <= i < members.len() && members[i].0@ != key {
        lemma_key_index_views(members, key, i + 1);
    }
}

fn insert_member_into(members: &mut Vec<(String, JsonValue)>, key: &str, value: JsonValue)
    ensures
        members_view(final(members)@) == insert_member(members_view(old(members)@), key@, value),
{
    proof {
        lemma_key_index_views(old(members)@, key@, 0);
        lemma_member_index_bound(old(members)@, key@, 0);
    }
    match member_position(members, key) {
        Some(i) => {
            members.set(i, (key.to_string(), value));
            assert(members_view(members@) =~= members_view(old(members)@).update(i as int, (key@, value)));
        },
        None => {
            members.push((key.to_string(), value));
            assert(members_view(members@) =~= members_view(old(members)@).push((key@, value)));
        },
    }
}

/// The member `key` of an object, taken out of it.
fn into_member(v: JsonValue, key: &str) -> (res: Option<JsonValue>)
    ensures
        res == member(v, key@),
{
    match v {
        JsonValue::Object(members) => {
            proof {
                lemma_member_index_bound(members@, key@, 0);
            }
            let mut members = members;
            match member_position(&members, key) {
                Some(i) => {
                    let (_, found) = members.remove(i);
                    Some(found)
                },
                None => None,
            }
        },
        _ => None,
    }
}

/// What a stage stores once its page data is merged in: what it stored
/// before where that is an object, with "prts" set to the page data.
pub open spec fn merged_page_stage(existing: Option<JsonValue>, prts: JsonValue) -> Seq<(Seq<char>, JsonValue)> {
    let base = match existing {
        Some(JsonValue::Object(members)) => members_view(members@),
        _ => seq![],
    };
    insert_member(base, "prts"@, prts)
}

pub fn merge_prts_stage_json(existing: Option<JsonValue>, prts: JsonValue) -> (res: JsonValue)
    ensures
        res matches JsonValue::Object(members) && members_view(members@) == merged_page_stage(existing, prts),
{
    let mut members: Vec<(String, JsonValue)> = match existing {
        Some(JsonValue::Object(members)) => members,
        _ => Vec::new(),
    };
    proof {
        assert(members_view(Seq::<(String, JsonValue)>::empty()) =~= Seq::<(Seq<char>, JsonValue)>::empty());
    }
    insert_member_into(&mut members, "prts", prts);
    JsonValue::Object(members)
}

/// What a stage stores once the drop statistics' stage data is merged in:
/// that data (wrapped under "penguin" where it is not an object), with the
/// page data stored before kept under "prts".
pub open spec fn merged_penguin_stage(existing: Option<JsonValue>, penguin: JsonValue) -> Seq<(Seq<char>, JsonValue)> {
    let base = match penguin {
        JsonValue::Object(members) => members_view(members@),
        _ => seq![("penguin"@, penguin)],
    };
    match existing {
        Some(e) => match member(e, "prts"@) {
            Some(p) => insert_member(base, "prts"@, p),
            None => base,
        },
        None => base,
    }
}

pub fn merge_penguin_stage_json(existing: Option<JsonValue>, penguin: JsonValue) -> (res: JsonValue)
    ensures
        res matches JsonValue::Object(members) && members_view(members@) == merged_penguin_stage(existing, penguin),
{
    let ghost penguin0 = penguin;
    let mut members: Vec<(String, JsonValue)> = match penguin {
        JsonValue::Object(members) => members,
        other => {
            let mut ms: Vec<(String, JsonValue)> = Vec::new();
            ms.push(("penguin".to_string(), other));
            assert(members_view(ms@) =~= seq![("penguin"@, penguin0)]);
            ms
        },
    };
    match existing {
        Some(e) => match into_member(e, "prts") {
            Some(p) => {
                insert_member_into(&mut members, "prts", p);
            },
            None => {},
        },
        None => {},
    }
    JsonValue::Object(members)
}


/// The value of the first member named `key`, where there is one.
pub open spec fn member_value(members: Seq<(Seq<char>, JsonValue)>, key: Seq<char>) -> Option<JsonValue> {
    match key_index_from(members, key, 0) {
        Some(i) => Some(members[i].1),
        None => None,
    }
}

proof fn lemma_key_index_bound(members: Seq<(Seq<char>, JsonValue)>, key: Seq<char>, i: int)
    requires
        0 <= i,
    ensures
        key_index_from(members, key, i) matches Some(k) ==> i <= k < members.len() && members[k].0 == key && forall|
            j: int,
        | i <= j < k ==> members[j].0 != key,
        key_index_from(members, key, i) is None ==> forall|j: int| i <= j < members.len() ==> members[j].0 != key,
    decreases members.len() - i,
{
    if 0 <= i < members.len() && members[i].0 != key {
        lemma_key_index_bound(members, key, i + 1);
    }
}

proof fn lemma_key_index_of_first(members: Seq<(Seq<char>, JsonValue)>, key: Seq<char>, i: int, k: int)
    requires
        0 <= i <= k < members.len(),
        members[k].0 == key,
        forall|j: int| i <= j < k ==> members[j].0 != key,
    ensures
        key_index_from(members, key, i) == Some(k),
    decreases k - i,
{
    if i < k {
        lemma_key_index_of_first(members, key, i + 1, k);
    }
}

/// Setting a member makes it the value that the member's name reads, and
/// leaves what every other name reads as it was.
pub proof fn lemma_insert_member(members: Seq<(Seq<char>, JsonValue)>, key: Seq<char>, value: JsonValue, other: Seq<char>)
    ensures
        member_value(insert_member(members, key, value), key) == Some(value),
        other != key ==> member_value(insert_member(members, key, value), other) == member_value(members, other),
{
    let after = insert_member(members, key, value);
    lemma_key_index_bound(members, key, 0);
    lemma_key_index_bound(members, other, 0);
    lemma_key_index_bound(after, other, 0);
    match key_index_from(members, key, 0) {
        Some(i) => {
            lemma_key_index_of_first(after, key, 0, i);
            if other != key {
                match key_index_from(members, other, 0) {
                    Some(k) => {
                        lemma_key_index_of_first(after, other, 0, k);
                    },
                    None => {},
                }
            }
        },
        None => {
            lemma_key_index_of_first(after, key, 0, members.len() as int);
            if other != key {
                match key_index_from(members, other, 0) {
                    Some(k) => {
                        lemma_key_index_of_first(after, other, 0, k);
                    },
                    None => {},
                }
            }
        },
    }
}

/// Storing the drop statistics' stage data over a stage keeps the page data
/// that the stage held under "prts".
pub proof fn lemma_penguin_merge_keeps_page_data(existing: JsonValue, penguin: JsonValue)
    requires
        member(existing, "prts"@) is Some,
    ensures
        member_value(merged_penguin_stage(Some(existing), penguin), "prts"@) == member(existing, "prts"@),
{
    let base = match penguin {
        JsonValue::Object(members) => members_view(members@),
        _ => seq![("penguin"@, penguin)],
    };
    lemma_insert_member(base, "prts"@, member(existing, "prts"@)->0, "prts"@);
}

/// Storing a stage's page data keeps what the stage held under every other
/// name, and the page data is what "prts" then reads.
pub proof fn lemma_page_merge_keeps_other_members(existing: JsonValue, prts: JsonValue, other: Seq<char>)
    requires
        existing is Object,
        other != "prts"@,
    ensures
        member_value(merged_page_stage(Some(existing), prts), "prts"@) == Some(prts),
        member_value(merged_page_stage(Some(existing), prts), other) == match existing {
            JsonValue::Object(members) => member_value(members_view(members@), other),
            _ => None,
        },
{
    let base = match existing {
        JsonValue::Object(members) => members_view(members@),
        _ => seq![],
    };
    lemma_insert_member(base, "prts"@, prts, other);
    lemma_insert_member(base, "prts"@, prts, "prts"@);
}

} // verus!
