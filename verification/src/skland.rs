//! Skland (the official companion app): request signing, the reading of the
//! player-info envelope, and what an import makes of the player's operators
//! and base.
use std::path::PathBuf;
use hmac::Mac;
use vstd::prelude::*;
use vstd::string::StringSliceAdditionalSpecFns;
use crate::json::{JsonValue, json_member, json_str_member, member, member_str, has_non_null_member, json_array_len, json_has_non_null_key, member_array_len, names_sorted, object_names, sort_strings, sorted_member_names};
use crate::records::{AuditLogEntry, RawSourceCacheUpsert, json_as_i64, json_i64};
use crate::text::{decimal, i64_to_decimal, signed_decimal, u64_to_decimal, chars_of, join, join_strings, opt_view, push_char, seq_lt, str_eq, string_from_chars, string_views, trim, trim_str};

verus! {

pub const DEFAULT_SKLAND_API_BASE_URL: &'static str = "https://zonai.skland.com/api/v1";
pub const DEFAULT_SKLAND_AUTH_FILE_NAME: &'static str = "skland-auth.local.toml";
pub const SKLAND_PLAYER_INFO_SOURCE_ID: &'static str = "skland.player-info.current";
pub const SKLAND_PLAYER_INFO_CACHE_KEY: &'static str = "skland:player-info:current";

/// Where the auth file is looked for under each ancestor of the starting
/// directory, in order: the directory itself, then its `target/debug` and
/// `target/release`; each place as its path components.
pub open spec fn auth_file_candidate_paths() -> Seq<Seq<Seq<char>>> {
    seq![
        seq![DEFAULT_SKLAND_AUTH_FILE_NAME@],
        seq!["target"@, "debug"@, DEFAULT_SKLAND_AUTH_FILE_NAME@],
        seq!["target"@, "release"@, DEFAULT_SKLAND_AUTH_FILE_NAME@],
    ]
}

/// The places under a directory where the auth file is looked for, in
/// order, as `auth_file_candidate_paths` says.
pub fn auth_file_candidates() -> (res: Vec<Vec<String>>)
    ensures
        res@.map_values(|v: Vec<String>| string_views(v@)) == auth_file_candidate_paths(),
{
    let here = vec![DEFAULT_SKLAND_AUTH_FILE_NAME.to_string()];
    let debug = vec!["target".to_string(), "debug".to_string(), DEFAULT_SKLAND_AUTH_FILE_NAME.to_string()];
    let release = vec!["target".to_string(), "release".to_string(), DEFAULT_SKLAND_AUTH_FILE_NAME.to_string()];
    assert(string_views(here@) =~= seq![DEFAULT_SKLAND_AUTH_FILE_NAME@]);
    assert(string_views(debug@) =~= seq!["target"@, "debug"@, DEFAULT_SKLAND_AUTH_FILE_NAME@]);
    assert(string_views(release@) =~= seq!["target"@, "release"@, DEFAULT_SKLAND_AUTH_FILE_NAME@]);
    let res = vec![here, debug, release];
    assert(res@.map_values(|v: Vec<String>| string_views(v@)) =~= auth_file_candidate_paths());
    res
}

pub struct SklandProfileRequest {
    pub auth_file_path: PathBuf,
}

pub struct SklandOperatorSample {
    pub operator_id: String,
    pub name_zh: String,
    pub level: i64,
    pub elite_stage: i64,
    pub skill_level: i64,
    pub mastery_1: i64,
    pub mastery_2: i64,
    pub mastery_3: i64,
    pub module_state: Option<String>,
    pub module_level: Option<i64>,
}

pub struct SklandPlayerInfoInspectOutcome {
    pub source_id: String,
    pub cache_key: String,
    pub revision: String,
    pub cache_size_bytes: usize,
    pub uid: String,
    pub account_name: Option<String>,
    pub status_store_ts: Option<i64>,
    pub status_keys: Vec<String>,
    pub binding_count: usize,
    pub char_count: usize,
    pub assist_count: usize,
    pub equipment_info_count: usize,
    pub char_info_count: usize,
    pub has_building: bool,
    pub building_keys: Vec<String>,
    pub has_control: bool,
    pub has_meeting: bool,
    pub has_training: bool,
    pub has_hire: bool,
    pub dormitory_count: usize,
    pub manufacture_count: usize,
    pub trading_count: usize,
    pub power_count: usize,
    pub tired_char_count: usize,
    pub sample_operator: Option<SklandOperatorSample>,
}

pub struct SklandOperatorImportOutcome {
    pub inspect: SklandPlayerInfoInspectOutcome,
    pub snapshot_id: String,
    pub imported_row_count: usize,
    pub owned_row_count: usize,
    pub unowned_row_count: usize,
    pub used_external_operator_defs: bool,
}

pub struct SklandStatusBuildingImportOutcome {
    pub inspect: SklandPlayerInfoInspectOutcome,
    pub player_status_snapshot_id: String,
    pub base_building_snapshot_id: String,
}

pub struct SklandSkillState {
    pub id: Option<String>,
    pub specialize_level: i64,
}

pub struct SklandEquipState {
    pub id: String,
    pub level: i64,
    pub locked: bool,
}

pub struct SklandCharacter {
    pub char_id: String,
    pub level: i64,
    pub evolve_phase: i64,
    pub main_skill_lvl: i64,
    pub skills: Vec<SklandSkillState>,
    pub equip: Vec<SklandEquipState>,
    pub default_equip_id: Option<String>,
}

pub struct SklandCharacterInfo {
    pub id: Option<String>,
    pub name: Option<String>,
    pub profession: Option<String>,
    pub rarity: Option<i64>,
    pub sub_profession_name: Option<String>,
}

/// The player's status: its name and store time, and the other fields by
/// name (each name once).
pub struct SklandPlayerStatus {
    pub name: Option<String>,
    pub store_ts: Option<i64>,
    pub extra_fields: Vec<(String, JsonValue)>,
}

/// The player info of Skland. The maps of the response are lists of
/// entries, each key once.
pub struct SklandPlayerInfo {
    pub status: SklandPlayerStatus,
    pub assist_chars: Vec<SklandCharacter>,
    pub chars: Vec<SklandCharacter>,
    pub building: JsonValue,
    pub equipment_info_map: Vec<(String, JsonValue)>,
    pub char_info_map: Vec<(String, SklandCharacterInfo)>,
}

/// An operator definition from the external index.
pub struct ExternalOperatorDefRecord {
    pub operator_id: String,
    pub name_zh: String,
    pub rarity: i64,
    pub profession: String,
    pub branch: Option<String>,
}

#[verifier::external_type_specification]
#[verifier::external_body]
pub struct ExTomlDeError(toml::de::Error);

#[derive(Debug)]
pub enum SklandClientError {
    BuildHttpClient { source: reqwest::Error },
    ReadAuthFile { path: PathBuf, source: std::io::Error },
    ParseAuthFile { path: PathBuf, source: toml::de::Error },
    ReadUidFile { path: PathBuf, source: std::io::Error },
    WriteAuthFile { path: PathBuf, source: std::io::Error },
    MissingCred { path: PathBuf },
    MissingToken { path: PathBuf },
    MissingUid { path: PathBuf },
    BuildUrl { message: String },
    SendRequest { url: String, source: reqwest::Error },
    HttpStatus { url: String, source: reqwest::Error },
    ReadResponseBody { url: String, source: reqwest::Error },
    DecodeResponseBody { url: String, source: serde_json::Error },
    SignRequest { message: String },
    ApiError { operation: &'static str, message: String },
}

/// The envelope of every Skland API answer.
pub struct SklandApiEnvelope<T> {
    pub status: Option<i64>,
    pub code: Option<i64>,
    pub msg: Option<String>,
    pub message: Option<String>,
    pub data: Option<T>,
}

impl<T> SklandApiEnvelope<T> {
    /// The answer's code: `code`, or else `status`.
    pub fn status_code(&self) -> (res: Option<i64>)
        ensures
            res == (if self.code is Some {
                self.code
            } else {
                self.status
            }),
    {
        match self.code {
            Some(c) => Some(c),
            None => self.status,
        }
    }

    /// The answer's message: `message`, or else `msg`, or else a note that
    /// there is none.
    pub fn message_text(&self) -> (res: String)
        ensures
            res@ == (match self.message {
                Some(m) => m@,
                None => match self.msg {
                    Some(m) => m@,
                    None => "服务端没有返回可读消息"@,
                },
            }),
    {
        match &self.message {
            Some(m) => m.clone(),
            None => match &self.msg {
                Some(m) => m.clone(),
                None => "服务端没有返回可读消息".to_string(),
            },
        }
    }
}

pub open spec fn empty_data_message() -> Seq<char> {
    "服务端返回成功，但 data 为空"@
}

/// The data of a successful answer, which must be there.
pub fn require_skland_success_data<T>(envelope: SklandApiEnvelope<T>, operation: &'static str) -> (res: Result<T, SklandClientError>)
    ensures
        match envelope.data {
            Some(d) => res == Ok::<T, SklandClientError>(d),
            None => res matches Err(SklandClientError::ApiError { operation: op, message }) && op@ == operation@
                && message@ == empty_data_message(),
        },
{
    match envelope.data {
        Some(d) => Ok(d),
        None => Err(
            SklandClientError::ApiError {
                operation,
                message: "服务端返回成功，但 data 为空".to_string(),
            },
        ),
    }
}

/// The file beside the auth file that holds the uid, unless it names another.
pub fn default_uid_file_name() -> (res: String)
    ensures
        res@ == "uid.txt"@,
{
    "uid.txt".to_string()
}

/// What is signed: the path, the query, the timestamp and the header JSON,
/// with nothing between them (no `?` before the query).
pub fn build_skland_sign_secret(path: &str, query_string: &str, timestamp: &str, header_json: &str) -> (res: String)
    ensures
        res@ == path@ + query_string@ + timestamp@ + header_json@,
{
    let mut s = path.to_string();
    s.append(query_string);
    s.append(timestamp);
    s.append(header_json);
    s
}

pub open spec fn query_pair_text(pair: (&str, &str)) -> Seq<char> {
    pair.0@ + seq!['='] + pair.1@
}

/// `key=value` pairs joined by `&`, as given (no escaping).
pub open spec fn query_text(query: Seq<(&str, &str)>) -> Seq<char> {
    join(query.map_values(|p: (&str, &str)| query_pair_text(p)), seq!['&'])
}

pub fn encode_query_string(query: &[(&str, &str)]) -> (res: String)
    ensures
        res@ == query_text(query@),
{
    let mut parts: Vec<String> = Vec::new();
    let mut i: usize = 0;
    while i < query.len()
        invariant
            i <= query@.len(),
            string_views(parts@) == query@.take(i as int).map_values(|p: (&str, &str)| query_pair_text(p)),
        decreases query@.len() - i,
    {
        let (k, v) = query[i];
        let mut part = k.to_string();
        push_char(&mut part, '=');
        part.append(v);
        assert(k@ == query@[i as int].0@ && v@ == query@[i as int].1@);
        assert(part@ == query_pair_text(query@[i as int]));
        let ghost before = parts@;
        parts.push(part);
        proof {
            assert(string_views(parts@) =~= string_views(before).push(query_pair_text(query@[i as int])));
            assert(query@.take(i + 1).map_values(|p: (&str, &str)| query_pair_text(p)) =~= query@.take(
                i as int,
            ).map_values(|p: (&str, &str)| query_pair_text(p)).push(query_pair_text(query@[i as int])));
        }
        i += 1;
    }
    assert(query@.take(query@.len() as int) =~= query@);
    let res = join_strings(parts.as_slice(), "&");
    proof {
        reveal_strlit("&");
        assert("&"@ =~= seq!['&']);
    }
    res
}

/// `s` without the byte-order marks that lead it.
pub open spec fn without_leading_bom(s: Seq<char>) -> Seq<char>
    decreases s.len(),
{
    if s.len() > 0 && s[0] == '\u{feff}' {
        without_leading_bom(s.drop_first())
    } else {
        s
    }
}

/// The response text without the byte-order marks that lead it.
pub fn normalize_skland_response_text(body: &str) -> (res: String)
    ensures
        res@ == without_leading_bom(body@),
{
    let chars = chars_of(body);
    let mut i: usize = 0;
    assert(chars@.skip(0) =~= chars@);
    while i < chars.len() && chars[i] == '\u{feff}'
        invariant
            i <= chars@.len(),
            chars@ == body@,
            without_leading_bom(chars@.skip(i as int)) == without_leading_bom(body@),
        decreases chars@.len() - i,
    {
        assert(chars@.skip(i as int).drop_first() =~= chars@.skip(i + 1));
        i += 1;
    }
    let rest = &chars.as_slice()[i..chars.len()];
    assert(rest@ =~= chars@.skip(i as int));
    string_from_chars(rest)
}

// ---------------------------------------------------------------------------
// signing

/// The HMAC-SHA256 of `message` under `key`.
pub uninterp spec fn hmac_sha256_of(key: Seq<u8>, message: Seq<u8>) -> Seq<u8>;

/// The MD5 digest of `data`.
pub uninterp spec fn md5_of(data: Seq<u8>) -> Seq<u8>;

/// Computes an HMAC-SHA256 with `hmac::Hmac::<sha2::Sha256>`
/// (`new_from_slice`, `update`, `finalize`). Trusted: the tag is named
/// `hmac_sha256_of` of the key and the message and has 32 bytes; the key
/// is never refused (HMAC takes keys of any length).
#[verifier::external_body]
fn hmac_sha256(key: &[u8], message: &[u8]) -> (res: Result<Vec<u8>, String>)
    ensures
        res is Ok,
        res matches Ok(tag) ==> tag@ == hmac_sha256_of(key@, message@) && tag@.len() == 32,
{
    let mut mac = hmac::Hmac::<sha2::Sha256>::new_from_slice(key).map_err(|error| error.to_string())?;
    mac.update(message);
    Ok(mac.finalize().into_bytes().to_vec())
}

/// Computes an MD5 digest with `md5::compute`. Trusted: the digest is
/// named `md5_of` of the data and has 16 bytes.
#[verifier::external_body]
fn md5_digest(data: &[u8]) -> (res: Vec<u8>)
    ensures
        res@ == md5_of(data@),
        res@.len() == 16,
{
    md5::compute(data).0.to_vec()
}

pub open spec fn hex_digit(n: int) -> char {
    if n < 10 {
        ((n + 48) as u32) as char
    } else {
        ((n - 10 + 97) as u32) as char
    }
}

/// Each byte as two lowercase hexadecimal digits.
pub open spec fn lower_hex(bytes: Seq<u8>) -> Seq<char>
    decreases bytes.len(),
{
    if bytes.len() == 0 {
        seq![]
    } else {
        lower_hex(bytes.drop_last()) + seq![hex_digit(bytes.last() as int / 16), hex_digit(bytes.last() as int % 16)]
    }
}

pub open spec fn ascii_bytes(chars: Seq<char>) -> Seq<u8> {
    chars.map_values(|c: char| c as u8)
}

fn hex_digit_char(n: u8) -> (res: char)
    requires
        n < 16,
    ensures
        res == hex_digit(n as int),
        (res as u32) < 128,
{
    if n < 10 {
        (n + 48) as char
    } else {
        (n - 10 + 97) as char
    }
}

/// The lowercase hexadecimal text of `bytes`, as characters and as the
/// ASCII bytes of those characters.
fn lower_hex_text(bytes: &[u8]) -> (res: (String, Vec<u8>))
    ensures
        res.0@ == lower_hex(bytes@),
        res.1@ == ascii_bytes(lower_hex(bytes@)),
{
    let mut text = String::new();
    let mut raw: Vec<u8> = Vec::new();
    let mut i: usize = 0;
    while i < bytes.len()
        invariant
            i <= bytes@.len(),
            text@ == lower_hex(bytes@.take(i as int)),
            raw@ == ascii_bytes(lower_hex(bytes@.take(i as int))),
        decreases bytes@.len() - i,
    {
        let b = bytes[i];
        let hi = hex_digit_char(b / 16);
        let lo = hex_digit_char(b % 16);
        proof {
            assert(bytes@.take(i + 1).drop_last() =~= bytes@.take(i as int));
            assert(bytes@.take(i + 1).last() == b);
        }
        let ghost text_before = text@;
        push_char(&mut text, hi);
        push_char(&mut text, lo);
        raw.push(hi as u8);
        raw.push(lo as u8);
        proof {
            assert(text@ =~= lower_hex(bytes@.take(i + 1)));
            assert(raw@ =~= ascii_bytes(lower_hex(bytes@.take(i + 1))));
        }
        i += 1;
    }
    assert(bytes@.take(bytes@.len() as int) =~= bytes@);
    (text, raw)
}

/// The `sign` header: the MD5, in hexadecimal, of the hexadecimal text of
/// the HMAC-SHA256 of the secret under the token.
pub open spec fn skland_sign(token: Seq<u8>, secret: Seq<u8>) -> Seq<char> {
    lower_hex(md5_of(ascii_bytes(lower_hex(hmac_sha256_of(token, secret)))))
}

pub fn compute_skland_sign(token: &str, secret: &str) -> (res: Result<String, SklandClientError>)
    ensures
        res matches Ok(s) && s@ == skland_sign(token.spec_bytes(), secret.spec_bytes()),
{
    let tag = match hmac_sha256(token.as_bytes(), secret.as_bytes()) {
        Ok(t) => t,
        Err(message) => {
            return Err(SklandClientError::SignRequest { message });
        },
    };
    let (_, hex_secret) = lower_hex_text(tag.as_slice());
    let digest = md5_digest(hex_secret.as_slice());
    let (sign, _) = lower_hex_text(digest.as_slice());
    Ok(sign)
}

// ---------------------------------------------------------------------------
// operators

/// A trimmed text, where it is not empty.
pub open spec fn trimmed_nonempty(s: Option<String>) -> Option<Seq<char>> {
    match s {
        Some(v) => if trim(v@).len() == 0 {
            None
        } else {
            Some(trim(v@))
        },
        None => None,
    }
}

fn trimmed_nonempty_text(s: &Option<String>) -> (res: Option<String>)
    ensures
        opt_view(res) == trimmed_nonempty(*s),
{
    match s {
        Some(v) => {
            let t = trim_str(v.as_str());
            if t.as_str().is_empty() {
                None
            } else {
                Some(t)
            }
        },
        None => None,
    }
}

/// The index of the last entry keyed `key`.
pub open spec fn last_key_index<V>(entries: Seq<(String, V)>, key: Seq<char>) -> Option<int>
    decreases entries.len(),
{
    if entries.len() == 0 {
        None
    } else if entries.last().0@ == key {
        Some(entries.len() - 1)
    } else {
        last_key_index(entries.drop_last(), key)
    }
}

proof fn lemma_last_key_index<V>(entries: Seq<(String, V)>, key: Seq<char>)
    ensures
        last_key_index(entries, key) matches Some(k) ==> 0 <= k < entries.len() && entries[k].0@ == key && forall|j: int|
            k < j < entries.len() ==> #[trigger] entries[j].0@ != key,
        last_key_index(entries, key) is None ==> forall|j: int| 0 <= j < entries.len() ==> #[trigger] entries[j].0@ != key,
    decreases entries.len(),
{
    if entries.len() > 0 {
        lemma_last_key_index(entries.drop_last(), key);
        let d = entries.drop_last();
        assert forall|j: int| 0 <= j < d.len() implies #[trigger] entries[j].0@ == d[j].0@ by {}
    }
}

/// The character info of an operator.
pub open spec fn char_info_for(map: Seq<(String, SklandCharacterInfo)>, operator_id: Seq<char>) -> Option<SklandCharacterInfo> {
    match last_key_index(map, operator_id) {
        Some(k) => Some(map[k].1),
        None => None,
    }
}

fn lookup_char_info<'a>(map: &'a Vec<(String, SklandCharacterInfo)>, operator_id: &str) -> (res: Option<&'a SklandCharacterInfo>)
    ensures
        match char_info_for(map@, operator_id@) {
            Some(info) => res == Some(&info),
            None => res is None,
        },
{
    let mut i = map.len();
    assert(map@.take(i as int) =~= map@);
    while i > 0
        invariant
            i <= map@.len(),
            last_key_index(map@, operator_id@) == last_key_index(map@.take(i as int), operator_id@),
        decreases i,
    {
        assert(map@.take(i as int).drop_last() =~= map@.take(i - 1));
        if str_eq(map[i - 1].0.as_str(), operator_id) {
            return Some(&map[i - 1].1);
        }
        i -= 1;
    }
    None
}

pub open spec fn or_default_name(operator_id: Seq<char>, external_name: Option<Seq<char>>, info: Option<SklandCharacterInfo>) -> Seq<char> {
    match external_name {
        Some(n) => n,
        None => match info {
            Some(i) => match trimmed_nonempty(i.name) {
                Some(n) => n,
                None => operator_id,
            },
            None => operator_id,
        },
    }
}

/// An operator's name: the external definition's, else the character
/// info's (trimmed, if not empty), else its id.
pub fn resolve_operator_name(
    operator_id: &str,
    external_def: Option<&ExternalOperatorDefRecord>,
    char_info: Option<&SklandCharacterInfo>,
) -> (res: String)
    ensures
        res@ == or_default_name(
            operator_id@,
            match external_def {
                Some(d) => Some(d.name_zh@),
                None => None,
            },
            match char_info {
                Some(i) => Some(*i),
                None => None,
            },
        ),
{
    if let Some(d) = external_def {
        return d.name_zh.clone();
    }
    if let Some(info) = char_info {
        if let Some(n) = trimmed_nonempty_text(&info.name) {
            return n;
        }
    }
    operator_id.to_string()
}

/// An operator's profession: the external definition's, else the
/// character info's (trimmed, if not empty), else `未知`.
pub fn resolve_operator_profession(external_def: Option<&ExternalOperatorDefRecord>, char_info: Option<&SklandCharacterInfo>) -> (res: String)
    ensures
        res@ == (match external_def {
            Some(d) => d.profession@,
            None => match char_info {
                Some(i) => match trimmed_nonempty(i.profession) {
                    Some(p) => p,
                    None => "未知"@,
                },
                None => "未知"@,
            },
        }),
{
    if let Some(d) = external_def {
        return d.profession.clone();
    }
    if let Some(info) = char_info {
        if let Some(p) = trimmed_nonempty_text(&info.profession) {
            return p;
        }
    }
    "未知".to_string()
}

/// An operator's branch: the external definition's, where it has one,
/// else the character info's sub-profession (trimmed, if not empty).
pub fn resolve_operator_branch(external_def: Option<&ExternalOperatorDefRecord>, char_info: Option<&SklandCharacterInfo>) -> (res: Option<String>)
    ensures
        opt_view(res) == (match external_def {
            Some(d) if d.branch is Some => opt_view(d.branch),
            _ => match char_info {
                Some(i) => trimmed_nonempty(i.sub_profession_name),
                None => None,
            },
        }),
{
    if let Some(d) = external_def {
        if let Some(b) = &d.branch {
            return Some(b.clone());
        }
    }
    match char_info {
        Some(info) => trimmed_nonempty_text(&info.sub_profession_name),
        None => None,
    }
}

/// An operator's rarity, counted from one: the external definition's, else
/// the character info's plus one, else one; never below one.
pub fn resolve_operator_rarity(external_def: Option<&ExternalOperatorDefRecord>, char_info: Option<&SklandCharacterInfo>) -> (res: i64)
    requires
        char_info matches Some(i) ==> (i.rarity matches Some(r) ==> r < i64::MAX),
    ensures
        res == ({
            let r = match external_def {
                Some(d) => d.rarity as int,
                None => match char_info {
                    Some(i) => match i.rarity {
                        Some(r) => r + 1,
                        None => 1,
                    },
                    None => 1,
                },
            };
            if r < 1 {
                1
            } else {
                r
            }
        }),
{
    let r = match external_def {
        Some(d) => d.rarity,
        None => match char_info {
            Some(info) => match info.rarity {
                Some(r) => r + 1,
                None => 1,
            },
            None => 1,
        },
    };
    if r < 1 {
        1
    } else {
        r
    }
}

/// The first equipment, from `i` on, that is not locked (and, with `id`,
/// has that id).
pub open spec fn first_unlocked_from(equip: Seq<SklandEquipState>, id: Option<Seq<char>>, i: int) -> Option<int>
    decreases equip.len() - i,
{
    if i < 0 || i >= equip.len() {
        None
    } else if !equip[i].locked && (match id {
        Some(x) => equip[i].id@ == x,
        None => true,
    }) {
        Some(i)
    } else {
        first_unlocked_from(equip, id, i + 1)
    }
}

/// The module an operator uses: the default equipment where it is unlocked,
/// else the first unlocked one (with its level, at least one); `locked`
/// where all are locked; none without equipment.
pub open spec fn module_state(op: SklandCharacter) -> (Option<Seq<char>>, Option<int>) {
    let by_default = match op.default_equip_id {
        Some(d) => first_unlocked_from(op.equip@, Some(d@), 0),
        None => None,
    };
    let pick = if by_default is Some {
        by_default
    } else {
        first_unlocked_from(op.equip@, None, 0)
    };
    match pick {
        Some(k) => (
            Some(op.equip@[k].id@),
            Some(if op.equip@[k].level < 1 {
                1
            } else {
                op.equip@[k].level as int
            }),
        ),
        None => if op.equip@.len() == 0 {
            (None, None)
        } else {
            (Some("locked"@), None)
        },
    }
}

proof fn lemma_first_unlocked_bound(equip: Seq<SklandEquipState>, id: Option<Seq<char>>, i: int)
    ensures
        first_unlocked_from(equip, id, i) matches Some(k) ==> i <= k < equip.len(),
    decreases equip.len() - i,
{
    if 0 <= i < equip.len() {
        lemma_first_unlocked_bound(equip, id, i + 1);
    }
}

fn find_unlocked(equip: &Vec<SklandEquipState>, id: Option<&str>) -> (res: Option<usize>)
    ensures
        res is Some <==> first_unlocked_from(
            equip@,
            match id {
                Some(x) => Some(x@),
                None => None,
            },
            0,
        ) is Some,
        res matches Some(k) ==> first_unlocked_from(
            equip@,
            match id {
                Some(x) => Some(x@),
                None => None,
            },
            0,
        ) == Some(k as int),
{
    let ghost sid = match id {
        Some(x) => Some(x@),
        None => None,
    };
    let mut i: usize = 0;
    while i < equip.len()
        invariant
            i <= equip@.len(),
            sid == (match id {
                Some(x) => Some(x@),
                None => None::<Seq<char>>,
            }),
            first_unlocked_from(equip@, sid, 0) == first_unlocked_from(equip@, sid, i as int),
        decreases equip@.len() - i,
    {
        let matches_id = match id {
            Some(x) => str_eq(equip[i].id.as_str(), x),
            None => true,
        };
        if !equip[i].locked && matches_id {
            return Some(i);
        }
        i += 1;
    }
    None
}

pub fn resolve_module_state(operator: &SklandCharacter) -> (res: (Option<String>, Option<i64>))
    ensures
        (opt_view(res.0), match res.1 {
            Some(l) => Some(l as int),
            None => None,
        }) == module_state(*operator),
{
    let mut pick: Option<usize> = None;
    if let Some(d) = &operator.default_equip_id {
        pick = find_unlocked(&operator.equip, Some(d.as_str()));
    }
    if pick.is_none() {
        pick = find_unlocked(&operator.equip, None);
    }
    proof {
        lemma_first_unlocked_bound(operator.equip@, None, 0);
        if operator.default_equip_id is Some {
            lemma_first_unlocked_bound(operator.equip@, Some(operator.default_equip_id->Some_0@), 0);
        }
    }
    match pick {
        Some(k) => {
            let e = &operator.equip[k];
            let level = if e.level < 1 {
                1
            } else {
                e.level
            };
            (Some(e.id.clone()), Some(level))
        },
        None => if operator.equip.len() == 0 {
            (None, None)
        } else {
            (Some("locked".to_string()), None)
        },
    }
}

pub open spec fn at_least(v: i64, floor: int) -> int {
    if v < floor {
        floor
    } else {
        v as int
    }
}

/// The specialization of the operator's `k`-th skill, or zero.
pub open spec fn mastery(op: SklandCharacter, k: int) -> int {
    if k < op.skills@.len() {
        op.skills@[k].specialize_level as int
    } else {
        0
    }
}

fn mastery_of(op: &SklandCharacter, k: usize) -> (res: i64)
    ensures
        res == mastery(*op, k as int),
{
    if k < op.skills.len() {
        op.skills[k].specialize_level
    } else {
        0
    }
}

/// The sample of an operator shown when inspecting player info.
pub open spec fn is_sample_of(s: SklandOperatorSample, op: SklandCharacter, map: Seq<(String, SklandCharacterInfo)>) -> bool {
    &&& s.operator_id@ == op.char_id@
    &&& s.name_zh@ == or_default_name(op.char_id@, None, char_info_for(map, op.char_id@))
    &&& s.level == at_least(op.level, 1)
    &&& s.elite_stage == at_least(op.evolve_phase, 0)
    &&& s.skill_level == at_least(op.main_skill_lvl, 1)
    &&& s.mastery_1 == mastery(op, 0) && s.mastery_2 == mastery(op, 1) && s.mastery_3 == mastery(op, 2)
    &&& (opt_view(s.module_state), match s.module_level {
        Some(l) => Some(l as int),
        None => None,
    }) == module_state(op)
}

pub fn build_operator_sample(operator: &SklandCharacter, char_info_map: &Vec<(String, SklandCharacterInfo)>) -> (res: SklandOperatorSample)
    ensures
        is_sample_of(res, *operator, char_info_map@),
{
    let info = lookup_char_info(char_info_map, operator.char_id.as_str());
    let (module_state, module_level) = resolve_module_state(operator);
    SklandOperatorSample {
        operator_id: operator.char_id.clone(),
        name_zh: resolve_operator_name(operator.char_id.as_str(), None, info),
        level: if operator.level < 1 {
            1
        } else {
            operator.level
        },
        elite_stage: if operator.evolve_phase < 0 {
            0
        } else {
            operator.evolve_phase
        },
        skill_level: if operator.main_skill_lvl < 1 {
            1
        } else {
            operator.main_skill_lvl
        },
        mastery_1: mastery_of(operator, 0),
        mastery_2: mastery_of(operator, 1),
        mastery_3: mastery_of(operator, 2),
        module_state,
        module_level,
    }
}

// ---------------------------------------------------------------------------
// sorted keys

/// Each name comes strictly before every later one.
pub open spec fn strictly_sorted(names: Seq<Seq<char>>) -> bool {
    forall|a: int, b: int| 0 <= a < b < names.len() ==> seq_lt(#[trigger] names[a], #[trigger] names[b])
}

/// Drops the repeats of a sorted list of names.
pub fn dedup_sorted(names: Vec<String>) -> (res: Vec<String>)
    requires
        names_sorted(string_views(names@)),
    ensures
        strictly_sorted(string_views(res@)),
        forall|x: Seq<char>| string_views(res@).contains(x) <==> string_views(names@).contains(x),
{
    let ghost input = string_views(names@);
    let mut out: Vec<String> = Vec::new();
    let mut i: usize = 0;
    while i < names.len()
        invariant
            i <= names@.len(),
            input == string_views(names@),
            names_sorted(input),
            strictly_sorted(string_views(out@)),
            i > 0 ==> out@.len() > 0 && out@.last()@ == input[i - 1],
            i == 0 ==> out@.len() == 0,
            forall|x: Seq<char>| string_views(out@).contains(x) <==> input.take(i as int).contains(x),
        decreases names@.len() - i,
    {
        let ghost before = string_views(out@);
        let x = &names[i];
        let push = if out.len() == 0 {
            true
        } else {
            !str_eq(out[out.len() - 1].as_str(), x.as_str())
        };
        let ghost t0 = input.take(i as int);
        let ghost t1 = input.take(i + 1);
        proof {
            assert(t1 =~= t0.push(input[i as int]));
        }
        if push {
            proof {
                if before.len() > 0 {
                    let last = before.last();
                    assert(!seq_lt(input[i as int], input[i - 1]));
                    crate::text::lemma_seq_lt_total(last, input[i as int]);
                    assert forall|j: int| 0 <= j < before.len() implies seq_lt(#[trigger] before[j], input[i as int]) by {
                        if j < before.len() - 1 {
                            crate::text::lemma_seq_lt_transitive(before[j], last, input[i as int]);
                        }
                    }
                }
            }
            out.push(x.clone());
            proof {
                assert(string_views(out@) =~= before.push(input[i as int]));
                assert forall|y: Seq<char>| string_views(out@).contains(y) <==> t1.contains(y) by {
                    if string_views(out@).contains(y) && !before.contains(y) {
                        let k = choose|k: int| 0 <= k < string_views(out@).len() && string_views(out@)[k] == y;
                        if k < before.len() {
                            assert(before[k] == y);
                        }
                        assert(t1[i as int] == y);
                    }
                    if before.contains(y) {
                        let k = choose|k: int| 0 <= k < before.len() && before[k] == y;
                        assert(string_views(out@)[k] == y);
                    }
                    if t1.contains(y) && !t0.contains(y) {
                        let k = choose|k: int| 0 <= k < i + 1 && t1[k] == y;
                        if k < i {
                            assert(t0[k] == y);
                        }
                        assert(string_views(out@)[before.len() as int] == y);
                    }
                    if t0.contains(y) {
                        let k = choose|k: int| 0 <= k < i && t0[k] == y;
                        assert(t1[k] == y);
                    }
                }
            }
        } else {
            proof {
                assert forall|y: Seq<char>| before.contains(y) <==> t1.contains(y) by {
                    if t1.contains(y) && !t0.contains(y) {
                        let k = choose|k: int| 0 <= k < i + 1 && t1[k] == y;
                        if k < i {
                            assert(t0[k] == y);
                        }
                        assert(before[before.len() - 1] == y);
                    }
                    if t0.contains(y) {
                        let k = choose|k: int| 0 <= k < i && t0[k] == y;
                        assert(t1[k] == y);
                    }
                }
            }
        }
        i += 1;
    }
    assert(input.take(i as int) =~= input);
    out
}

/// The names of the status fields: the other fields, and `name` and
/// `storeTs` where the status has them.
pub open spec fn status_key_candidates(status: SklandPlayerStatus) -> Seq<Seq<char>> {
    let extra = status.extra_fields@.map_values(|f: (String, JsonValue)| f.0@);
    let with_name = if status.name is Some {
        extra.push("name"@)
    } else {
        extra
    };
    if status.store_ts is Some {
        with_name.push("storeTs"@)
    } else {
        with_name
    }
}

/// The names of the status fields, sorted, each once.
pub fn build_status_keys(status: &SklandPlayerStatus) -> (res: Vec<String>)
    ensures
        strictly_sorted(string_views(res@)),
        forall|x: Seq<char>| string_views(res@).contains(x) <==> status_key_candidates(*status).contains(x),
{
    let mut keys: Vec<String> = Vec::new();
    let mut i: usize = 0;
    while i < status.extra_fields.len()
        invariant
            i <= status.extra_fields@.len(),
            string_views(keys@) == status.extra_fields@.map_values(|f: (String, JsonValue)| f.0@).take(i as int),
        decreases status.extra_fields@.len() - i,
    {
        let ghost before = keys@;
        let k = status.extra_fields[i].0.clone();
        keys.push(k);
        proof {
            assert(string_views(keys@) =~= string_views(before).push(status.extra_fields@[i as int].0@));
            assert(status.extra_fields@.map_values(|f: (String, JsonValue)| f.0@).take(i + 1)
                =~= status.extra_fields@.map_values(|f: (String, JsonValue)| f.0@).take(i as int).push(
                status.extra_fields@[i as int].0@,
            ));
        }
        i += 1;
    }
    assert(status.extra_fields@.map_values(|f: (String, JsonValue)| f.0@).take(i as int)
        =~= status.extra_fields@.map_values(|f: (String, JsonValue)| f.0@));
    if status.name.is_some() {
        let ghost before = keys@;
        keys.push("name".to_string());
        assert(string_views(keys@) =~= string_views(before).push("name"@));
    }
    if status.store_ts.is_some() {
        let ghost before = keys@;
        keys.push("storeTs".to_string());
        assert(string_views(keys@) =~= string_views(before).push("storeTs"@));
    }
    let ghost candidates = string_views(keys@);
    let sorted = sort_strings(keys);
    proof {
        assert forall|x: Seq<char>| string_views(sorted@).contains(x) <==> candidates.contains(x) by {
            broadcast use vstd::seq_lib::group_to_multiset_ensures;

            assert(string_views(sorted@).to_multiset().count(x) == candidates.to_multiset().count(x));
        }
    }
    dedup_sorted(sorted)
}

// ---------------------------------------------------------------------------
// the operator import

/// The state of one operator as an import writes it. (The writer records
/// imported rows with full recognition confidence.)
pub struct OperatorStateUpsert {
    pub operator_id: String,
    pub name_zh: String,
    pub owned: bool,
    pub rarity: i64,
    pub profession: String,
    pub branch: Option<String>,
    pub elite_stage: i64,
    pub level: i64,
    pub skill_level: i64,
    pub mastery_1: i64,
    pub mastery_2: i64,
    pub mastery_3: i64,
    pub module_state: Option<String>,
    pub module_level: Option<i64>,
    pub last_scanned_at: Option<String>,
    pub snapshot_id: String,
}

pub struct OperatorStateImportPlan {
    pub entries: Vec<OperatorStateUpsert>,
    pub imported_row_count: usize,
    pub owned_row_count: usize,
    pub unowned_row_count: usize,
    pub used_external_operator_defs: bool,
}

/// The last definition with this id (a later one replaces an earlier).
pub open spec fn last_def_index(defs: Seq<ExternalOperatorDefRecord>, id: Seq<char>) -> Option<int>
    decreases defs.len(),
{
    if defs.len() == 0 {
        None
    } else if defs.last().operator_id@ == id {
        Some(defs.len() - 1)
    } else {
        last_def_index(defs.drop_last(), id)
    }
}

/// The last owned character with this id.
pub open spec fn last_char_index(chars: Seq<SklandCharacter>, id: Seq<char>) -> Option<int>
    decreases chars.len(),
{
    if chars.len() == 0 {
        None
    } else if chars.last().char_id@ == id {
        Some(chars.len() - 1)
    } else {
        last_char_index(chars.drop_last(), id)
    }
}

proof fn lemma_last_def_index(defs: Seq<ExternalOperatorDefRecord>, id: Seq<char>)
    ensures
        last_def_index(defs, id) matches Some(k) ==> 0 <= k < defs.len(),
    decreases defs.len(),
{
    if defs.len() > 0 {
        lemma_last_def_index(defs.drop_last(), id);
    }
}

proof fn lemma_last_char_index(chars: Seq<SklandCharacter>, id: Seq<char>)
    ensures
        last_char_index(chars, id) matches Some(k) ==> 0 <= k < chars.len(),
    decreases chars.len(),
{
    if chars.len() > 0 {
        lemma_last_char_index(chars.drop_last(), id);
    }
}

fn find_last_def(defs: &[ExternalOperatorDefRecord], id: &str) -> (res: Option<usize>)
    ensures
        res is Some <==> last_def_index(defs@, id@) is Some,
        res matches Some(k) ==> last_def_index(defs@, id@) == Some(k as int),
{
    let mut i = defs.len();
    assert(defs@.take(i as int) =~= defs@);
    while i > 0
        invariant
            i <= defs@.len(),
            last_def_index(defs@, id@) == last_def_index(defs@.take(i as int), id@),
        decreases i,
    {
        assert(defs@.take(i as int).drop_last() =~= defs@.take(i - 1));
        if str_eq(defs[i - 1].operator_id.as_str(), id) {
            return Some(i - 1);
        }
        i -= 1;
    }
    None
}

fn find_last_char(chars: &Vec<SklandCharacter>, id: &str) -> (res: Option<usize>)
    ensures
        res is Some <==> last_char_index(chars@, id@) is Some,
        res matches Some(k) ==> last_char_index(chars@, id@) == Some(k as int),
{
    let mut i = chars.len();
    assert(chars@.take(i as int) =~= chars@);
    while i > 0
        invariant
            i <= chars@.len(),
            last_char_index(chars@, id@) == last_char_index(chars@.take(i as int), id@),
        decreases i,
    {
        assert(chars@.take(i as int).drop_last() =~= chars@.take(i - 1));
        if str_eq(chars[i - 1].char_id.as_str(), id) {
            return Some(i - 1);
        }
        i -= 1;
    }
    None
}

/// The operators an import writes: those of the external index where it
/// has any, else those the character info describes, else those the
/// player owns.
pub open spec fn candidate_operator_ids(defs: Seq<ExternalOperatorDefRecord>, info: SklandPlayerInfo) -> Seq<Seq<char>> {
    if defs.len() > 0 {
        defs.map_values(|d: ExternalOperatorDefRecord| d.operator_id@)
    } else if info.char_info_map@.len() > 0 {
        info.char_info_map@.map_values(|e: (String, SklandCharacterInfo)| e.0@)
    } else {
        info.chars@.map_values(|c: SklandCharacter| c.char_id@)
    }
}

pub open spec fn opt_def(defs: Seq<ExternalOperatorDefRecord>, id: Seq<char>) -> Option<ExternalOperatorDefRecord> {
    match last_def_index(defs, id) {
        Some(k) => Some(defs[k]),
        None => None,
    }
}

pub open spec fn opt_char(chars: Seq<SklandCharacter>, id: Seq<char>) -> Option<SklandCharacter> {
    match last_char_index(chars, id) {
        Some(k) => Some(chars[k]),
        None => None,
    }
}

/// The row an import writes for operator `id`.
pub open spec fn is_state_row(
    e: OperatorStateUpsert,
    id: Seq<char>,
    defs: Seq<ExternalOperatorDefRecord>,
    info: SklandPlayerInfo,
    snapshot_id: Seq<char>,
    imported_at: Seq<char>,
) -> bool {
    let def = opt_def(defs, id);
    let ci = char_info_for(info.char_info_map@, id);
    let owned = opt_char(info.chars@, id);
    &&& e.operator_id@ == id
    &&& e.name_zh@ == or_default_name(
        id,
        match def {
            Some(d) => Some(d.name_zh@),
            None => None,
        },
        ci,
    )
    &&& e.owned == owned is Some
    &&& e.rarity as int == ({
        let r = match def {
            Some(d) => d.rarity as int,
            None => match ci {
                Some(i) => match i.rarity {
                    Some(r) => r + 1,
                    None => 1,
                },
                None => 1,
            },
        };
        if r < 1 {
            1
        } else {
            r
        }
    })
    &&& e.profession@ == (match def {
        Some(d) => d.profession@,
        None => match ci {
            Some(i) => match trimmed_nonempty(i.profession) {
                Some(p) => p,
                None => "未知"@,
            },
            None => "未知"@,
        },
    })
    &&& opt_view(e.branch) == (match def {
        Some(d) if d.branch is Some => opt_view(d.branch),
        _ => match ci {
            Some(i) => trimmed_nonempty(i.sub_profession_name),
            None => None,
        },
    })
    &&& match owned {
        Some(op) => {
            &&& e.elite_stage == at_least(op.evolve_phase, 0)
            &&& e.level == at_least(op.level, 1)
            &&& e.skill_level == at_least(op.main_skill_lvl, 1)
            &&& e.mastery_1 == mastery(op, 0) && e.mastery_2 == mastery(op, 1) && e.mastery_3 == mastery(op, 2)
            &&& (opt_view(e.module_state), match e.module_level {
                Some(l) => Some(l as int),
                None => None,
            }) == module_state(op)
        },
        None => {
            &&& e.elite_stage == 0 && e.level == 1 && e.skill_level == 1
            &&& e.mastery_1 == 0 && e.mastery_2 == 0 && e.mastery_3 == 0
            &&& e.module_state is None && e.module_level is None
        },
    }
    &&& opt_view(e.last_scanned_at) == Some(imported_at)
    &&& e.snapshot_id@ == snapshot_id
}

pub open spec fn row_ids(entries: Seq<OperatorStateUpsert>) -> Seq<Seq<char>> {
    entries.map_values(|e: OperatorStateUpsert| e.operator_id@)
}

pub open spec fn owned_count(entries: Seq<OperatorStateUpsert>) -> nat
    decreases entries.len(),
{
    if entries.len() == 0 {
        0
    } else {
        owned_count(entries.drop_last()) + if entries.last().owned {
            1nat
        } else {
            0nat
        }
    }
}

/// Character infos whose rarity can take one more.
pub open spec fn rarities_in_range(info: SklandPlayerInfo) -> bool {
    forall|k: int|
        0 <= k < info.char_info_map@.len() ==> ((#[trigger] info.char_info_map@[k]).1.rarity matches Some(r) ==> r
            < i64::MAX)
}

fn ids_of_defs(defs: &[ExternalOperatorDefRecord]) -> (res: Vec<String>)
    ensures
        string_views(res@) == defs@.map_values(|d: ExternalOperatorDefRecord| d.operator_id@),
{
    let mut out: Vec<String> = Vec::new();
    let mut i: usize = 0;
    while i < defs.len()
        invariant
            i <= defs@.len(),
            string_views(out@) == defs@.take(i as int).map_values(|d: ExternalOperatorDefRecord| d.operator_id@),
        decreases defs@.len() - i,
    {
        let ghost before = out@;
        out.push(defs[i].operator_id.clone());
        assert(string_views(out@) =~= string_views(before).push(defs@[i as int].operator_id@));
        assert(defs@.take(i + 1).map_values(|d: ExternalOperatorDefRecord| d.operator_id@) =~= defs@.take(
            i as int,
        ).map_values(|d: ExternalOperatorDefRecord| d.operator_id@).push(defs@[i as int].operator_id@));
        i += 1;
    }
    assert(defs@.take(i as int) =~= defs@);
    out
}

fn ids_of_char_infos(map: &Vec<(String, SklandCharacterInfo)>) -> (res: Vec<String>)
    ensures
        string_views(res@) == map@.map_values(|e: (String, SklandCharacterInfo)| e.0@),
{
    let mut out: Vec<String> = Vec::new();
    let mut i: usize = 0;
    while i < map.len()
        invariant
            i <= map@.len(),
            string_views(out@) == map@.take(i as int).map_values(|e: (String, SklandCharacterInfo)| e.0@),
        decreases map@.len() - i,
    {
        let ghost before = out@;
        out.push(map[i].0.clone());
        assert(string_views(out@) =~= string_views(before).push(map@[i as int].0@));
        assert(map@.take(i + 1).map_values(|e: (String, SklandCharacterInfo)| e.0@) =~= map@.take(
            i as int,
        ).map_values(|e: (String, SklandCharacterInfo)| e.0@).push(map@[i as int].0@));
        i += 1;
    }
    assert(map@.take(i as int) =~= map@);
    out
}

fn ids_of_chars(chars: &Vec<SklandCharacter>) -> (res: Vec<String>)
    ensures
        string_views(res@) == chars@.map_values(|c: SklandCharacter| c.char_id@),
{
    let mut out: Vec<String> = Vec::new();
    let mut i: usize = 0;
    while i < chars.len()
        invariant
            i <= chars@.len(),
            string_views(out@) == chars@.take(i as int).map_values(|c: SklandCharacter| c.char_id@),
        decreases chars@.len() - i,
    {
        let ghost before = out@;
        out.push(chars[i].char_id.clone());
        assert(string_views(out@) =~= string_views(before).push(chars@[i as int].char_id@));
        assert(chars@.take(i + 1).map_values(|c: SklandCharacter| c.char_id@) =~= chars@.take(
            i as int,
        ).map_values(|c: SklandCharacter| c.char_id@).push(chars@[i as int].char_id@));
        i += 1;
    }
    assert(chars@.take(i as int) =~= chars@);
    out
}

fn state_row(
    id: &String,
    defs: &[ExternalOperatorDefRecord],
    player_info: &SklandPlayerInfo,
    snapshot_id: &str,
    imported_at: &str,
) -> (res: OperatorStateUpsert)
    requires
        rarities_in_range(*player_info),
    ensures
        is_state_row(res, id@, defs@, *player_info, snapshot_id@, imported_at@),
{
    let def_index = find_last_def(defs, id.as_str());
    proof {
        lemma_last_def_index(defs@, id@);
        lemma_last_char_index(player_info.chars@, id@);
        lemma_last_key_index(player_info.char_info_map@, id@);
    }
    let def = match def_index {
        Some(k) => Some(&defs[k]),
        None => None,
    };
    let char_info = lookup_char_info(&player_info.char_info_map, id.as_str());
    let owned_index = find_last_char(&player_info.chars, id.as_str());
    let name_zh = resolve_operator_name(id.as_str(), def, char_info);
    let rarity = resolve_operator_rarity(def, char_info);
    let profession = resolve_operator_profession(def, char_info);
    let branch = resolve_operator_branch(def, char_info);
    match owned_index {
        Some(k) => {
            let op = &player_info.chars[k];
            let (module_state, module_level) = resolve_module_state(op);
            OperatorStateUpsert {
                operator_id: id.clone(),
                name_zh,
                owned: true,
                rarity,
                profession,
                branch,
                elite_stage: if op.evolve_phase < 0 {
                    0
                } else {
                    op.evolve_phase
                },
                level: if op.level < 1 {
                    1
                } else {
                    op.level
                },
                skill_level: if op.main_skill_lvl < 1 {
                    1
                } else {
                    op.main_skill_lvl
                },
                mastery_1: mastery_of(op, 0),
                mastery_2: mastery_of(op, 1),
                mastery_3: mastery_of(op, 2),
                module_state,
                module_level,
                last_scanned_at: Some(imported_at.to_string()),
                snapshot_id: snapshot_id.to_string(),
            }
        },
        None => OperatorStateUpsert {
            operator_id: id.clone(),
            name_zh,
            owned: false,
            rarity,
            profession,
            branch,
            elite_stage: 0,
            level: 1,
            skill_level: 1,
            mastery_1: 0,
            mastery_2: 0,
            mastery_3: 0,
            module_state: None,
            module_level: None,
            last_scanned_at: Some(imported_at.to_string()),
            snapshot_id: snapshot_id.to_string(),
        },
    }
}

/// What an import of the player info writes for the operators: one row per
/// candidate operator (see `candidate_operator_ids`), sorted by id, each id
/// once, with its counts.
pub fn build_operator_state_plan(
    external_operator_defs: &[ExternalOperatorDefRecord],
    player_info: &SklandPlayerInfo,
    snapshot_id: &str,
    imported_at: &str,
) -> (res: OperatorStateImportPlan)
    requires
        rarities_in_range(*player_info),
    ensures
        strictly_sorted(row_ids(res.entries@)),
        forall|x: Seq<char>| row_ids(res.entries@).contains(x) <==> candidate_operator_ids(
            external_operator_defs@,
            *player_info,
        ).contains(x),
        forall|k: int|
            0 <= k < res.entries@.len() ==> is_state_row(
                #[trigger] res.entries@[k],
                res.entries@[k].operator_id@,
                external_operator_defs@,
                *player_info,
                snapshot_id@,
                imported_at@,
            ),
        res.imported_row_count == res.entries@.len(),
        res.owned_row_count == owned_count(res.entries@),
        res.unowned_row_count == res.imported_row_count - res.owned_row_count,
        res.used_external_operator_defs == (external_operator_defs@.len() > 0),
{
    let candidates = if external_operator_defs.len() > 0 {
        ids_of_defs(external_operator_defs)
    } else if player_info.char_info_map.len() > 0 {
        ids_of_char_infos(&player_info.char_info_map)
    } else {
        ids_of_chars(&player_info.chars)
    };
    let ghost cands = string_views(candidates@);
    let sorted = sort_strings(candidates);
    proof {
        assert forall|x: Seq<char>| string_views(sorted@).contains(x) <==> cands.contains(x) by {
            broadcast use vstd::seq_lib::group_to_multiset_ensures;

            assert(string_views(sorted@).to_multiset().count(x) == cands.to_multiset().count(x));
        }
    }
    let ids = dedup_sorted(sorted);
    let mut entries: Vec<OperatorStateUpsert> = Vec::new();
    let mut owned_row_count: usize = 0;
    let mut i: usize = 0;
    while i < ids.len()
        invariant
            i <= ids@.len(),
            rarities_in_range(*player_info),
            entries@.len() == i,
            row_ids(entries@) == string_views(ids@).take(i as int),
            forall|k: int|
                0 <= k < entries@.len() ==> is_state_row(
                    #[trigger] entries@[k],
                    entries@[k].operator_id@,
                    external_operator_defs@,
                    *player_info,
                    snapshot_id@,
                    imported_at@,
                ),
            owned_row_count == owned_count(entries@),
            owned_row_count <= i,
        decreases ids@.len() - i,
    {
        let row = state_row(&ids[i], external_operator_defs, player_info, snapshot_id, imported_at);
        let owned = row.owned;
        let ghost before = entries@;
        entries.push(row);
        proof {
            assert(entries@.drop_last() =~= before);
            assert(row_ids(entries@) =~= row_ids(before).push(ids@[i as int]@));
            assert(string_views(ids@).take(i + 1) =~= string_views(ids@).take(i as int).push(ids@[i as int]@));
        }
        if owned {
            owned_row_count += 1;
        }
        i += 1;
    }
    assert(string_views(ids@).take(i as int) =~= string_views(ids@));
    let imported_row_count = entries.len();
    OperatorStateImportPlan {
        imported_row_count,
        owned_row_count,
        unowned_row_count: imported_row_count - owned_row_count,
        entries,
        used_external_operator_defs: external_operator_defs.len() > 0,
    }
}

// ---------------------------------------------------------------------------
// the base and the inspection

/// What an import records of the player's base.
pub struct BaseBuildingFacts {
    pub building_keys: Vec<String>,
    pub has_control: bool,
    pub has_meeting: bool,
    pub has_training: bool,
    pub has_hire: bool,
    pub dormitory_count: usize,
    pub manufacture_count: usize,
    pub trading_count: usize,
    pub power_count: usize,
    pub tired_char_count: usize,
}

pub open spec fn is_facts_of(f: BaseBuildingFacts, building: JsonValue) -> bool {
    &&& names_sorted(string_views(f.building_keys@))
    &&& string_views(f.building_keys@).to_multiset() == object_names(building).to_multiset()
    &&& f.has_control == has_non_null_member(building, "control"@)
    &&& f.has_meeting == has_non_null_member(building, "meeting"@)
    &&& f.has_training == has_non_null_member(building, "training"@)
    &&& f.has_hire == has_non_null_member(building, "hire"@)
    &&& f.dormitory_count == member_array_len(building, "dormitories"@)
    &&& f.manufacture_count == member_array_len(building, "manufactures"@)
    &&& f.trading_count == member_array_len(building, "tradings"@)
    &&& f.power_count == member_array_len(building, "powers"@)
    &&& f.tired_char_count == member_array_len(building, "tiredChars"@)
}

/// The base's member names (sorted), which rooms it has and how many of the
/// counted rooms and tired operators.
pub fn base_building_facts(building: &JsonValue) -> (res: BaseBuildingFacts)
    ensures
        is_facts_of(res, *building),
{
    BaseBuildingFacts {
        building_keys: sorted_member_names(building),
        has_control: json_has_non_null_key(building, "control"),
        has_meeting: json_has_non_null_key(building, "meeting"),
        has_training: json_has_non_null_key(building, "training"),
        has_hire: json_has_non_null_key(building, "hire"),
        dormitory_count: json_array_len(building, "dormitories"),
        manufacture_count: json_array_len(building, "manufactures"),
        trading_count: json_array_len(building, "tradings"),
        power_count: json_array_len(building, "powers"),
        tired_char_count: json_array_len(building, "tiredChars"),
    }
}

/// The inspection of fetched player info.
pub fn build_inspect_outcome(
    uid: &str,
    binding_count: usize,
    raw_body: &[u8],
    player_info: &SklandPlayerInfo,
    revision: &str,
) -> (res: SklandPlayerInfoInspectOutcome)
    ensures
        res.source_id@ == SKLAND_PLAYER_INFO_SOURCE_ID@,
        res.cache_key@ == SKLAND_PLAYER_INFO_CACHE_KEY@,
        res.revision@ == revision@,
        res.cache_size_bytes == raw_body@.len(),
        res.uid@ == uid@,
        opt_view(res.account_name) == trimmed_nonempty(player_info.status.name),
        res.status_store_ts == player_info.status.store_ts,
        strictly_sorted(string_views(res.status_keys@)),
        forall|x: Seq<char>| string_views(res.status_keys@).contains(x) <==> status_key_candidates(
            player_info.status,
        ).contains(x),
        res.binding_count == binding_count,
        res.char_count == player_info.chars@.len(),
        res.assist_count == player_info.assist_chars@.len(),
        res.equipment_info_count == player_info.equipment_info_map@.len(),
        res.char_info_count == player_info.char_info_map@.len(),
        res.has_building == !(player_info.building is Null),
        names_sorted(string_views(res.building_keys@)),
        string_views(res.building_keys@).to_multiset() == object_names(player_info.building).to_multiset(),
        res.has_control == has_non_null_member(player_info.building, "control"@),
        res.has_meeting == has_non_null_member(player_info.building, "meeting"@),
        res.has_training == has_non_null_member(player_info.building, "training"@),
        res.has_hire == has_non_null_member(player_info.building, "hire"@),
        res.dormitory_count == member_array_len(player_info.building, "dormitories"@),
        res.manufacture_count == member_array_len(player_info.building, "manufactures"@),
        res.trading_count == member_array_len(player_info.building, "tradings"@),
        res.power_count == member_array_len(player_info.building, "powers"@),
        res.tired_char_count == member_array_len(player_info.building, "tiredChars"@),
        player_info.chars@.len() == 0 ==> res.sample_operator is None,
        player_info.chars@.len() > 0 ==> (res.sample_operator matches Some(s) && is_sample_of(
            s,
            player_info.chars@[0],
            player_info.char_info_map@,
        )),
{
    let facts = base_building_facts(&player_info.building);
    let sample = if player_info.chars.len() > 0 {
        Some(build_operator_sample(&player_info.chars[0], &player_info.char_info_map))
    } else {
        None
    };
    SklandPlayerInfoInspectOutcome {
        source_id: SKLAND_PLAYER_INFO_SOURCE_ID.to_string(),
        cache_key: SKLAND_PLAYER_INFO_CACHE_KEY.to_string(),
        revision: revision.to_string(),
        cache_size_bytes: raw_body.len(),
        uid: uid.to_string(),
        account_name: trimmed_nonempty_text(&player_info.status.name),
        status_store_ts: player_info.status.store_ts,
        status_keys: build_status_keys(&player_info.status),
        binding_count,
        char_count: player_info.chars.len(),
        assist_count: player_info.assist_chars.len(),
        equipment_info_count: player_info.equipment_info_map.len(),
        char_info_count: player_info.char_info_map.len(),
        has_building: !player_info.building.is_null(),
        building_keys: facts.building_keys,
        has_control: facts.has_control,
        has_meeting: facts.has_meeting,
        has_training: facts.has_training,
        has_hire: facts.has_hire,
        dormitory_count: facts.dormitory_count,
        manufacture_count: facts.manufacture_count,
        trading_count: facts.trading_count,
        power_count: facts.power_count,
        tired_char_count: facts.tired_char_count,
        sample_operator: sample,
    }
}

// ---------------------------------------------------------------------------
// signed requests

/// The URL of a signed request: the base, the path, and `?` and the query
/// where there is one.
pub fn skland_request_url(api_base_url: &str, path: &str, query_string: &str) -> (res: String)
    ensures
        res@ == if query_string@.len() == 0 {
            api_base_url@ + path@
        } else {
            api_base_url@ + path@ + seq!['?'] + query_string@
        },
{
    let mut url = api_base_url.to_string();
    url.append(path);
    if !query_string.is_empty() {
        push_char(&mut url, '?');
        url.append(query_string);
    }
    url
}

/// The header JSON that a signature covers, with the request's timestamp.
pub fn skland_header_json(timestamp: &str) -> (res: String)
    ensures
        res@ == "{\"platform\":\"\",\"timestamp\":\""@ + timestamp@ + "\",\"dId\":\"\",\"vName\":\"\"}"@,
{
    let mut s = "{\"platform\":\"\",\"timestamp\":\"".to_string();
    s.append(timestamp);
    s.append("\",\"dId\":\"\",\"vName\":\"\"}");
    s
}

/// An answer is a success where its code is zero; otherwise its message
/// is the error.
pub fn ensure_skland_success<T>(envelope: SklandApiEnvelope<T>, operation: &'static str) -> (res: Result<SklandApiEnvelope<T>, SklandClientError>)
    ensures
        (if envelope.code is Some {
            envelope.code
        } else {
            envelope.status
        }) == Some(0i64) ==> res == Ok::<SklandApiEnvelope<T>, SklandClientError>(envelope),
        (if envelope.code is Some {
            envelope.code
        } else {
            envelope.status
        }) != Some(0i64) ==> (res matches Err(SklandClientError::ApiError { operation: op, message }) && op@
            == operation@ && message@ == (match envelope.message {
            Some(m) => m@,
            None => match envelope.msg {
                Some(m) => m@,
                None => "服务端没有返回可读消息"@,
            },
        })),
{
    match envelope.status_code() {
        Some(0) => Ok(envelope),
        _ => Err(SklandClientError::ApiError { operation, message: envelope.message_text() }),
    }
}

/// The cache entry of a fetched player-info body, under its revision.
pub fn player_info_cache_entry<'a>(revision: &'a str, payload: &'a [u8]) -> (res: RawSourceCacheUpsert<'a>)
    ensures
        res.cache_key@ == SKLAND_PLAYER_INFO_CACHE_KEY@,
        res.source_name@ == SKLAND_PLAYER_INFO_SOURCE_ID@,
        opt_str_view(res.revision) == Some(revision@),
        res.content_type@ == "application/json"@,
        res.payload@ == payload@,
        res.expires_at is None,
{
    RawSourceCacheUpsert {
        cache_key: SKLAND_PLAYER_INFO_CACHE_KEY,
        source_name: SKLAND_PLAYER_INFO_SOURCE_ID,
        revision: Some(revision),
        content_type: "application/json",
        payload,
        expires_at: None,
    }
}

pub open spec fn opt_str_view(o: Option<&str>) -> Option<Seq<char>> {
    match o {
        Some(t) => Some(t@),
        None => None,
    }
}

/// The audit entry of an import of the operators into the snapshot
/// `snapshot_id`.
pub fn operator_import_audit_entry<'a>(audit_id: &'a str, snapshot_id: &'a str, payload_json: &'a str) -> (res: AuditLogEntry<'a>)
    ensures
        res.audit_id@ == audit_id@,
        res.entity_type@ == "operator_snapshot"@,
        opt_str_view(res.entity_id) == Some(snapshot_id@),
        res.action@ == "replace_from_skland"@,
        res.summary@ == "森空岛 player/info 导入干员当前态"@,
        opt_str_view(res.payload_json) == Some(payload_json@),
        res.source@ == SKLAND_PLAYER_INFO_SOURCE_ID@,
{
    AuditLogEntry {
        audit_id,
        entity_type: "operator_snapshot",
        entity_id: Some(snapshot_id),
        action: "replace_from_skland",
        summary: "森空岛 player/info 导入干员当前态",
        payload_json: Some(payload_json),
        source: SKLAND_PLAYER_INFO_SOURCE_ID,
    }
}

/// The audit entry of an import of the account status and the base into
/// the status snapshot `status_snapshot_id`.
pub fn status_building_audit_entry<'a>(audit_id: &'a str, status_snapshot_id: &'a str, payload_json: &'a str) -> (res: AuditLogEntry<'a>)
    ensures
        res.audit_id@ == audit_id@,
        res.entity_type@ == "player_status_snapshot"@,
        opt_str_view(res.entity_id) == Some(status_snapshot_id@),
        res.action@ == "import"@,
        res.summary@ == "森空岛 player/info 导入账号状态与基建当前态"@,
        opt_str_view(res.payload_json) == Some(payload_json@),
        res.source@ == SKLAND_PLAYER_INFO_SOURCE_ID@,
{
    AuditLogEntry {
        audit_id,
        entity_type: "player_status_snapshot",
        entity_id: Some(status_snapshot_id),
        action: "import",
        summary: "森空岛 player/info 导入账号状态与基建当前态",
        payload_json: Some(payload_json),
        source: SKLAND_PLAYER_INFO_SOURCE_ID,
    }
}


// a summary of an answer that could not be read

/// The parts of the summary of an answer read as JSON: its status, code
/// and messages where present, then what its data is (its keys, given in
/// order, where it is an object).
pub open spec fn summary_parts(v: JsonValue, data_keys: Seq<Seq<char>>) -> Seq<Seq<char>> {
    let p0: Seq<Seq<char>> = seq![];
    let p1 = match member(v, "status"@) {
        Some(x) => match json_as_i64(x) {
            Some(n) => p0.push("status="@ + signed_decimal(n as int)),
            None => p0,
        },
        None => p0,
    };
    let p2 = match member(v, "code"@) {
        Some(x) => match json_as_i64(x) {
            Some(n) => p1.push("code="@ + signed_decimal(n as int)),
            None => p1,
        },
        None => p1,
    };
    let p3 = match member_str(v, "msg"@) {
        Some(m) => p2.push("msg="@ + m),
        None => p2,
    };
    let p4 = match member_str(v, "message"@) {
        Some(m) => p3.push("message="@ + m),
        None => p3,
    };
    match member(v, "data"@) {
        Some(JsonValue::Object(_)) => p4.push("data_keys="@ + join(data_keys, ","@)),
        Some(JsonValue::Array(items)) => p4.push("data_len="@ + decimal(items@.len())),
        Some(JsonValue::Null) => p4.push("data=null"@),
        Some(_) => p4.push("data=<scalar>"@),
        None => p4,
    }
}

/// The data member of an answer, or null.
pub open spec fn summary_data(parsed: Option<JsonValue>) -> JsonValue {
    match parsed {
        Some(v) => match member(v, "data"@) {
            Some(d) => d,
            None => JsonValue::Null,
        },
        None => JsonValue::Null,
    }
}

/// The length in bytes of the UTF-8 encoding of `s`, as `str::len` gives it.
pub open spec fn utf8_len(s: Seq<char>) -> nat {
    (vstd::utf8::encode_utf8(s).len() as usize) as nat
}

/// What an error message says of an answer body: that it is empty, the
/// parts of its JSON joined with "；", or else its length in bytes.
pub open spec fn response_summary(body: Seq<char>, parsed: Option<JsonValue>, data_keys: Seq<Seq<char>>) -> Seq<char> {
    let trimmed = trim(body);
    if trimmed.len() == 0 {
        "响应体为空"@
    } else {
        match parsed {
            Some(v) => if summary_parts(v, data_keys).len() > 0 {
                join(summary_parts(v, data_keys), "；"@)
            } else {
                "响应体不是可解析 JSON，长度 "@ + decimal(utf8_len(trimmed)) + " 字节"@
            },
            None => "响应体不是可解析 JSON，长度 "@ + decimal(utf8_len(trimmed)) + " 字节"@,
        }
    }
}

fn push_part(parts: &mut Vec<String>, label: &str, value: &str)
    ensures
        string_views(final(parts)@) == string_views(old(parts)@).push(label@ + value@),
{
    let mut part = label.to_string();
    part.append(value);
    parts.push(part);
    assert(string_views(parts@) =~= string_views(old(parts)@).push(label@ + value@));
}

/// Summarizes an answer body for an error message; `parsed` is the JSON
/// value that the trimmed body reads as, where it reads as one. The keys of
/// an object data are listed in sorted order.
pub fn summarize_skland_response_body(body: &str, parsed: Option<&JsonValue>) -> (res: String)
    ensures
        exists|ks: Seq<Seq<char>>|
            names_sorted(ks) && ks.to_multiset() == object_names(
                summary_data(
                    match parsed {
                        Some(v) => Some(*v),
                        None => None,
                    },
                ),
            ).to_multiset() && res@ == response_summary(
                body@,
                match parsed {
                    Some(v) => Some(*v),
                    None => None,
                },
                ks,
            ),
{
    let ghost parsed_value = match parsed {
        Some(v) => Some(*v),
        None => None::<JsonValue>,
    };
    let trimmed = trim_str(body);
    let keys: Vec<String> = match parsed {
        Some(v) => match json_member(v, "data") {
            Some(d) => sorted_member_names(d),
            None => {
                let k: Vec<String> = Vec::new();
                assert(string_views(k@) =~= object_names(summary_data(parsed_value)));
                k
            },
        },
        None => {
            let k: Vec<String> = Vec::new();
            assert(string_views(k@) =~= object_names(summary_data(parsed_value)));
            k
        },
    };
    let ghost ks = string_views(keys@);
    assert(names_sorted(ks) && ks.to_multiset() == object_names(summary_data(parsed_value)).to_multiset());
    let trimmed_chars = chars_of(trimmed.as_str());
    if trimmed_chars.len() == 0 {
        let res = "响应体为空".to_string();
        assert(res@ == response_summary(body@, parsed_value, ks));
        return res;
    }
    if let Some(v) = parsed {
        let mut parts: Vec<String> = Vec::new();
        assert(string_views(parts@) =~= Seq::<Seq<char>>::empty());
        if let Some(x) = json_member(v, "status") {
            if let Some(n) = json_i64(x) {
                let digits = i64_to_decimal(n);
                push_part(&mut parts, "status=", digits.as_str());
            }
        }
        if let Some(x) = json_member(v, "code") {
            if let Some(n) = json_i64(x) {
                let digits = i64_to_decimal(n);
                push_part(&mut parts, "code=", digits.as_str());
            }
        }
        if let Some(m) = json_str_member(v, "msg") {
            push_part(&mut parts, "msg=", m.as_str());
        }
        if let Some(m) = json_str_member(v, "message") {
            push_part(&mut parts, "message=", m.as_str());
        }
        let ghost old_parts = parts@;
        match json_member(v, "data") {
            Some(JsonValue::Object(_)) => {
                let joined = join_strings(keys.as_slice(), ",");
                push_part(&mut parts, "data_keys=", joined.as_str());
            },
            Some(JsonValue::Array(items)) => {
                let digits = u64_to_decimal(items.len() as u64);
                push_part(&mut parts, "data_len=", digits.as_str());
            },
            Some(JsonValue::Null) => {
                parts.push("data=null".to_string());
                assert(string_views(parts@) =~= string_views(old_parts).push("data=null"@));
            },
            Some(_) => {
                parts.push("data=<scalar>".to_string());
                assert(string_views(parts@) =~= string_views(old_parts).push("data=<scalar>"@));
            },
            None => {},
        }
        assert(string_views(parts@) == summary_parts(*v, ks));
        if parts.len() > 0 {
            let res = join_strings(parts.as_slice(), "；");
            assert(res@ == response_summary(body@, parsed_value, ks));
            return res;
        }
    }
    let mut res = "响应体不是可解析 JSON，长度 ".to_string();
    let trimmed_str = trimmed.as_str();
    let byte_len = trimmed_str.len();
    assert(trimmed_str@ == trim(body@));
    let digits = u64_to_decimal(byte_len as u64);
    res.append(digits.as_str());
    res.append(" 字节");
    assert(res@ == response_summary(body@, parsed_value, ks));
    res
}

} // verus!
