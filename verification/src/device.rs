//! Decisions of the adb / MuMu device layer: parsing `adb devices`, the
//! candidate endpoints of MuMu instances, serial normalization, and the
//! command sequences that open a session, capture a screenshot and send
//! input, each written as a state machine that asks for one adb command at a
//! time and decides from its outcome.
use std::path::Path;
use std::path::PathBuf;
use vstd::prelude::*;
use vstd::utf8::decode_utf8;
use vstd::utf8::valid_utf8;

use crate::text::chars_of;
use crate::text::chars_equal;
use crate::text::str_eq;
use crate::text::is_prefix;
use crate::text::starts_with;
use crate::text::decimal;
use crate::text::is_ascii_digit;
use crate::text::join;
use crate::text::join_strings;
use crate::text::lines;
use crate::text::push_char;
use crate::text::signed_decimal;
use crate::text::split_lines;
use crate::text::split_words;
use crate::text::string_from_chars;
use crate::text::string_views;
use crate::text::trim;
use crate::text::trim_bounds;
use crate::text::u64_to_decimal;
use crate::text::i64_to_decimal;
use crate::text::views;
use crate::text::words;

verus! {

#[verifier::external_type_specification]
#[verifier::external_body]
pub struct ExPathBuf(std::path::PathBuf);

#[verifier::external_type_specification]
#[verifier::external_body]
pub struct ExPath(std::path::Path);

/// A copy of a path, through `PathBuf::clone`.
/// Trusted: std documents `clone` as producing an equal `PathBuf`.
#[verifier::external_body]
fn clone_path_buf(path: &PathBuf) -> (res: PathBuf)
    ensures
        res == *path,
{
    path.clone()
}

/// The borrowed form of a path, through `PathBuf::as_path`.
/// Nothing is stated of the result: a `Path` is opaque here.
#[verifier::external_body]
fn path_buf_as_path(path: &PathBuf) -> &Path {
    path.as_path()
}

/// The text of `bytes` as `String::from_utf8_lossy` decodes it.
pub uninterp spec fn utf8_lossy(bytes: Seq<u8>) -> Seq<char>;

/// Decodes bytes through `String::from_utf8_lossy`.
/// Trusted: the result is named `utf8_lossy`; std documents that valid
/// UTF-8 comes back unchanged. What an invalid sequence becomes (replacement
/// characters) is left to the name.
#[verifier::external_body]
pub(crate) fn lossy_utf8(bytes: &[u8]) -> (res: String)
    ensures
        res@ == utf8_lossy(bytes@),
        valid_utf8(bytes@) ==> res@ == decode_utf8(bytes@),
{
    String::from_utf8_lossy(bytes).into_owned()
}

pub const DEFAULT_MUMU_DISCOVERY_INSTANCE_COUNT: u16 = 8;

pub const DEFAULT_MUMU_LOOPBACK_PORT: u16 = 7555;

pub const DEFAULT_MUMU_PORT_SERIES_START: u16 = 16384;

pub const DEFAULT_MUMU_PORT_SERIES_STEP: u16 = 32;

/// The largest discovery count whose port series stays within `u16`.
pub const MAX_MUMU_DISCOVERY_INSTANCE_COUNT: u16 = 1536;

pub struct DeviceConnectRequest {
    pub adb_executable: Option<PathBuf>,
    pub preferred_serial: Option<String>,
    pub discovery_instance_count: u16,
}

impl Default for DeviceConnectRequest {
    fn default() -> (res: Self)
        ensures
            res.adb_executable is None,
            res.preferred_serial is None,
            res.discovery_instance_count == DEFAULT_MUMU_DISCOVERY_INSTANCE_COUNT,
    {
        DeviceConnectRequest {
            adb_executable: None,
            preferred_serial: None,
            discovery_instance_count: DEFAULT_MUMU_DISCOVERY_INSTANCE_COUNT,
        }
    }
}

pub struct ScreenshotCaptureRequest {
    pub adb_executable: Option<PathBuf>,
    pub preferred_serial: Option<String>,
    pub discovery_instance_count: u16,
}

impl Default for ScreenshotCaptureRequest {
    fn default() -> (res: Self)
        ensures
            res.adb_executable is None,
            res.preferred_serial is None,
            res.discovery_instance_count == DEFAULT_MUMU_DISCOVERY_INSTANCE_COUNT,
    {
        ScreenshotCaptureRequest {
            adb_executable: None,
            preferred_serial: None,
            discovery_instance_count: DEFAULT_MUMU_DISCOVERY_INSTANCE_COUNT,
        }
    }
}

fn clone_opt_path(p: &Option<PathBuf>) -> (res: Option<PathBuf>)
    ensures
        res == *p,
{
    match p {
        Some(path) => Some(clone_path_buf(path)),
        None => None,
    }
}

fn clone_opt_string(s: &Option<String>) -> (res: Option<String>)
    ensures
        res == *s,
{
    match s {
        Some(v) => Some(v.clone()),
        None => None,
    }
}

impl DeviceConnectRequest {
    /// The connection part of a screenshot request.
    pub fn from_screenshot_request(value: &ScreenshotCaptureRequest) -> (res: Self)
        ensures
            res.adb_executable == value.adb_executable,
            res.preferred_serial == value.preferred_serial,
            res.discovery_instance_count == value.discovery_instance_count,
    {
        DeviceConnectRequest {
            adb_executable: clone_opt_path(&value.adb_executable),
            preferred_serial: clone_opt_string(&value.preferred_serial),
            discovery_instance_count: value.discovery_instance_count,
        }
    }

    /// The connection part of an input request.
    pub fn from_input_request(value: &DeviceInputRequest) -> (res: Self)
        ensures
            res.adb_executable == value.adb_executable,
            res.preferred_serial == value.preferred_serial,
            res.discovery_instance_count == value.discovery_instance_count,
    {
        DeviceConnectRequest {
            adb_executable: clone_opt_path(&value.adb_executable),
            preferred_serial: clone_opt_string(&value.preferred_serial),
            discovery_instance_count: value.discovery_instance_count,
        }
    }
}

#[derive(Debug, Clone, PartialEq, Eq)]
pub struct AdbDeviceEntry {
    pub serial: String,
    pub state: String,
}

impl View for AdbDeviceEntry {
    type V = (Seq<char>, Seq<char>);

    open spec fn view(&self) -> (Seq<char>, Seq<char>) {
        (self.serial@, self.state@)
    }
}

pub open spec fn entry_views(v: Seq<AdbDeviceEntry>) -> Seq<(Seq<char>, Seq<char>)> {
    v.map_values(|e: AdbDeviceEntry| e@)
}

#[derive(Clone, Copy, Debug, PartialEq, Eq, Structural)]
pub enum DeviceSelectionSource {
    PreferredSerial,
    ExistingConnectedDevice,
    ConnectedCandidate,
}

impl DeviceSelectionSource {
    pub open spec fn spec_label_zh(self) -> Seq<char> {
        match self {
            DeviceSelectionSource::PreferredSerial => "手动指定"@,
            DeviceSelectionSource::ExistingConnectedDevice => "已连接设备"@,
            DeviceSelectionSource::ConnectedCandidate => "自动发现并连接"@,
        }
    }

    pub fn label_zh(self) -> (res: &'static str)
        ensures
            res@ == self.spec_label_zh(),
    {
        match self {
            DeviceSelectionSource::PreferredSerial => "手动指定",
            DeviceSelectionSource::ExistingConnectedDevice => "已连接设备",
            DeviceSelectionSource::ConnectedCandidate => "自动发现并连接",
        }
    }
}


#[derive(Clone, Copy, Debug, PartialEq, Eq, Structural)]
pub enum DeviceInputAction {
    Tap { x: u32, y: u32 },
    Swipe { x1: u32, y1: u32, x2: u32, y2: u32, duration_ms: u32 },
    KeyEvent { key_code: u16 },
}

impl DeviceInputAction {
    pub open spec fn spec_label_zh(self) -> Seq<char> {
        match self {
            DeviceInputAction::Tap { .. } => "点按"@,
            DeviceInputAction::Swipe { .. } => "滑动"@,
            DeviceInputAction::KeyEvent { .. } => "按键"@,
        }
    }

    pub fn label_zh(&self) -> (res: &'static str)
        ensures
            res@ == self.spec_label_zh(),
    {
        match self {
            DeviceInputAction::Tap { .. } => "点按",
            DeviceInputAction::Swipe { .. } => "滑动",
            DeviceInputAction::KeyEvent { .. } => "按键",
        }
    }
}

pub struct DeviceInputRequest {
    pub adb_executable: Option<PathBuf>,
    pub preferred_serial: Option<String>,
    pub discovery_instance_count: u16,
    pub action: DeviceInputAction,
}

pub struct DeviceConnectionInfo {
    pub adb_executable: PathBuf,
    pub serial: String,
    pub selection_source: DeviceSelectionSource,
    pub visible_devices: Vec<AdbDeviceEntry>,
    pub attempted_serials: Vec<String>,
}

pub struct DeviceSession {
    adb_executable: PathBuf,
    serial: String,
    selection_source: DeviceSelectionSource,
}

impl DeviceSession {
    pub closed spec fn spec_serial(&self) -> Seq<char> {
        self.serial@
    }

    pub closed spec fn spec_adb_executable(&self) -> PathBuf {
        self.adb_executable
    }

    pub closed spec fn spec_selection_source(&self) -> DeviceSelectionSource {
        self.selection_source
    }

    pub fn adb_executable(&self) -> &Path {
        path_buf_as_path(&self.adb_executable)
    }

    /// The executable as the owned path that the session holds.
    pub fn adb_executable_path_buf(&self) -> (res: &PathBuf)
        ensures
            *res == self.spec_adb_executable(),
    {
        &self.adb_executable
    }

    pub fn serial(&self) -> (res: &str)
        ensures
            res@ == self.spec_serial(),
    {
        self.serial.as_str()
    }

    pub fn selection_source(&self) -> (res: DeviceSelectionSource)
        ensures
            res == self.spec_selection_source(),
    {
        self.selection_source
    }
}

pub struct DeviceSessionOpenResult {
    pub session: DeviceSession,
    pub connection: DeviceConnectionInfo,
}

pub struct ScreenshotCaptureResult {
    pub png_bytes: Vec<u8>,
    pub connection: DeviceConnectionInfo,
}

pub struct DeviceInputResult {
    pub connection: DeviceConnectionInfo,
    pub action: DeviceInputAction,
}

/// Why a session could not be opened. An I/O failure of a command is carried
/// as the text of the error.
#[derive(Debug)]
pub enum DeviceConnectError {
    AdbExecutableNotFound,
    ConfiguredAdbNotFound { path: PathBuf },
    CommandIo { action: &'static str, details: String },
    CommandFailed { action: &'static str, status_code: i32, details: String },
    NoDeviceFound { attempted_serials: String, visible_devices: String },
    PreferredSerialUnavailable { serial: String, visible_devices: String },
}

pub enum ConnectErrorView {
    AdbExecutableNotFound,
    ConfiguredAdbNotFound,
    CommandIo { action: Seq<char>, details: Seq<char> },
    CommandFailed { action: Seq<char>, status_code: i32, details: Seq<char> },
    NoDeviceFound { attempted_serials: Seq<char>, visible_devices: Seq<char> },
    PreferredSerialUnavailable { serial: Seq<char>, visible_devices: Seq<char> },
}

impl View for DeviceConnectError {
    type V = ConnectErrorView;

    open spec fn view(&self) -> ConnectErrorView {
        match self {
            DeviceConnectError::AdbExecutableNotFound => ConnectErrorView::AdbExecutableNotFound,
            DeviceConnectError::ConfiguredAdbNotFound { .. } => ConnectErrorView::ConfiguredAdbNotFound,
            DeviceConnectError::CommandIo { action, details } => ConnectErrorView::CommandIo {
                action: action@,
                details: details@,
            },
            DeviceConnectError::CommandFailed { action, status_code, details } => ConnectErrorView::CommandFailed {
                action: action@,
                status_code: *status_code,
                details: details@,
            },
            DeviceConnectError::NoDeviceFound { attempted_serials, visible_devices } => ConnectErrorView::NoDeviceFound {
                attempted_serials: attempted_serials@,
                visible_devices: visible_devices@,
            },
            DeviceConnectError::PreferredSerialUnavailable { serial, visible_devices } => ConnectErrorView::PreferredSerialUnavailable {
                serial: serial@,
                visible_devices: visible_devices@,
            },
        }
    }
}

#[derive(Debug)]
pub enum ScreenshotCaptureError {
    Connect(DeviceConnectError),
    ScreenshotCommandFailed { details: String },
    InvalidPng,
}

pub enum ScreenshotErrorView {
    Connect(ConnectErrorView),
    ScreenshotCommandFailed { details: Seq<char> },
    InvalidPng,
}

impl View for ScreenshotCaptureError {
    type V = ScreenshotErrorView;

    open spec fn view(&self) -> ScreenshotErrorView {
        match self {
            ScreenshotCaptureError::Connect(e) => ScreenshotErrorView::Connect(e@),
            ScreenshotCaptureError::ScreenshotCommandFailed { details } => ScreenshotErrorView::ScreenshotCommandFailed {
                details: details@,
            },
            ScreenshotCaptureError::InvalidPng => ScreenshotErrorView::InvalidPng,
        }
    }
}

#[derive(Debug)]
pub enum DeviceInputError {
    Connect(DeviceConnectError),
    InputCommandFailed { action: &'static str, details: String },
}

pub enum InputErrorView {
    Connect(ConnectErrorView),
    InputCommandFailed { action: Seq<char>, details: Seq<char> },
}

impl View for DeviceInputError {
    type V = InputErrorView;

    open spec fn view(&self) -> InputErrorView {
        match self {
            DeviceInputError::Connect(e) => InputErrorView::Connect(e@),
            DeviceInputError::InputCommandFailed { action, details } => InputErrorView::InputCommandFailed {
                action: action@,
                details: details@,
            },
        }
    }
}

/// What one adb command gave back.
pub struct CommandOutput {
    pub status_code: i32,
    pub stdout: Vec<u8>,
    pub stderr: Vec<u8>,
}

/// The outcome of running one command: its output, or the text of the I/O
/// error that kept it from running.
pub enum CommandEvent {
    Completed(CommandOutput),
    IoFailed(String),
}

pub enum CommandEventView {
    Completed { status_code: i32, stdout: Seq<u8>, stderr: Seq<u8> },
    IoFailed(Seq<char>),
}

impl View for CommandEvent {
    type V = CommandEventView;

    open spec fn view(&self) -> CommandEventView {
        match self {
            CommandEvent::Completed(o) => CommandEventView::Completed {
                status_code: o.status_code,
                stdout: o.stdout@,
                stderr: o.stderr@,
            },
            CommandEvent::IoFailed(m) => CommandEventView::IoFailed(m@),
        }
    }
}

// ---------------------------------------------------------------------------
// `adb devices` output

/// One line of `adb devices`: nothing for the header, blank lines and the
/// daemon's `*` lines, else its first two words as serial and state.
pub open spec fn parse_device_line(line: Seq<char>) -> Option<(Seq<char>, Seq<char>)> {
    let t = trim(line);
    if t.len() == 0 || t == "List of devices attached"@ || t[0] == '*' {
        None
    } else {
        let w = words(t);
        if w.len() >= 2 {
            Some((w[0], w[1]))
        } else {
            None
        }
    }
}

pub open spec fn parse_device_lines(ls: Seq<Seq<char>>) -> Seq<(Seq<char>, Seq<char>)>
    decreases ls.len(),
{
    if ls.len() == 0 {
        seq![]
    } else {
        let rest = parse_device_lines(ls.drop_last());
        match parse_device_line(ls.last()) {
            Some(e) => rest.push(e),
            None => rest,
        }
    }
}

/// The devices that the text of `adb devices` lists, in order.
pub open spec fn parse_adb_devices(text: Seq<char>) -> Seq<(Seq<char>, Seq<char>)> {
    parse_device_lines(lines(text))
}

fn parse_device_line_exec(line: &[char]) -> (res: Option<AdbDeviceEntry>)
    ensures
        match res {
            Some(e) => parse_device_line(line@) == Some(e@),
            None => parse_device_line(line@) is None,
        },
{
    let (a, b) = trim_bounds(line);
    let t = &line[a..b];
    assert(t@ == trim(line@));
    if t.len() == 0 {
        return None;
    }
    let header = chars_of("List of devices attached");
    if chars_equal(t, header.as_slice()) || t[0] == '*' {
        return None;
    }
    let w = split_words(t);
    if w.len() < 2 {
        return None;
    }
    assert(w@[0]@ == words(t@)[0]);
    assert(w@[1]@ == words(t@)[1]);
    Some(AdbDeviceEntry {
        serial: string_from_chars(w[0].as_slice()),
        state: string_from_chars(w[1].as_slice()),
    })
}

/// The devices listed by the output of `adb devices`.
pub fn parse_adb_devices_output(output: &[u8]) -> (res: Vec<AdbDeviceEntry>)
    ensures
        entry_views(res@) == parse_adb_devices(utf8_lossy(output@)),
        valid_utf8(output@) ==> entry_views(res@) == parse_adb_devices(decode_utf8(output@)),
{
    let text = lossy_utf8(output);
    let chars = chars_of(text.as_str());
    let ls = split_lines(chars.as_slice());
    let mut res: Vec<AdbDeviceEntry> = Vec::new();
    let mut i: usize = 0;
    while i < ls.len()
        invariant
            i <= ls.len(),
            views(ls@) == lines(chars@),
            chars@ == utf8_lossy(output@),
            entry_views(res@) == parse_device_lines(views(ls@).take(i as int)),
        decreases ls.len() - i,
    {
        let ghost prefix = views(ls@).take(i as int);
        assert(views(ls@).take(i + 1).drop_last() =~= prefix);
        assert(views(ls@).take(i + 1).last() == ls@[i as int]@);
        match parse_device_line_exec(ls[i].as_slice()) {
            Some(e) => {
                let ghost before = res@;
                res.push(e);
                assert(entry_views(res@) =~= entry_views(before).push(e@));
            },
            None => {},
        }
        i += 1;
    }
    assert(views(ls@).take(ls.len() as int) =~= views(ls@));
    res
}

// ---------------------------------------------------------------------------
// finding a device, rendering

/// `serial` is listed, and the first entry with that serial is in state
/// `device`.
pub open spec fn device_ready(visible: Seq<(Seq<char>, Seq<char>)>, serial: Seq<char>) -> bool {
    exists|i: int|
        #![trigger visible[i]]
        0 <= i < visible.len() && visible[i].0 == serial && (forall|j: int|
            0 <= j < i ==> visible[j].0 != serial) && visible[i].1 == "device"@
}

/// The index of the first entry with `serial`, as `iter().find` picks it.
pub open spec fn first_with_serial(visible: Seq<(Seq<char>, Seq<char>)>, serial: Seq<char>, i: int) -> bool {
    0 <= i < visible.len() && visible[i].0 == serial && forall|j: int|
        0 <= j < i ==> visible[j].0 != serial
}

/// The first device with the given serial.
pub fn find_device<'a>(devices: &'a [AdbDeviceEntry], serial: &str) -> (res: Option<&'a AdbDeviceEntry>)
    ensures
        match res {
            Some(d) => exists|i: int|
                first_with_serial(entry_views(devices@), serial@, i) && *d == devices@[i],
            None => forall|i: int| 0 <= i < devices@.len() ==> devices@[i].serial@ != serial@,
        },
{
    let mut i: usize = 0;
    while i < devices.len()
        invariant
            i <= devices.len(),
            forall|j: int| 0 <= j < i ==> devices@[j].serial@ != serial@,
        decreases devices.len() - i,
    {
        if str_eq(devices[i].serial.as_str(), serial) {
            assert(first_with_serial(entry_views(devices@), serial@, i as int));
            return Some(&devices[i]);
        }
        i += 1;
    }
    None
}

/// Whether `serial` is listed and its first entry is in state `device`.
pub fn is_device_ready(devices: &[AdbDeviceEntry], serial: &str) -> (res: bool)
    ensures
        res == device_ready(entry_views(devices@), serial@),
{
    match find_device(devices, serial) {
        Some(d) => {
            let r = str_eq(d.state.as_str(), "device");
            proof {
                let i = choose|i: int| first_with_serial(entry_views(devices@), serial@, i) && *d == devices@[i];
                if r {
                    assert(entry_views(devices@)[i] == devices@[i]@);
                } else {
                    if device_ready(entry_views(devices@), serial@) {
                        let k = choose|k: int|
                            #![trigger entry_views(devices@)[k]]
                            0 <= k < entry_views(devices@).len() && entry_views(devices@)[k].0 == serial@
                                && (forall|j: int| 0 <= j < k ==> entry_views(devices@)[j].0 != serial@)
                                && entry_views(devices@)[k].1 == "device"@;
                        if k < i {
                            assert(entry_views(devices@)[k].0 != serial@);
                        } else if i < k {
                            assert(entry_views(devices@)[i].0 != serial@);
                        }
                    }
                }
            }
            r
        },
        None => {
            proof {
                if device_ready(entry_views(devices@), serial@) {
                    let k = choose|k: int|
                        #![trigger entry_views(devices@)[k]]
                        0 <= k < entry_views(devices@).len() && entry_views(devices@)[k].0 == serial@
                            && (forall|j: int| 0 <= j < k ==> entry_views(devices@)[j].0 != serial@)
                            && entry_views(devices@)[k].1 == "device"@;
                    assert(devices@[k].serial@ != serial@);
                }
            }
            false
        },
    }
}

/// `serial (state)` for each device, joined with `, `; `<空>` when none.
pub open spec fn render_devices(visible: Seq<(Seq<char>, Seq<char>)>) -> Seq<char> {
    if visible.len() == 0 {
        "<空>"@
    } else {
        join(device_labels(visible), ", "@)
    }
}

pub open spec fn device_label(d: (Seq<char>, Seq<char>)) -> Seq<char> {
    d.0 + " ("@ + d.1 + ")"@
}

pub open spec fn device_labels(v: Seq<(Seq<char>, Seq<char>)>) -> Seq<Seq<char>> {
    Seq::new(v.len(), |i: int| device_label(v[i]))
}

pub fn render_visible_devices(devices: &[AdbDeviceEntry]) -> (res: String)
    ensures
        res@ == render_devices(entry_views(devices@)),
{
    if devices.len() == 0 {
        return "<空>".to_string();
    }
    let mut parts: Vec<String> = Vec::new();
    let mut i: usize = 0;
    while i < devices.len()
        invariant
            i <= devices.len(),
            parts@.len() == i,
            string_views(parts@) == device_labels(entry_views(devices@).take(i as int)),
        decreases devices.len() - i,
    {
        let mut part = devices[i].serial.clone();
        part.append(" (");
        part.append(devices[i].state.as_str());
        part.append(")");
        let ghost before = parts@;
        assert(entry_views(devices@)[i as int] == devices@[i as int]@);
        assert(part@ == device_label(entry_views(devices@)[i as int]));
        parts.push(part);
        assert forall|k: int| 0 <= k < i + 1 implies #[trigger] string_views(parts@)[k] == device_labels(
            entry_views(devices@).take(i + 1),
        )[k] by {
            if k < i {
                assert(string_views(before)[k] == device_labels(entry_views(devices@).take(i as int))[k]);
            }
        }
        assert(string_views(parts@) =~= device_labels(entry_views(devices@).take(i + 1)));
        i += 1;
    }
    assert(entry_views(devices@).take(devices.len() as int) =~= entry_views(devices@));
    join_strings(parts.as_slice(), ", ")
}

/// The details of a failed command: trimmed stdout and stderr, or a note
/// with the exit code when both are empty.
pub open spec fn command_details(stdout: Seq<u8>, stderr: Seq<u8>, status_code: i32) -> Seq<char> {
    let o = trim(utf8_lossy(stdout));
    let e = trim(utf8_lossy(stderr));
    if o.len() == 0 && e.len() == 0 {
        "无输出（退出码 "@ + signed_decimal(status_code as int) + "）"@
    } else if e.len() == 0 {
        o
    } else if o.len() == 0 {
        e
    } else {
        e + " | stdout: "@ + o
    }
}

pub fn render_command_details(stdout: &[u8], stderr: &[u8], status_code: i32) -> (res: String)
    ensures
        res@ == command_details(stdout@, stderr@, status_code),
{
    let out_text = lossy_utf8(stdout);
    let out_chars = chars_of(out_text.as_str());
    let (a, b) = trim_bounds(out_chars.as_slice());
    let o = string_from_chars(&out_chars.as_slice()[a..b]);
    let err_text = lossy_utf8(stderr);
    let err_chars = chars_of(err_text.as_str());
    let (c, d) = trim_bounds(err_chars.as_slice());
    let e = string_from_chars(&err_chars.as_slice()[c..d]);
    if a == b && c == d {
        let mut res = "无输出（退出码 ".to_string();
        let code = i64_to_decimal(status_code as i64);
        res.append(code.as_str());
        res.append("）");
        res
    } else if c == d {
        o
    } else if a == b {
        e
    } else {
        let mut res = e;
        res.append(" | stdout: ");
        res.append(o.as_str());
        res
    }
}

// ---------------------------------------------------------------------------
// serials

pub open spec fn loopback(port: u16) -> Seq<char> {
    "127.0.0.1:"@ + decimal(port as nat)
}

pub fn loopback_serial(port: u16) -> (res: String)
    ensures
        res@ == loopback(port),
{
    let mut res = "127.0.0.1:".to_string();
    let digits = u64_to_decimal(port as u64);
    res.append(digits.as_str());
    res
}

/// The serials that adb reaches over TCP on this machine.
pub open spec fn endpoint(serial: Seq<char>) -> bool {
    is_prefix("127.0.0.1:"@, serial) || is_prefix("localhost:"@, serial)
}

pub fn looks_like_endpoint(serial: &str) -> (res: bool)
    ensures
        res == endpoint(serial@),
{
    let s = chars_of(serial);
    let a = chars_of("127.0.0.1:");
    let b = chars_of("localhost:");
    starts_with(s.as_slice(), a.as_slice()) || starts_with(s.as_slice(), b.as_slice())
}

/// The value of a run of decimal digits.
pub open spec fn digits_value(s: Seq<char>) -> nat
    decreases s.len(),
{
    if s.len() == 0 {
        0
    } else {
        digits_value(s.drop_last()) * 10 + ((s.last() as u32) - 48) as nat
    }
}

pub open spec fn all_digits(s: Seq<char>) -> bool {
    forall|i: int| 0 <= i < s.len() ==> is_ascii_digit(#[trigger] s[i])
}

/// What `str::parse::<u16>` gives: an optional `+`, then at least one digit,
/// with a value that fits.
pub open spec fn parse_u16(s: Seq<char>) -> Option<u16> {
    let d = if s.len() > 0 && s[0] == '+' {
        s.drop_first()
    } else {
        s
    };
    if d.len() > 0 && all_digits(d) && digits_value(d) <= 65535 {
        Some(digits_value(d) as u16)
    } else {
        None
    }
}

proof fn lemma_digits_value_grows(s: Seq<char>, i: int)
    requires
        0 <= i <= s.len(),
        all_digits(s),
    ensures
        digits_value(s.take(i)) <= digits_value(s),
    decreases s.len() - i,
{
    if i < s.len() {
        lemma_digits_value_grows(s, i + 1);
        assert(s.take(i + 1).drop_last() =~= s.take(i));
    } else {
        assert(s.take(i) =~= s);
    }
}

/// `str::parse::<u16>` on a sequence of characters.
pub fn parse_u16_chars(s: &[char]) -> (res: Option<u16>)
    ensures
        res == parse_u16(s@),
{
    let start: usize = if s.len() > 0 && s[0] == '+' {
        1
    } else {
        0
    };
    let ghost d = if s@.len() > 0 && s@[0] == '+' {
        s@.drop_first()
    } else {
        s@
    };
    assert(d =~= s@.skip(start as int));
    assert(parse_u16(s@) == (if d.len() > 0 && all_digits(d) && digits_value(d) <= 65535 {
        Some(digits_value(d) as u16)
    } else {
        None
    }));
    if start >= s.len() {
        return None;
    }
    let mut value: u32 = 0;
    let mut i: usize = start;
    while i < s.len()
        invariant
            start <= i <= s.len(),
            d =~= s@.skip(start as int),
            parse_u16(s@) == (if d.len() > 0 && all_digits(d) && digits_value(d) <= 65535 {
                Some(digits_value(d) as u16)
            } else {
                None
            }),
            value <= 65535,
            all_digits(d.take(i - start)),
            value == digits_value(d.take(i - start)),
        decreases s.len() - i,
    {
        let c = s[i];
        assert(d.take(i + 1 - start).drop_last() =~= d.take(i - start));
        assert(d[i - start] == c);
        if !('0' <= c && c <= '9') {
            assert(!is_ascii_digit(d[i - start]));
            assert(!all_digits(d));
            assert(parse_u16(s@) is None);
            return None;
        }
        assert(d.take(i + 1 - start).last() == c);
        value = value * 10 + (c as u32 - 48);
        assert(all_digits(d.take(i + 1 - start)));
        assert(value == digits_value(d.take(i + 1 - start)));
        i += 1;
        if value > 65535 {
            proof {
                if all_digits(d) {
                    lemma_digits_value_grows(d, i - start);
                    assert(digits_value(d) > 65535);
                }
                assert(parse_u16(s@) is None);
            }
            return None;
        }
    }
    assert(d.take(s.len() - start) =~= d);
    Some(value as u16)
}

/// What a user may write for a device: blank means none, a bare port number
/// means that port on loopback, `localhost:PORT` likewise, anything else is
/// kept as written (trimmed). A port that does not parse gives none.
pub open spec fn normalized_serial(value: Option<Seq<char>>) -> Option<Seq<char>> {
    match value {
        None => None,
        Some(v) => {
            let t = trim(v);
            if t.len() == 0 {
                None
            } else if all_digits(t) {
                match parse_u16(t) {
                    Some(port) => Some(loopback(port)),
                    None => None,
                }
            } else if is_prefix("localhost:"@, t) {
                match parse_u16(t.skip(10)) {
                    Some(port) => Some(loopback(port)),
                    None => None,
                }
            } else {
                Some(t)
            }
        },
    }
}

pub open spec fn opt_str_view(value: Option<&str>) -> Option<Seq<char>> {
    match value {
        Some(v) => Some(v@),
        None => None,
    }
}

fn all_digits_exec(s: &[char]) -> (res: bool)
    ensures
        res == all_digits(s@),
{
    let mut i: usize = 0;
    while i < s.len()
        invariant
            i <= s.len(),
            forall|j: int| 0 <= j < i ==> is_ascii_digit(s@[j]),
        decreases s.len() - i,
    {
        if !('0' <= s[i] && s[i] <= '9') {
            return false;
        }
        i += 1;
    }
    true
}

pub fn normalize_serial_input(value: Option<&str>) -> (res: Option<String>)
    ensures
        match res {
            Some(s) => normalized_serial(opt_str_view(value)) == Some(s@),
            None => normalized_serial(opt_str_view(value)) is None,
        },
{
    let v = match value {
        Some(v) => v,
        None => return None,
    };
    let chars = chars_of(v);
    let (a, b) = trim_bounds(chars.as_slice());
    let t = &chars.as_slice()[a..b];
    if t.len() == 0 {
        return None;
    }
    if all_digits_exec(t) {
        return match parse_u16_chars(t) {
            Some(port) => Some(loopback_serial(port)),
            None => None,
        };
    }
    let prefix = chars_of("localhost:");
    proof {
        reveal_strlit("localhost:");
    }
    if starts_with(t, prefix.as_slice()) {
        let rest = &t[10..t.len()];
        assert(rest@ =~= t@.skip(10));
        return match parse_u16_chars(rest) {
            Some(port) => Some(loopback_serial(port)),
            None => None,
        };
    }
    Some(string_from_chars(t))
}

/// The loopback endpoint of the first MuMu instance, then those of the port
/// series `16384 + 32 * i` for each instance to discover (8 when zero is asked).
pub open spec fn mumu_candidates(discovery_instance_count: u16) -> Seq<Seq<char>> {
    let n: int = if discovery_instance_count == 0 {
        DEFAULT_MUMU_DISCOVERY_INSTANCE_COUNT as int
    } else {
        discovery_instance_count as int
    };
    seq![loopback(DEFAULT_MUMU_LOOPBACK_PORT)] + Seq::new(
        n as nat,
        |i: int| loopback((DEFAULT_MUMU_PORT_SERIES_START + DEFAULT_MUMU_PORT_SERIES_STEP * i) as u16),
    )
}

proof fn lemma_loopback_injective(a: u16, b: u16)
    requires
        loopback(a) == loopback(b),
    ensures
        a == b,
{
    let prefix = "127.0.0.1:"@;
    assert(loopback(a).skip(prefix.len() as int) =~= decimal(a as nat));
    assert(loopback(b).skip(prefix.len() as int) =~= decimal(b as nat));
    crate::text::lemma_decimal_injective(a as nat, b as nat);
}

/// Law: the MuMu candidates are pairwise distinct, so no endpoint is tried
/// twice.
pub proof fn lemma_mumu_candidates_distinct(discovery_instance_count: u16)
    requires
        discovery_instance_count <= MAX_MUMU_DISCOVERY_INSTANCE_COUNT,
    ensures
        forall|i: int, j: int|
            0 <= i < j < mumu_candidates(discovery_instance_count).len() ==> #[trigger] mumu_candidates(
                discovery_instance_count,
            )[i] != #[trigger] mumu_candidates(discovery_instance_count)[j],
{
    let c = mumu_candidates(discovery_instance_count);
    let n: int = if discovery_instance_count == 0 {
        DEFAULT_MUMU_DISCOVERY_INSTANCE_COUNT as int
    } else {
        discovery_instance_count as int
    };
    assert forall|i: int, j: int| 0 <= i < j < c.len() implies #[trigger] c[i] != #[trigger] c[j] by {
        let pi: int = if i == 0 {
            DEFAULT_MUMU_LOOPBACK_PORT as int
        } else {
            DEFAULT_MUMU_PORT_SERIES_START + DEFAULT_MUMU_PORT_SERIES_STEP * (i - 1)
        };
        let pj: int = DEFAULT_MUMU_PORT_SERIES_START + DEFAULT_MUMU_PORT_SERIES_STEP * (j - 1);
        assert(j <= n);
        assert(c[i] == loopback(pi as u16));
        assert(c[j] == loopback(pj as u16));
        if c[i] == c[j] {
            lemma_loopback_injective(pi as u16, pj as u16);
        }
    }
}

pub fn build_mumu_serial_candidates(discovery_instance_count: u16) -> (res: Vec<String>)
    requires
        discovery_instance_count <= MAX_MUMU_DISCOVERY_INSTANCE_COUNT,
    ensures
        string_views(res@) == mumu_candidates(discovery_instance_count),
{
    let max_instances: u16 = if discovery_instance_count == 0 {
        DEFAULT_MUMU_DISCOVERY_INSTANCE_COUNT
    } else {
        discovery_instance_count
    };
    let mut candidates: Vec<String> = Vec::new();
    candidates.push(loopback_serial(DEFAULT_MUMU_LOOPBACK_PORT));
    let mut index: u16 = 0;
    while index < max_instances
        invariant
            index <= max_instances <= MAX_MUMU_DISCOVERY_INSTANCE_COUNT,
            max_instances as int == (if discovery_instance_count == 0 {
                DEFAULT_MUMU_DISCOVERY_INSTANCE_COUNT as int
            } else {
                discovery_instance_count as int
            }),
            candidates@.len() == index + 1,
            mumu_candidates(discovery_instance_count).len() == max_instances + 1,
            string_views(candidates@) == mumu_candidates(discovery_instance_count).take(index + 1),
        decreases max_instances - index,
    {
        let port: u16 = DEFAULT_MUMU_PORT_SERIES_START + DEFAULT_MUMU_PORT_SERIES_STEP * index;
        assert(port == (DEFAULT_MUMU_PORT_SERIES_START + DEFAULT_MUMU_PORT_SERIES_STEP * index) as u16);
        let ghost before = candidates@;
        let ghost n: int = max_instances as int;
        assert(mumu_candidates(discovery_instance_count)[index + 1] == loopback(
            (DEFAULT_MUMU_PORT_SERIES_START + DEFAULT_MUMU_PORT_SERIES_STEP * index) as u16,
        ));
        candidates.push(loopback_serial(port));
        assert(candidates@.len() == index + 2);
        assert(string_views(candidates@).len() == index + 2);
        assert(string_views(candidates@)[index + 1] == loopback(port));
        assert(string_views(candidates@) =~= mumu_candidates(discovery_instance_count).take(index + 2));
        index += 1;
    }
    assert(mumu_candidates(discovery_instance_count).take(max_instances + 1) =~= mumu_candidates(discovery_instance_count));
    candidates
}

/// Whether `bytes` starts with the eight-byte PNG signature.
pub open spec fn has_png_signature(bytes: Seq<u8>) -> bool {
    bytes.len() >= 8 && bytes[0] == 0x89u8 && bytes[1] == 0x50u8 && bytes[2] == 0x4Eu8 && bytes[3]
        == 0x47u8 && bytes[4] == 0x0Du8 && bytes[5] == 0x0Au8 && bytes[6] == 0x1Au8 && bytes[7]
        == 0x0Au8
}

pub fn is_valid_png(bytes: &[u8]) -> (res: bool)
    ensures
        res == has_png_signature(bytes@),
{
    bytes.len() >= 8 && bytes[0] == 0x89u8 && bytes[1] == 0x50u8 && bytes[2] == 0x4Eu8 && bytes[3]
        == 0x47u8 && bytes[4] == 0x0Du8 && bytes[5] == 0x0Au8 && bytes[6] == 0x1Au8 && bytes[7]
        == 0x0Au8
}


// ---------------------------------------------------------------------------
// error messages

pub open spec fn connect_error_message(e: ConnectErrorView) -> Seq<char> {
    match e {
        ConnectErrorView::AdbExecutableNotFound => "未找到可用的 adb 可执行文件；请在设置里填写 `adb.executable`，或确保 `adb.exe` 在 PATH / MuMu 安装目录中可发现"@,
        ConnectErrorView::ConfiguredAdbNotFound => "配置的 adb 可执行文件不存在："@,
        ConnectErrorView::CommandIo { action, details } => "执行 `"@ + action + "` 失败："@ + details,
        ConnectErrorView::CommandFailed { action, status_code, details } => "`"@ + action
            + "` 执行失败（退出码 "@ + signed_decimal(status_code as int) + "）："@ + details,
        ConnectErrorView::NoDeviceFound { attempted_serials, visible_devices } => "未找到可连接的 MuMu 设备；已尝试："@
            + attempted_serials + "；当前 adb devices："@ + visible_devices,
        ConnectErrorView::PreferredSerialUnavailable { serial, visible_devices } => "手动指定的设备 `"@
            + serial + "` 当前不可用；当前 adb devices："@ + visible_devices,
    }
}

/// The text of a path, through `Path::display`. Nothing is stated of it.
#[verifier::external_body]
fn path_display_string(path: &PathBuf) -> String {
    path.display().to_string()
}

impl DeviceConnectError {
    /// The message of this error, as the application shows it. For a
    /// configured executable that is missing, the fixed text is followed by
    /// the path as `Path::display` shows it.
    pub fn message(&self) -> (res: String)
        ensures
            !(self@ is ConfiguredAdbNotFound) ==> res@ == connect_error_message(self@),
            self@ is ConfiguredAdbNotFound ==> exists|shown: Seq<char>| res@ == connect_error_message(self@) + shown,
    {
        match self {
            DeviceConnectError::AdbExecutableNotFound => "未找到可用的 adb 可执行文件；请在设置里填写 `adb.executable`，或确保 `adb.exe` 在 PATH / MuMu 安装目录中可发现".to_string(),
            DeviceConnectError::ConfiguredAdbNotFound { path } => {
                let mut res = "配置的 adb 可执行文件不存在：".to_string();
                let shown = path_display_string(path);
                res.append(shown.as_str());
                assert(res@ == connect_error_message(self@) + shown@);
                res
            },
            DeviceConnectError::CommandIo { action, details } => {
                let mut res = "执行 `".to_string();
                res.append(action);
                res.append("` 失败：");
                res.append(details.as_str());
                res
            },
            DeviceConnectError::CommandFailed { action, status_code, details } => {
                let mut res = "`".to_string();
                res.append(action);
                res.append("` 执行失败（退出码 ");
                let code = i64_to_decimal(*status_code as i64);
                res.append(code.as_str());
                res.append("）：");
                res.append(details.as_str());
                res
            },
            DeviceConnectError::NoDeviceFound { attempted_serials, visible_devices } => {
                let mut res = "未找到可连接的 MuMu 设备；已尝试：".to_string();
                res.append(attempted_serials.as_str());
                res.append("；当前 adb devices：");
                res.append(visible_devices.as_str());
                res
            },
            DeviceConnectError::PreferredSerialUnavailable { serial, visible_devices } => {
                let mut res = "手动指定的设备 `".to_string();
                res.append(serial.as_str());
                res.append("` 当前不可用；当前 adb devices：");
                res.append(visible_devices.as_str());
                res
            },
        }
    }
}

pub open spec fn screenshot_error_message(e: ScreenshotErrorView) -> Seq<char> {
    match e {
        ScreenshotErrorView::Connect(c) => connect_error_message(c),
        ScreenshotErrorView::ScreenshotCommandFailed { details } => "执行 `adb exec-out screencap -p` 失败："@ + details,
        ScreenshotErrorView::InvalidPng => "设备返回的截图不是有效 PNG"@,
    }
}

impl ScreenshotCaptureError {
    pub fn message(&self) -> (res: String)
        ensures
            !(self@ matches ScreenshotErrorView::Connect(ConnectErrorView::ConfiguredAdbNotFound)) ==> res@
                == screenshot_error_message(self@),
            self@ matches ScreenshotErrorView::Connect(ConnectErrorView::ConfiguredAdbNotFound) ==> exists|
                shown: Seq<char>,
            | res@ == screenshot_error_message(self@) + shown,
    {
        match self {
            ScreenshotCaptureError::Connect(e) => {
                let m = e.message();
                proof {
                    if e@ is ConfiguredAdbNotFound {
                        let shown = choose|shown: Seq<char>| m@ == connect_error_message(e@) + shown;
                        assert(m@ == screenshot_error_message(self@) + shown);
                    }
                }
                m
            },
            ScreenshotCaptureError::ScreenshotCommandFailed { details } => {
                let mut res = "执行 `adb exec-out screencap -p` 失败：".to_string();
                res.append(details.as_str());
                res
            },
            ScreenshotCaptureError::InvalidPng => "设备返回的截图不是有效 PNG".to_string(),
        }
    }
}

pub open spec fn input_error_message(e: InputErrorView) -> Seq<char> {
    match e {
        InputErrorView::Connect(c) => connect_error_message(c),
        InputErrorView::InputCommandFailed { action, details } => "执行设备输入 `"@ + action + "` 失败："@
            + details,
    }
}

impl DeviceInputError {
    pub fn message(&self) -> (res: String)
        ensures
            self@ matches InputErrorView::Connect(ConnectErrorView::ConfiguredAdbNotFound) ==> exists|
                shown: Seq<char>,
            | res@ == input_error_message(self@) + shown,
            !(self@ matches InputErrorView::Connect(ConnectErrorView::ConfiguredAdbNotFound)) ==> res@
                == input_error_message(self@),
    {
        match self {
            DeviceInputError::Connect(e) => {
                let m = e.message();
                proof {
                    if e@ is ConfiguredAdbNotFound {
                        let shown = choose|shown: Seq<char>| m@ == connect_error_message(e@) + shown;
                        assert(m@ == input_error_message(self@) + shown);
                    }
                }
                m
            },
            DeviceInputError::InputCommandFailed { action, details } => {
                let mut res = "执行设备输入 `".to_string();
                res.append(action);
                res.append("` 失败：");
                res.append(details.as_str());
                res
            },
        }
    }
}

// ---------------------------------------------------------------------------
// outcomes of single commands

/// The error of a command that must succeed, if it did not.
pub open spec fn required_failure(action: Seq<char>, e: CommandEventView) -> Option<ConnectErrorView> {
    match e {
        CommandEventView::IoFailed(m) => Some(ConnectErrorView::CommandIo { action, details: m }),
        CommandEventView::Completed { status_code, stdout, stderr } => if status_code != 0 {
            Some(
                ConnectErrorView::CommandFailed {
                    action,
                    status_code,
                    details: command_details(stdout, stderr, status_code),
                },
            )
        } else {
            None
        },
    }
}

pub open spec fn event_stdout(e: CommandEventView) -> Seq<u8> {
    match e {
        CommandEventView::Completed { stdout, .. } => stdout,
        CommandEventView::IoFailed(_) => seq![],
    }
}

pub open spec fn opt_connect_error_view(e: Option<DeviceConnectError>) -> Option<ConnectErrorView> {
    match e {
        Some(x) => Some(x@),
        None => None,
    }
}

fn required_check(action: &'static str, event: &CommandEvent) -> (res: Option<DeviceConnectError>)
    ensures
        opt_connect_error_view(res) == required_failure(action@, event@),
{
    match event {
        CommandEvent::IoFailed(m) => Some(DeviceConnectError::CommandIo { action, details: m.clone() }),
        CommandEvent::Completed(o) => if o.status_code != 0 {
            Some(
                DeviceConnectError::CommandFailed {
                    action,
                    status_code: o.status_code,
                    details: render_command_details(o.stdout.as_slice(), o.stderr.as_slice(), o.status_code),
                },
            )
        } else {
            None
        },
    }
}

fn listing_of(event: &CommandEvent) -> (res: Vec<AdbDeviceEntry>)
    ensures
        entry_views(res@) == parse_adb_devices(utf8_lossy(event_stdout(event@))),
{
    match event {
        CommandEvent::Completed(o) => parse_adb_devices_output(o.stdout.as_slice()),
        CommandEvent::IoFailed(_) => {
            let empty: Vec<u8> = Vec::new();
            let res = parse_adb_devices_output(empty.as_slice());
            assert(empty@ =~= Seq::<u8>::empty());
            res
        },
    }
}

fn args2(a: &str, b: &str) -> (res: Vec<String>)
    ensures
        string_views(res@) == seq![a@, b@],
{
    let mut res: Vec<String> = Vec::new();
    res.push(a.to_string());
    res.push(b.to_string());
    assert(string_views(res@) =~= seq![a@, b@]);
    res
}

fn args1(a: &str) -> (res: Vec<String>)
    ensures
        string_views(res@) == seq![a@],
{
    let mut res: Vec<String> = Vec::new();
    res.push(a.to_string());
    assert(string_views(res@) =~= seq![a@]);
    res
}

// ---------------------------------------------------------------------------
// opening a session

#[derive(Clone, Copy, Debug, PartialEq, Eq, Structural)]
pub enum ConnectPhase {
    StartServer,
    ListDevices,
    ConnectPreferred,
    ListAfterPreferred,
    ConnectCandidate(usize),
    ListAfterCandidate(usize),
    Finished,
}

/// The state of opening a device session: the normalized preferred serial,
/// the MuMu candidates, what the last `adb devices` listed, the serials for
/// which `adb connect` was tried, and which command's outcome is awaited.
pub struct DeviceConnectFlow {
    preferred_serial: Option<String>,
    candidates: Vec<String>,
    visible_devices: Vec<AdbDeviceEntry>,
    attempted_serials: Vec<String>,
    phase: ConnectPhase,
}

pub struct ConnectFlowView {
    pub preferred: Option<Seq<char>>,
    pub candidates: Seq<Seq<char>>,
    pub visible: Seq<(Seq<char>, Seq<char>)>,
    pub attempted: Seq<Seq<char>>,
    pub phase: ConnectPhase,
}

pub open spec fn opt_string_view(s: Option<String>) -> Option<Seq<char>> {
    match s {
        Some(v) => Some(v@),
        None => None,
    }
}

impl View for DeviceConnectFlow {
    type V = ConnectFlowView;

    closed spec fn view(&self) -> ConnectFlowView {
        ConnectFlowView {
            preferred: opt_string_view(self.preferred_serial),
            candidates: string_views(self.candidates@),
            visible: entry_views(self.visible_devices@),
            attempted: string_views(self.attempted_serials@),
            phase: self.phase,
        }
    }
}

/// What the flow asks next: run an adb command with these arguments, use the
/// selected device, or give up with an error.
pub enum ConnectStep {
    Run(Vec<String>),
    Selected { serial: String, source: DeviceSelectionSource },
    Failed(DeviceConnectError),
}

pub enum ConnectStepView {
    Run(Seq<Seq<char>>),
    Selected(Seq<char>, DeviceSelectionSource),
    Failed(ConnectErrorView),
}

impl View for ConnectStep {
    type V = ConnectStepView;

    open spec fn view(&self) -> ConnectStepView {
        match self {
            ConnectStep::Run(args) => ConnectStepView::Run(string_views(args@)),
            ConnectStep::Selected { serial, source } => ConnectStepView::Selected(serial@, *source),
            ConnectStep::Failed(e) => ConnectStepView::Failed(e@),
        }
    }
}

pub open spec fn preferred_of(f: ConnectFlowView) -> Seq<char> {
    match f.preferred {
        Some(p) => p,
        None => seq![],
    }
}

/// The flow's invariant: there is a candidate (and fewer than `usize::MAX`), a phase that waits on the
/// preferred serial has one, a candidate phase names an existing candidate,
/// and the serials tried so far are exactly those the phase implies.
pub open spec fn connect_wf(f: ConnectFlowView) -> bool {
    &&& 1 <= f.candidates.len() < usize::MAX
    &&& match f.phase {
        ConnectPhase::StartServer | ConnectPhase::ListDevices => f.attempted.len() == 0,
        ConnectPhase::ConnectPreferred | ConnectPhase::ListAfterPreferred => f.preferred is Some
            && f.attempted == seq![preferred_of(f)],
        ConnectPhase::ConnectCandidate(i) | ConnectPhase::ListAfterCandidate(i) => i
            < f.candidates.len() && f.preferred is None && f.attempted == f.candidates.take(i + 1),
        ConnectPhase::Finished => true,
    }
}

pub open spec fn finish(f: ConnectFlowView) -> ConnectFlowView {
    ConnectFlowView { phase: ConnectPhase::Finished, ..f }
}

/// The least index from `i` on of a candidate that is ready.
pub open spec fn first_ready_from(
    candidates: Seq<Seq<char>>,
    visible: Seq<(Seq<char>, Seq<char>)>,
    i: int,
) -> Option<int>
    decreases candidates.len() - i,
{
    if i < 0 || i >= candidates.len() {
        None
    } else if device_ready(visible, candidates[i]) {
        Some(i)
    } else {
        first_ready_from(candidates, visible, i + 1)
    }
}

/// Try `adb connect` on candidate `j`, or report that no device was found
/// once every candidate was tried.
pub open spec fn try_candidate(f: ConnectFlowView, j: int) -> (ConnectFlowView, ConnectStepView) {
    if 0 <= j < f.candidates.len() {
        (
            ConnectFlowView {
                attempted: f.attempted.push(f.candidates[j]),
                phase: ConnectPhase::ConnectCandidate(j as usize),
                ..f
            },
            ConnectStepView::Run(seq!["connect"@, f.candidates[j]]),
        )
    } else {
        (
            finish(f),
            ConnectStepView::Failed(
                ConnectErrorView::NoDeviceFound {
                    attempted_serials: join(f.attempted, ", "@),
                    visible_devices: render_devices(f.visible),
                },
            ),
        )
    }
}

/// The decision after the first listing of devices.
pub open spec fn after_listing(f: ConnectFlowView) -> (ConnectFlowView, ConnectStepView) {
    match f.preferred {
        Some(p) => if device_ready(f.visible, p) {
            (finish(f), ConnectStepView::Selected(p, DeviceSelectionSource::PreferredSerial))
        } else if endpoint(p) {
            (
                ConnectFlowView {
                    attempted: f.attempted.push(p),
                    phase: ConnectPhase::ConnectPreferred,
                    ..f
                },
                ConnectStepView::Run(seq!["connect"@, p]),
            )
        } else {
            (
                finish(f),
                ConnectStepView::Failed(
                    ConnectErrorView::PreferredSerialUnavailable {
                        serial: p,
                        visible_devices: render_devices(f.visible),
                    },
                ),
            )
        },
        None => match first_ready_from(f.candidates, f.visible, 0) {
            Some(i) => (
                finish(f),
                ConnectStepView::Selected(f.candidates[i], DeviceSelectionSource::ExistingConnectedDevice),
            ),
            None => try_candidate(f, 0),
        },
    }
}

pub open spec fn with_listing(f: ConnectFlowView, e: CommandEventView) -> ConnectFlowView {
    ConnectFlowView { visible: parse_adb_devices(utf8_lossy(event_stdout(e))), ..f }
}

/// How the flow answers the outcome `e` of the command it asked for.
pub open spec fn connect_next(f: ConnectFlowView, e: CommandEventView) -> (ConnectFlowView, ConnectStepView) {
    match f.phase {
        ConnectPhase::StartServer => match required_failure("adb start-server"@, e) {
            Some(err) => (finish(f), ConnectStepView::Failed(err)),
            None => (
                ConnectFlowView { phase: ConnectPhase::ListDevices, ..f },
                ConnectStepView::Run(seq!["devices"@]),
            ),
        },
        ConnectPhase::ListDevices => match required_failure("adb devices"@, e) {
            Some(err) => (finish(f), ConnectStepView::Failed(err)),
            None => after_listing(with_listing(f, e)),
        },
        ConnectPhase::ConnectPreferred => match e {
            CommandEventView::IoFailed(m) => (
                finish(f),
                ConnectStepView::Failed(ConnectErrorView::CommandIo { action: "adb connect"@, details: m }),
            ),
            CommandEventView::Completed { status_code, .. } => if status_code == 0 {
                (
                    ConnectFlowView { phase: ConnectPhase::ListAfterPreferred, ..f },
                    ConnectStepView::Run(seq!["devices"@]),
                )
            } else {
                (
                    finish(f),
                    ConnectStepView::Failed(
                        ConnectErrorView::PreferredSerialUnavailable {
                            serial: preferred_of(f),
                            visible_devices: render_devices(f.visible),
                        },
                    ),
                )
            },
        },
        ConnectPhase::ListAfterPreferred => match required_failure("adb devices"@, e) {
            Some(err) => (finish(f), ConnectStepView::Failed(err)),
            None => {
                let g = with_listing(f, e);
                if device_ready(g.visible, preferred_of(g)) {
                    (
                        finish(g),
                        ConnectStepView::Selected(preferred_of(g), DeviceSelectionSource::PreferredSerial),
                    )
                } else {
                    (
                        finish(g),
                        ConnectStepView::Failed(
                            ConnectErrorView::PreferredSerialUnavailable {
                                serial: preferred_of(g),
                                visible_devices: render_devices(g.visible),
                            },
                        ),
                    )
                }
            },
        },
        ConnectPhase::ConnectCandidate(i) => match e {
            CommandEventView::IoFailed(m) => (
                finish(f),
                ConnectStepView::Failed(ConnectErrorView::CommandIo { action: "adb connect"@, details: m }),
            ),
            CommandEventView::Completed { status_code, .. } => if status_code == 0 {
                (
                    ConnectFlowView { phase: ConnectPhase::ListAfterCandidate(i), ..f },
                    ConnectStepView::Run(seq!["devices"@]),
                )
            } else {
                try_candidate(f, i + 1)
            },
        },
        ConnectPhase::ListAfterCandidate(i) => match required_failure("adb devices"@, e) {
            Some(err) => (finish(f), ConnectStepView::Failed(err)),
            None => {
                let g = with_listing(f, e);
                if device_ready(g.visible, g.candidates[i as int]) {
                    (
                        finish(g),
                        ConnectStepView::Selected(
                            g.candidates[i as int],
                            DeviceSelectionSource::ConnectedCandidate,
                        ),
                    )
                } else {
                    try_candidate(g, i + 1)
                }
            },
        },
        ConnectPhase::Finished => (f, ConnectStepView::Run(seq![])),
    }
}


impl DeviceConnectFlow {
    pub closed spec fn wf(&self) -> bool {
        connect_wf(self@)
    }

    /// A flow for `request`, waiting on `adb start-server`, which
    /// `start_server_command` gives.
    pub fn new(request: &DeviceConnectRequest) -> (res: Self)
        requires
            request.discovery_instance_count <= MAX_MUMU_DISCOVERY_INSTANCE_COUNT,
        ensures
            res.wf(),
            res@.phase == ConnectPhase::StartServer,
            res@.preferred == normalized_serial(match request.preferred_serial {
                Some(s) => Some(s@),
                None => None,
            }),
            res@.candidates == mumu_candidates(request.discovery_instance_count),
            res@.visible.len() == 0,
            res@.attempted.len() == 0,
    {
        let preferred_serial = match &request.preferred_serial {
            Some(s) => normalize_serial_input(Some(s.as_str())),
            None => None,
        };
        let candidates = build_mumu_serial_candidates(request.discovery_instance_count);
        let res = DeviceConnectFlow {
            preferred_serial,
            candidates,
            visible_devices: Vec::new(),
            attempted_serials: Vec::new(),
            phase: ConnectPhase::StartServer,
        };
        assert(res@.visible =~= Seq::<(Seq<char>, Seq<char>)>::empty());
        assert(res@.attempted =~= Seq::<Seq<char>>::empty());
        res
    }

    /// The arguments of the first command: `start-server`.
    pub fn start_server_command(&self) -> (res: Vec<String>)
        ensures
            string_views(res@) == seq!["start-server"@],
    {
        args1("start-server")
    }

    pub fn phase(&self) -> (res: ConnectPhase)
        ensures
            res == self@.phase,
    {
        self.phase
    }

    pub fn visible_devices(&self) -> (res: &Vec<AdbDeviceEntry>)
        ensures
            entry_views(res@) == self@.visible,
    {
        &self.visible_devices
    }

    pub fn attempted_serials(&self) -> (res: &Vec<String>)
        ensures
            string_views(res@) == self@.attempted,
    {
        &self.attempted_serials
    }

    fn finish(&mut self)
        ensures
            final(self)@ == finish(old(self)@),
    {
        self.phase = ConnectPhase::Finished;
    }

    fn try_candidate(&mut self, j: usize) -> (res: ConnectStep)
        requires
            1 <= old(self)@.candidates.len() < usize::MAX,
            old(self)@.preferred is None,
            old(self)@.attempted == old(self)@.candidates.take(j as int),
        ensures
            (final(self)@, res@) == try_candidate(old(self)@, j as int),
            connect_wf(final(self)@),
    {
        if j < self.candidates.len() {
            let c = self.candidates[j].clone();
            let ghost before = self.attempted_serials@;
            self.attempted_serials.push(c.clone());
            assert(string_views(self.attempted_serials@) =~= string_views(before).push(c@));
            self.phase = ConnectPhase::ConnectCandidate(j);
            assert(self@.attempted =~= self@.candidates.take(j + 1));
            ConnectStep::Run(args2("connect", c.as_str()))
        } else {
            let attempted = join_strings(self.attempted_serials.as_slice(), ", ");
            let visible = render_visible_devices(self.visible_devices.as_slice());
            self.finish();
            ConnectStep::Failed(
                DeviceConnectError::NoDeviceFound { attempted_serials: attempted, visible_devices: visible },
            )
        }
    }

    fn first_ready_candidate(&self) -> (res: Option<usize>)
        ensures
            match res {
                Some(i) => i < self.candidates@.len() && first_ready_from(self@.candidates, self@.visible, 0) == Some(i as int),
                None => first_ready_from(self@.candidates, self@.visible, 0) is None,
            },
    {
        let mut i: usize = 0;
        while i < self.candidates.len()
            invariant
                i <= self.candidates.len(),
                first_ready_from(self@.candidates, self@.visible, 0) == first_ready_from(
                    self@.candidates,
                    self@.visible,
                    i as int,
                ),
            decreases self.candidates.len() - i,
        {
            if is_device_ready(self.visible_devices.as_slice(), self.candidates[i].as_str()) {
                return Some(i);
            }
            i += 1;
        }
        None
    }

    fn after_listing(&mut self) -> (res: ConnectStep)
        requires
            connect_wf(old(self)@),
            old(self)@.attempted.len() == 0,
        ensures
            (final(self)@, res@) == after_listing(old(self)@),
            connect_wf(final(self)@),
    {
        match &self.preferred_serial {
            Some(p) => {
                let p = p.clone();
                if is_device_ready(self.visible_devices.as_slice(), p.as_str()) {
                    self.finish();
                    ConnectStep::Selected { serial: p, source: DeviceSelectionSource::PreferredSerial }
                } else if looks_like_endpoint(p.as_str()) {
                    let ghost before = self.attempted_serials@;
                    self.attempted_serials.push(p.clone());
                    assert(string_views(self.attempted_serials@) =~= string_views(before).push(p@));
                    self.phase = ConnectPhase::ConnectPreferred;
                    assert(self@.attempted =~= seq![p@]);
                    assert(preferred_of(self@) == p@);
                    ConnectStep::Run(args2("connect", p.as_str()))
                } else {
                    let visible = render_visible_devices(self.visible_devices.as_slice());
                    self.finish();
                    ConnectStep::Failed(
                        DeviceConnectError::PreferredSerialUnavailable { serial: p, visible_devices: visible },
                    )
                }
            },
            None => match self.first_ready_candidate() {
                Some(i) => {
                    let c = self.candidates[i].clone();
                    self.finish();
                    ConnectStep::Selected { serial: c, source: DeviceSelectionSource::ExistingConnectedDevice }
                },
                None => {
                    assert(self@.candidates.take(0) =~= self@.attempted);
                    self.try_candidate(0)
                },
            },
        }
    }

    /// Answers the outcome of the command that the flow asked for last.
    pub fn step(&mut self, event: CommandEvent) -> (res: ConnectStep)
        requires
            old(self).wf(),
            old(self)@.phase != ConnectPhase::Finished,
        ensures
            final(self).wf(),
            (final(self)@, res@) == connect_next(old(self)@, event@),
    {
        match self.phase {
            ConnectPhase::StartServer => match required_check("adb start-server", &event) {
                Some(err) => {
                    self.finish();
                    ConnectStep::Failed(err)
                },
                None => {
                    self.phase = ConnectPhase::ListDevices;
                    ConnectStep::Run(args1("devices"))
                },
            },
            ConnectPhase::ListDevices => match required_check("adb devices", &event) {
                Some(err) => {
                    self.finish();
                    ConnectStep::Failed(err)
                },
                None => {
                    self.visible_devices = listing_of(&event);
                    self.after_listing()
                },
            },
            ConnectPhase::ConnectPreferred => match &event {
                CommandEvent::IoFailed(m) => {
                    self.finish();
                    ConnectStep::Failed(DeviceConnectError::CommandIo { action: "adb connect", details: m.clone() })
                },
                CommandEvent::Completed(o) => if o.status_code == 0 {
                    self.phase = ConnectPhase::ListAfterPreferred;
                    ConnectStep::Run(args1("devices"))
                } else {
                    let p = self.preferred_string();
                    let visible = render_visible_devices(self.visible_devices.as_slice());
                    self.finish();
                    ConnectStep::Failed(
                        DeviceConnectError::PreferredSerialUnavailable { serial: p, visible_devices: visible },
                    )
                },
            },
            ConnectPhase::ListAfterPreferred => match required_check("adb devices", &event) {
                Some(err) => {
                    self.finish();
                    ConnectStep::Failed(err)
                },
                None => {
                    self.visible_devices = listing_of(&event);
                    let p = self.preferred_string();
                    if is_device_ready(self.visible_devices.as_slice(), p.as_str()) {
                        self.finish();
                        ConnectStep::Selected { serial: p, source: DeviceSelectionSource::PreferredSerial }
                    } else {
                        let visible = render_visible_devices(self.visible_devices.as_slice());
                        self.finish();
                        ConnectStep::Failed(
                            DeviceConnectError::PreferredSerialUnavailable { serial: p, visible_devices: visible },
                        )
                    }
                },
            },
            ConnectPhase::ConnectCandidate(i) => {
                assert(connect_wf(self@));
                assert(i < self@.candidates.len());
                assert(self.candidates@.len() == self@.candidates.len());
                let n = self.candidates.len();
                assert(i < n);
                match &event {
                CommandEvent::IoFailed(m) => {
                    self.finish();
                    ConnectStep::Failed(DeviceConnectError::CommandIo { action: "adb connect", details: m.clone() })
                },
                CommandEvent::Completed(o) => if o.status_code == 0 {
                    assert(self.candidates@.len() == self@.candidates.len());
                    self.phase = ConnectPhase::ListAfterCandidate(i);
                    ConnectStep::Run(args1("devices"))
                } else {
                    assert(self.candidates@.len() == self@.candidates.len());
                    assert(self@.candidates.take(i + 1) == self@.attempted);
                    self.try_candidate(i + 1)
                },
            }
            },
            ConnectPhase::ListAfterCandidate(i) => {
                assert(connect_wf(self@));
                assert(i < self@.candidates.len());
                assert(self.candidates@.len() == self@.candidates.len());
                let n = self.candidates.len();
                assert(i < n);
                match required_check("adb devices", &event) {
                Some(err) => {
                    self.finish();
                    ConnectStep::Failed(err)
                },
                None => {
                    assert(self.candidates@.len() == self@.candidates.len());
                    self.visible_devices = listing_of(&event);
                    let c = self.candidates[i].clone();
                    if is_device_ready(self.visible_devices.as_slice(), c.as_str()) {
                        self.finish();
                        ConnectStep::Selected { serial: c, source: DeviceSelectionSource::ConnectedCandidate }
                    } else {
                        self.try_candidate(i + 1)
                    }
                },
            }
            },
            ConnectPhase::Finished => ConnectStep::Run(Vec::new()),
        }
    }

    fn preferred_string(&self) -> (res: String)
        ensures
            res@ == preferred_of(self@),
    {
        match &self.preferred_serial {
            Some(p) => p.clone(),
            None => String::new(),
        }
    }

    /// The session and connection record for the device that the flow
    /// selected.
    pub fn into_open_result(
        self,
        adb_executable: PathBuf,
        serial: String,
        selection_source: DeviceSelectionSource,
    ) -> (res: DeviceSessionOpenResult)
        ensures
            res.session.spec_serial() == serial@,
            res.session.spec_adb_executable() == adb_executable,
            res.session.spec_selection_source() == selection_source,
            res.connection.adb_executable == adb_executable,
            res.connection.serial@ == serial@,
            res.connection.selection_source == selection_source,
            entry_views(res.connection.visible_devices@) == self@.visible,
            string_views(res.connection.attempted_serials@) == self@.attempted,
    {
        DeviceSessionOpenResult {
            session: DeviceSession {
                adb_executable: clone_path_buf(&adb_executable),
                serial: serial.clone(),
                selection_source,
            },
            connection: DeviceConnectionInfo {
                adb_executable,
                serial,
                selection_source,
                visible_devices: self.visible_devices,
                attempted_serials: self.attempted_serials,
            },
        }
    }
}


/// How many commands the flow may still ask for, at most.
pub open spec fn connect_measure(f: ConnectFlowView) -> int {
    let n = f.candidates.len() as int;
    match f.phase {
        ConnectPhase::StartServer => 2 * n + 5,
        ConnectPhase::ListDevices => 2 * n + 4,
        ConnectPhase::ConnectPreferred => 2,
        ConnectPhase::ListAfterPreferred => 1,
        ConnectPhase::ConnectCandidate(i) => 2 * (n - i),
        ConnectPhase::ListAfterCandidate(i) => 2 * (n - i) - 1,
        ConnectPhase::Finished => 0,
    }
}

proof fn lemma_first_ready_from(
    candidates: Seq<Seq<char>>,
    visible: Seq<(Seq<char>, Seq<char>)>,
    i: int,
)
    ensures
        first_ready_from(candidates, visible, i) matches Some(k) ==> i <= k < candidates.len()
            && device_ready(visible, candidates[k]),
    decreases candidates.len() - i,
{
    if 0 <= i < candidates.len() && !device_ready(visible, candidates[i]) {
        lemma_first_ready_from(candidates, visible, i + 1);
    }
}

proof fn lemma_connect_candidate_wf(f: ConnectFlowView, e: CommandEventView, i: usize)
    requires
        connect_wf(f),
        f.phase == ConnectPhase::ConnectCandidate(i),
    ensures
        connect_wf(connect_next(f, e).0),
{
    if i + 1 < f.candidates.len() {
        assert(((i + 1) as usize) as int == i + 1);
        assert(f.candidates.take(i + 1).push(f.candidates[i + 1]) =~= f.candidates.take(i + 2));
    }
}

proof fn lemma_connect_wf(f: ConnectFlowView, e: CommandEventView)
    requires
        connect_wf(f),
        f.phase != ConnectPhase::Finished,
    ensures
        connect_wf(connect_next(f, e).0),
{
    match f.phase {
        ConnectPhase::StartServer => {
            assert(connect_wf(connect_next(f, e).0));
        },
        ConnectPhase::ListDevices => {
            let g = with_listing(f, e);
            assert(g.attempted.push(g.candidates[0]) =~= g.candidates.take(1));
            assert(g.attempted.push(preferred_of(g)) =~= seq![preferred_of(g)]);
            assert(connect_wf(connect_next(f, e).0));
        },
        ConnectPhase::ConnectPreferred => {
            assert(connect_wf(connect_next(f, e).0));
        },
        ConnectPhase::ListAfterPreferred => {
            assert(connect_wf(connect_next(f, e).0));
        },
        ConnectPhase::ConnectCandidate(i) => {
            lemma_connect_candidate_wf(f, e, i);
        },
        ConnectPhase::ListAfterCandidate(i) => {
            if i + 1 < f.candidates.len() {
                assert(((i + 1) as usize) as int == i + 1);
                assert(f.candidates.take(i + 1).push(f.candidates[i + 1]) =~= f.candidates.take(i + 2));
            }
            assert(connect_wf(connect_next(f, e).0));
        },
        ConnectPhase::Finished => {},
    }
}

/// Law: a flow that selects a device selects one that the latest
/// `adb devices` listing shows, first under its serial, in state `device`;
/// every step keeps the flow's invariant; a flow that asks for another
/// command has fewer left to ask, so opening a session runs at most
/// `2 * candidates + 5` commands; and a flow that finds no device reports
/// every MuMu candidate as tried.
pub proof fn lemma_connect_step(f: ConnectFlowView, e: CommandEventView)
    requires
        connect_wf(f),
        f.phase != ConnectPhase::Finished,
    ensures
        connect_wf(connect_next(f, e).0),
        connect_next(f, e).1 matches ConnectStepView::Selected(s, _) ==> device_ready(
            connect_next(f, e).0.visible,
            s,
        ),
        connect_next(f, e).1 is Run ==> 0 <= connect_measure(connect_next(f, e).0) < connect_measure(f),
        !(connect_next(f, e).1 is Run) ==> connect_next(f, e).0.phase == ConnectPhase::Finished,
        connect_next(f, e).1 matches ConnectStepView::Failed(ConnectErrorView::NoDeviceFound { attempted_serials, .. })
            ==> attempted_serials == join(f.candidates, ", "@),
{
    let g = with_listing(f, e);
    lemma_first_ready_from(g.candidates, g.visible, 0);
    lemma_connect_wf(f, e);
    assert(f.candidates.take(f.candidates.len() as int) =~= f.candidates);
    match f.phase {
        ConnectPhase::ConnectCandidate(i) => {
            lemma_connect_candidate_wf(f, e, i);
        },
        ConnectPhase::ListAfterCandidate(i) => {
            if i + 1 < f.candidates.len() {
                assert(((i + 1) as usize) as int == i + 1);
                assert(f.candidates.take(i + 1).push(f.candidates[i + 1]) =~= f.candidates.take(i + 2));
            }
        },
        _ => {
            assert(f.attempted.len() == 0 ==> f.attempted.push(f.candidates[0]) =~= f.candidates.take(1));
        },
    }
}

/// Law: a flow with a preferred serial only ever selects that serial, as
/// `PreferredSerial`, and only ever runs `connect` on it or `devices`; it
/// never tries a MuMu candidate.
pub proof fn lemma_connect_preferred_only(f: ConnectFlowView, e: CommandEventView, p: Seq<char>)
    requires
        connect_wf(f),
        f.phase != ConnectPhase::Finished,
        f.preferred == Some(p),
    ensures
        connect_next(f, e).1 matches ConnectStepView::Selected(s, src) ==> s == p && src
            == DeviceSelectionSource::PreferredSerial,
        connect_next(f, e).1 matches ConnectStepView::Run(args) ==> args == seq!["devices"@] || args
            == seq!["connect"@, p],
        connect_next(f, e).0.preferred == Some(p),
{
}


// ---------------------------------------------------------------------------
// retrying a command on a loopback device after reconnecting it

#[derive(Clone, Copy, Debug, PartialEq, Eq, Structural)]
pub enum RetryPhase {
    First,
    Disconnect,
    Reconnect,
    ListDevices,
    Second,
    Finished,
}

/// Where the reconnection of a device stands after one command.
pub enum ReconnectOutcome {
    Continue(RetryPhase, Vec<String>),
    Ready,
    Broken(DeviceConnectError),
}

pub enum ReconnectOutcomeView {
    Continue(RetryPhase, Seq<Seq<char>>),
    Ready,
    Broken(ConnectErrorView),
}

impl View for ReconnectOutcome {
    type V = ReconnectOutcomeView;

    open spec fn view(&self) -> ReconnectOutcomeView {
        match self {
            ReconnectOutcome::Continue(p, args) => ReconnectOutcomeView::Continue(*p, string_views(args@)),
            ReconnectOutcome::Ready => ReconnectOutcomeView::Ready,
            ReconnectOutcome::Broken(e) => ReconnectOutcomeView::Broken(e@),
        }
    }
}

/// Reconnecting `serial`: `disconnect` (whose output does not matter),
/// `connect`, then `devices`, which must list the serial as ready.
pub open spec fn reconnect_next(serial: Seq<char>, phase: RetryPhase, e: CommandEventView) -> ReconnectOutcomeView {
    match phase {
        RetryPhase::Disconnect => match e {
            CommandEventView::IoFailed(m) => ReconnectOutcomeView::Broken(
                ConnectErrorView::CommandIo { action: "adb disconnect"@, details: m },
            ),
            CommandEventView::Completed { .. } => ReconnectOutcomeView::Continue(
                RetryPhase::Reconnect,
                seq!["connect"@, serial],
            ),
        },
        RetryPhase::Reconnect => match e {
            CommandEventView::IoFailed(m) => ReconnectOutcomeView::Broken(
                ConnectErrorView::CommandIo { action: "adb connect"@, details: m },
            ),
            CommandEventView::Completed { status_code, .. } => if status_code == 0 {
                ReconnectOutcomeView::Continue(RetryPhase::ListDevices, seq!["devices"@])
            } else {
                ReconnectOutcomeView::Broken(
                    ConnectErrorView::PreferredSerialUnavailable {
                        serial,
                        visible_devices: "重连后未重新出现在 adb devices 中"@,
                    },
                )
            },
        },
        _ => match required_failure("adb devices"@, e) {
            Some(err) => ReconnectOutcomeView::Broken(err),
            None => {
                let visible = parse_adb_devices(utf8_lossy(event_stdout(e)));
                if device_ready(visible, serial) {
                    ReconnectOutcomeView::Ready
                } else {
                    ReconnectOutcomeView::Broken(
                        ConnectErrorView::PreferredSerialUnavailable {
                            serial,
                            visible_devices: render_devices(visible),
                        },
                    )
                }
            },
        },
    }
}

fn reconnect_step(serial: &String, phase: RetryPhase, event: &CommandEvent) -> (res: ReconnectOutcome)
    requires
        phase == RetryPhase::Disconnect || phase == RetryPhase::Reconnect || phase
            == RetryPhase::ListDevices,
    ensures
        res@ == reconnect_next(serial@, phase, event@),
{
    match phase {
        RetryPhase::Disconnect => match event {
            CommandEvent::IoFailed(m) => ReconnectOutcome::Broken(
                DeviceConnectError::CommandIo { action: "adb disconnect", details: m.clone() },
            ),
            CommandEvent::Completed(_) => ReconnectOutcome::Continue(
                RetryPhase::Reconnect,
                args2("connect", serial.as_str()),
            ),
        },
        RetryPhase::Reconnect => match event {
            CommandEvent::IoFailed(m) => ReconnectOutcome::Broken(
                DeviceConnectError::CommandIo { action: "adb connect", details: m.clone() },
            ),
            CommandEvent::Completed(o) => if o.status_code == 0 {
                ReconnectOutcome::Continue(RetryPhase::ListDevices, args1("devices"))
            } else {
                ReconnectOutcome::Broken(
                    DeviceConnectError::PreferredSerialUnavailable {
                        serial: serial.clone(),
                        visible_devices: "重连后未重新出现在 adb devices 中".to_string(),
                    },
                )
            },
        },
        _ => match required_check("adb devices", event) {
            Some(err) => ReconnectOutcome::Broken(err),
            None => {
                let visible = listing_of(event);
                if is_device_ready(visible.as_slice(), serial.as_str()) {
                    ReconnectOutcome::Ready
                } else {
                    ReconnectOutcome::Broken(
                        DeviceConnectError::PreferredSerialUnavailable {
                            serial: serial.clone(),
                            visible_devices: render_visible_devices(visible.as_slice()),
                        },
                    )
                }
            },
        },
    }
}

pub struct RetryFlowView {
    pub serial: Seq<char>,
    pub phase: RetryPhase,
}

// ---------------------------------------------------------------------------
// screenshots

pub open spec fn capture_args(serial: Seq<char>) -> Seq<Seq<char>> {
    seq!["-s"@, serial, "exec-out"@, "screencap"@, "-p"@]
}

/// What one `exec-out screencap -p` gave: the PNG, or why not.
pub open spec fn capture_outcome(e: CommandEventView) -> Result<Seq<u8>, ScreenshotErrorView> {
    match e {
        CommandEventView::IoFailed(m) => Err(ScreenshotErrorView::ScreenshotCommandFailed { details: m }),
        CommandEventView::Completed { status_code, stdout, stderr } => if status_code != 0 {
            Err(
                ScreenshotErrorView::ScreenshotCommandFailed {
                    details: command_details(stdout, stderr, status_code),
                },
            )
        } else if !has_png_signature(stdout) {
            Err(ScreenshotErrorView::InvalidPng)
        } else {
            Ok(stdout)
        },
    }
}

pub enum CaptureStep {
    Run(Vec<String>),
    Captured(Vec<u8>),
    Failed(ScreenshotCaptureError),
}

pub enum CaptureStepView {
    Run(Seq<Seq<char>>),
    Captured(Seq<u8>),
    Failed(ScreenshotErrorView),
}

impl View for CaptureStep {
    type V = CaptureStepView;

    open spec fn view(&self) -> CaptureStepView {
        match self {
            CaptureStep::Run(args) => CaptureStepView::Run(string_views(args@)),
            CaptureStep::Captured(b) => CaptureStepView::Captured(b@),
            CaptureStep::Failed(e) => CaptureStepView::Failed(e@),
        }
    }
}

/// Capturing a screenshot: one try; on a loopback device a failed try is
/// followed by a reconnection and one more try.
pub open spec fn capture_next(f: RetryFlowView, e: CommandEventView) -> (RetryFlowView, CaptureStepView) {
    let done = RetryFlowView { phase: RetryPhase::Finished, ..f };
    match f.phase {
        RetryPhase::First => match capture_outcome(e) {
            Ok(b) => (done, CaptureStepView::Captured(b)),
            Err(err) => if endpoint(f.serial) {
                (
                    RetryFlowView { phase: RetryPhase::Disconnect, ..f },
                    CaptureStepView::Run(seq!["disconnect"@, f.serial]),
                )
            } else {
                (done, CaptureStepView::Failed(err))
            },
        },
        RetryPhase::Second => match capture_outcome(e) {
            Ok(b) => (done, CaptureStepView::Captured(b)),
            Err(err) => (done, CaptureStepView::Failed(err)),
        },
        RetryPhase::Finished => (f, CaptureStepView::Run(seq![])),
        _ => match reconnect_next(f.serial, f.phase, e) {
            ReconnectOutcomeView::Continue(p, args) => (
                RetryFlowView { phase: p, ..f },
                CaptureStepView::Run(args),
            ),
            ReconnectOutcomeView::Ready => (
                RetryFlowView { phase: RetryPhase::Second, ..f },
                CaptureStepView::Run(capture_args(f.serial)),
            ),
            ReconnectOutcomeView::Broken(err) => (
                done,
                CaptureStepView::Failed(
                    ScreenshotErrorView::ScreenshotCommandFailed { details: connect_error_message(err) },
                ),
            ),
        },
    }
}

/// The state of capturing a screenshot from an opened session.
pub struct ScreenshotFlow {
    serial: String,
    phase: RetryPhase,
}

impl View for ScreenshotFlow {
    type V = RetryFlowView;

    closed spec fn view(&self) -> RetryFlowView {
        RetryFlowView { serial: self.serial@, phase: self.phase }
    }
}

fn capture_args_exec(serial: &str) -> (res: Vec<String>)
    ensures
        string_views(res@) == capture_args(serial@),
{
    let mut res: Vec<String> = Vec::new();
    res.push("-s".to_string());
    res.push(serial.to_string());
    res.push("exec-out".to_string());
    res.push("screencap".to_string());
    res.push("-p".to_string());
    assert(string_views(res@) =~= capture_args(serial@));
    res
}

fn capture_check(event: CommandEvent) -> (res: Result<Vec<u8>, ScreenshotCaptureError>)
    ensures
        match res {
            Ok(b) => capture_outcome(event@) == Ok::<Seq<u8>, ScreenshotErrorView>(b@),
            Err(e) => capture_outcome(event@) == Err::<Seq<u8>, ScreenshotErrorView>(e@),
        },
{
    match event {
        CommandEvent::IoFailed(m) => Err(ScreenshotCaptureError::ScreenshotCommandFailed { details: m }),
        CommandEvent::Completed(o) => if o.status_code != 0 {
            Err(
                ScreenshotCaptureError::ScreenshotCommandFailed {
                    details: render_command_details(o.stdout.as_slice(), o.stderr.as_slice(), o.status_code),
                },
            )
        } else if !is_valid_png(o.stdout.as_slice()) {
            Err(ScreenshotCaptureError::InvalidPng)
        } else {
            Ok(o.stdout)
        },
    }
}

impl ScreenshotFlow {
    pub fn new(session: &DeviceSession) -> (res: Self)
        ensures
            res@.serial == session.spec_serial(),
            res@.phase == RetryPhase::First,
    {
        ScreenshotFlow { serial: session.serial.clone(), phase: RetryPhase::First }
    }

    /// The arguments of the first capture.
    pub fn first_command(&self) -> (res: Vec<String>)
        ensures
            string_views(res@) == capture_args(self@.serial),
    {
        capture_args_exec(self.serial.as_str())
    }

    pub fn step(&mut self, event: CommandEvent) -> (res: CaptureStep)
        requires
            old(self)@.phase != RetryPhase::Finished,
        ensures
            (final(self)@, res@) == capture_next(old(self)@, event@),
    {
        match self.phase {
            RetryPhase::First => match capture_check(event) {
                Ok(b) => {
                    self.phase = RetryPhase::Finished;
                    CaptureStep::Captured(b)
                },
                Err(err) => if looks_like_endpoint(self.serial.as_str()) {
                    self.phase = RetryPhase::Disconnect;
                    CaptureStep::Run(args2("disconnect", self.serial.as_str()))
                } else {
                    self.phase = RetryPhase::Finished;
                    CaptureStep::Failed(err)
                },
            },
            RetryPhase::Second => {
                self.phase = RetryPhase::Finished;
                match capture_check(event) {
                    Ok(b) => CaptureStep::Captured(b),
                    Err(err) => CaptureStep::Failed(err),
                }
            },
            RetryPhase::Finished => CaptureStep::Run(Vec::new()),
            _ => match reconnect_step(&self.serial, self.phase, &event) {
                ReconnectOutcome::Continue(p, args) => {
                    self.phase = p;
                    CaptureStep::Run(args)
                },
                ReconnectOutcome::Ready => {
                    self.phase = RetryPhase::Second;
                    CaptureStep::Run(capture_args_exec(self.serial.as_str()))
                },
                ReconnectOutcome::Broken(err) => {
                    self.phase = RetryPhase::Finished;
                    let details = err.message();
                    CaptureStep::Failed(ScreenshotCaptureError::ScreenshotCommandFailed { details })
                },
            },
        }
    }
}

// ---------------------------------------------------------------------------
// input

/// The arguments of `adb shell input` for `action` on `serial`.
pub open spec fn input_args(serial: Seq<char>, action: DeviceInputAction) -> Seq<Seq<char>> {
    seq!["-s"@, serial, "shell"@, "input"@] + match action {
        DeviceInputAction::Tap { x, y } => seq!["tap"@, decimal(x as nat), decimal(y as nat)],
        DeviceInputAction::Swipe { x1, y1, x2, y2, duration_ms } => seq![
            "swipe"@,
            decimal(x1 as nat),
            decimal(y1 as nat),
            decimal(x2 as nat),
            decimal(y2 as nat),
            decimal(duration_ms as nat),
        ],
        DeviceInputAction::KeyEvent { key_code } => seq!["keyevent"@, decimal(key_code as nat)],
    }
}

pub fn input_args_exec(serial: &str, action: &DeviceInputAction) -> (res: Vec<String>)
    ensures
        string_views(res@) == input_args(serial@, *action),
{
    let mut res: Vec<String> = Vec::new();
    res.push("-s".to_string());
    res.push(serial.to_string());
    res.push("shell".to_string());
    res.push("input".to_string());
    match action {
        DeviceInputAction::Tap { x, y } => {
            res.push("tap".to_string());
            res.push(u64_to_decimal(*x as u64));
            res.push(u64_to_decimal(*y as u64));
        },
        DeviceInputAction::Swipe { x1, y1, x2, y2, duration_ms } => {
            res.push("swipe".to_string());
            res.push(u64_to_decimal(*x1 as u64));
            res.push(u64_to_decimal(*y1 as u64));
            res.push(u64_to_decimal(*x2 as u64));
            res.push(u64_to_decimal(*y2 as u64));
            res.push(u64_to_decimal(*duration_ms as u64));
        },
        DeviceInputAction::KeyEvent { key_code } => {
            res.push("keyevent".to_string());
            res.push(u64_to_decimal(*key_code as u64));
        },
    }
    assert(string_views(res@) =~= input_args(serial@, *action));
    res
}

/// What one `adb shell input` gave.
pub open spec fn input_outcome(action: DeviceInputAction, e: CommandEventView) -> Option<InputErrorView> {
    match e {
        CommandEventView::IoFailed(m) => Some(
            InputErrorView::InputCommandFailed { action: action.spec_label_zh(), details: m },
        ),
        CommandEventView::Completed { status_code, stdout, stderr } => if status_code != 0 {
            Some(
                InputErrorView::InputCommandFailed {
                    action: action.spec_label_zh(),
                    details: command_details(stdout, stderr, status_code),
                },
            )
        } else {
            None
        },
    }
}

pub enum InputStep {
    Run(Vec<String>),
    Sent,
    Failed(DeviceInputError),
}

pub enum InputStepView {
    Run(Seq<Seq<char>>),
    Sent,
    Failed(InputErrorView),
}

impl View for InputStep {
    type V = InputStepView;

    open spec fn view(&self) -> InputStepView {
        match self {
            InputStep::Run(args) => InputStepView::Run(string_views(args@)),
            InputStep::Sent => InputStepView::Sent,
            InputStep::Failed(e) => InputStepView::Failed(e@),
        }
    }
}

/// Sending input: one try; on a loopback device a failed try is followed
/// by a reconnection and one more try.
pub open spec fn input_next(f: RetryFlowView, action: DeviceInputAction, e: CommandEventView) -> (
    RetryFlowView,
    InputStepView,
) {
    let done = RetryFlowView { phase: RetryPhase::Finished, ..f };
    match f.phase {
        RetryPhase::First => match input_outcome(action, e) {
            None => (done, InputStepView::Sent),
            Some(err) => if endpoint(f.serial) {
                (
                    RetryFlowView { phase: RetryPhase::Disconnect, ..f },
                    InputStepView::Run(seq!["disconnect"@, f.serial]),
                )
            } else {
                (done, InputStepView::Failed(err))
            },
        },
        RetryPhase::Second => match input_outcome(action, e) {
            None => (done, InputStepView::Sent),
            Some(err) => (done, InputStepView::Failed(err)),
        },
        RetryPhase::Finished => (f, InputStepView::Run(seq![])),
        _ => match reconnect_next(f.serial, f.phase, e) {
            ReconnectOutcomeView::Continue(p, args) => (RetryFlowView { phase: p, ..f }, InputStepView::Run(args)),
            ReconnectOutcomeView::Ready => (
                RetryFlowView { phase: RetryPhase::Second, ..f },
                InputStepView::Run(input_args(f.serial, action)),
            ),
            ReconnectOutcomeView::Broken(err) => (done, InputStepView::Failed(InputErrorView::Connect(err))),
        },
    }
}

/// The state of sending one input action to an opened session.
pub struct InputFlow {
    serial: String,
    action: DeviceInputAction,
    phase: RetryPhase,
}

impl View for InputFlow {
    type V = RetryFlowView;

    closed spec fn view(&self) -> RetryFlowView {
        RetryFlowView { serial: self.serial@, phase: self.phase }
    }
}

fn input_check(action: &DeviceInputAction, event: CommandEvent) -> (res: Option<DeviceInputError>)
    ensures
        match res {
            Some(e) => input_outcome(*action, event@) == Some(e@),
            None => input_outcome(*action, event@) is None,
        },
{
    match event {
        CommandEvent::IoFailed(m) => Some(DeviceInputError::InputCommandFailed { action: action.label_zh(), details: m }),
        CommandEvent::Completed(o) => if o.status_code != 0 {
            Some(
                DeviceInputError::InputCommandFailed {
                    action: action.label_zh(),
                    details: render_command_details(o.stdout.as_slice(), o.stderr.as_slice(), o.status_code),
                },
            )
        } else {
            None
        },
    }
}

impl InputFlow {
    pub closed spec fn spec_action(&self) -> DeviceInputAction {
        self.action
    }

    pub fn new(session: &DeviceSession, action: &DeviceInputAction) -> (res: Self)
        ensures
            res@.serial == session.spec_serial(),
            res@.phase == RetryPhase::First,
            res.spec_action() == *action,
    {
        InputFlow { serial: session.serial.clone(), action: *action, phase: RetryPhase::First }
    }

    /// The arguments of the first try.
    pub fn first_command(&self) -> (res: Vec<String>)
        ensures
            string_views(res@) == input_args(self@.serial, self.spec_action()),
    {
        input_args_exec(self.serial.as_str(), &self.action)
    }

    pub fn step(&mut self, event: CommandEvent) -> (res: InputStep)
        requires
            old(self)@.phase != RetryPhase::Finished,
        ensures
            final(self).spec_action() == old(self).spec_action(),
            (final(self)@, res@) == input_next(old(self)@, old(self).spec_action(), event@),
    {
        match self.phase {
            RetryPhase::First => match input_check(&self.action, event) {
                None => {
                    self.phase = RetryPhase::Finished;
                    InputStep::Sent
                },
                Some(err) => if looks_like_endpoint(self.serial.as_str()) {
                    self.phase = RetryPhase::Disconnect;
                    InputStep::Run(args2("disconnect", self.serial.as_str()))
                } else {
                    self.phase = RetryPhase::Finished;
                    InputStep::Failed(err)
                },
            },
            RetryPhase::Second => {
                self.phase = RetryPhase::Finished;
                match input_check(&self.action, event) {
                    None => InputStep::Sent,
                    Some(err) => InputStep::Failed(err),
                }
            },
            RetryPhase::Finished => InputStep::Run(Vec::new()),
            _ => match reconnect_step(&self.serial, self.phase, &event) {
                ReconnectOutcome::Continue(p, args) => {
                    self.phase = p;
                    InputStep::Run(args)
                },
                ReconnectOutcome::Ready => {
                    self.phase = RetryPhase::Second;
                    InputStep::Run(input_args_exec(self.serial.as_str(), &self.action))
                },
                ReconnectOutcome::Broken(err) => {
                    self.phase = RetryPhase::Finished;
                    InputStep::Failed(DeviceInputError::Connect(err))
                },
            },
        }
    }
}

/// Law: a retrying flow runs at most five commands: the first try, the
/// three of reconnecting, and the second try; it retries only a loopback
/// endpoint, and a second failure is final.
pub open spec fn retry_measure(p: RetryPhase) -> int {
    match p {
        RetryPhase::First => 5,
        RetryPhase::Disconnect => 4,
        RetryPhase::Reconnect => 3,
        RetryPhase::ListDevices => 2,
        RetryPhase::Second => 1,
        RetryPhase::Finished => 0,
    }
}

/// Law: every step of a screenshot or input flow that asks for another
/// command leaves fewer to ask (so each runs at most five), a retry happens
/// only on a loopback endpoint, and the second try is the last.
pub proof fn lemma_retry_flows(f: RetryFlowView, action: DeviceInputAction, e: CommandEventView)
    requires
        f.phase != RetryPhase::Finished,
    ensures
        capture_next(f, e).1 is Run ==> retry_measure(capture_next(f, e).0.phase) < retry_measure(f.phase),
        input_next(f, action, e).1 is Run ==> retry_measure(input_next(f, action, e).0.phase)
            < retry_measure(f.phase),
        capture_next(f, e).0.phase == RetryPhase::Disconnect ==> endpoint(f.serial),
        input_next(f, action, e).0.phase == RetryPhase::Disconnect ==> endpoint(f.serial),
        f.phase == RetryPhase::Second ==> capture_next(f, e).0.phase == RetryPhase::Finished
            && input_next(f, action, e).0.phase == RetryPhase::Finished,
        capture_next(f, e).0.serial == f.serial && input_next(f, action, e).0.serial == f.serial,
{
}

} // verus!
