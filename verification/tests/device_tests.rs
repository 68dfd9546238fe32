use akbox::device::AdbDeviceEntry;
use akbox::device::CaptureStep;
use akbox::device::CommandEvent;
use akbox::device::CommandOutput;
use akbox::device::ConnectStep;
use akbox::device::DeviceConnectError;
use akbox::device::DeviceConnectFlow;
use akbox::device::DeviceConnectRequest;
use akbox::device::DeviceInputAction;
use akbox::device::DeviceInputError;
use akbox::device::DeviceInputRequest;
use akbox::device::DeviceSelectionSource;
use akbox::device::DeviceSessionOpenResult;
use akbox::device::InputFlow;
use akbox::device::InputStep;
use akbox::device::ScreenshotCaptureError;
use akbox::device::ScreenshotCaptureRequest;
use akbox::device::ScreenshotFlow;
use akbox::device::DEFAULT_MUMU_DISCOVERY_INSTANCE_COUNT;
use akbox::device::build_mumu_serial_candidates;
use akbox::device::is_valid_png;
use akbox::device::looks_like_endpoint;
use akbox::device::normalize_serial_input;
use akbox::device::parse_adb_devices_output;
use akbox::device::render_command_details;
use akbox::device::render_visible_devices;
use std::collections::VecDeque;
use std::path::PathBuf;

const TEST_PNG: &[u8] = &[0x89, b'P', b'N', b'G', 0x0d, 0x0a, 0x1a, 0x0a, 0, 0, 0, 0];

/// Answers the commands that a flow asks for, in order, and records them.
struct FakeRunner {
    results: VecDeque<CommandOutput>,
    calls: Vec<Vec<String>>,
}

impl FakeRunner {
    fn new(results: Vec<CommandOutput>) -> Self {
        FakeRunner { results: results.into_iter().collect(), calls: Vec::new() }
    }

    fn run(&mut self, args: Vec<String>) -> CommandEvent {
        self.calls.push(args);
        match self.results.pop_front() {
            Some(output) => CommandEvent::Completed(output),
            None => panic!("no fake result left"),
        }
    }
}

fn success(stdout: &[u8]) -> CommandOutput {
    CommandOutput { status_code: 0, stdout: stdout.to_vec(), stderr: Vec::new() }
}

fn failure(status_code: i32, stdout: &[u8], stderr: &[u8]) -> CommandOutput {
    CommandOutput { status_code, stdout: stdout.to_vec(), stderr: stderr.to_vec() }
}

fn strings(parts: &[&str]) -> Vec<String> {
    parts.iter().map(|p| p.to_string()).collect()
}

fn open_session(
    request: &DeviceConnectRequest,
    runner: &mut FakeRunner,
) -> Result<DeviceSessionOpenResult, DeviceConnectError> {
    let mut flow = DeviceConnectFlow::new(request);
    let mut args = flow.start_server_command();
    loop {
        let event = runner.run(args);
        match flow.step(event) {
            ConnectStep::Run(next) => args = next,
            ConnectStep::Selected { serial, source } => {
                return Ok(flow.into_open_result(PathBuf::from("adb"), serial, source));
            }
            ConnectStep::Failed(error) => return Err(error),
        }
    }
}

fn capture(
    request: &ScreenshotCaptureRequest,
    runner: &mut FakeRunner,
) -> Result<(Vec<u8>, DeviceSessionOpenResult), ScreenshotCaptureError> {
    let opened = match open_session(&DeviceConnectRequest::from_screenshot_request(request), runner) {
        Ok(opened) => opened,
        Err(error) => return Err(ScreenshotCaptureError::Connect(error)),
    };
    let mut flow = ScreenshotFlow::new(&opened.session);
    let mut args = flow.first_command();
    loop {
        let event = runner.run(args);
        match flow.step(event) {
            CaptureStep::Run(next) => args = next,
            CaptureStep::Captured(bytes) => return Ok((bytes, opened)),
            CaptureStep::Failed(error) => return Err(error),
        }
    }
}

fn send_input(
    request: &DeviceInputRequest,
    runner: &mut FakeRunner,
) -> Result<DeviceSessionOpenResult, DeviceInputError> {
    let opened = match open_session(&DeviceConnectRequest::from_input_request(request), runner) {
        Ok(opened) => opened,
        Err(error) => return Err(DeviceInputError::Connect(error)),
    };
    let mut flow = InputFlow::new(&opened.session, &request.action);
    let mut args = flow.first_command();
    loop {
        let event = runner.run(args);
        match flow.step(event) {
            InputStep::Run(next) => args = next,
            InputStep::Sent => return Ok(opened),
            InputStep::Failed(error) => return Err(error),
        }
    }
}

#[test]
fn request_can_store_optional_adb_path_and_preferred_serial() {
    let request = ScreenshotCaptureRequest {
        adb_executable: Some(PathBuf::from("C:/MuMu/shell/adb.exe")),
        preferred_serial: Some("127.0.0.1:7555".to_string()),
        discovery_instance_count: DEFAULT_MUMU_DISCOVERY_INSTANCE_COUNT,
    };

    assert_eq!(request.adb_executable, Some(PathBuf::from("C:/MuMu/shell/adb.exe")));
    assert_eq!(request.preferred_serial.as_deref(), Some("127.0.0.1:7555"));
}

#[test]
fn candidate_ports_start_with_default_mumu_endpoints() {
    let candidates = build_mumu_serial_candidates(3);
    assert_eq!(
        candidates,
        vec![
            "127.0.0.1:7555".to_string(),
            "127.0.0.1:16384".to_string(),
            "127.0.0.1:16416".to_string(),
            "127.0.0.1:16448".to_string(),
        ]
    );
}

#[test]
fn adb_devices_parser_ignores_headers_and_daemon_lines() {
    let parsed = parse_adb_devices_output(
        b"* daemon not running; starting now at tcp:5037\n* daemon started successfully\nList of devices attached\n127.0.0.1:7555\tdevice\n127.0.0.1:16384\toffline\n\n",
    );

    assert_eq!(
        parsed,
        vec![
            AdbDeviceEntry { serial: "127.0.0.1:7555".to_string(), state: "device".to_string() },
            AdbDeviceEntry { serial: "127.0.0.1:16384".to_string(), state: "offline".to_string() },
        ]
    );
}

#[test]
fn capture_uses_existing_connected_device_without_connect() {
    let mut runner = FakeRunner::new(vec![
        success(b""),
        success(b"List of devices attached\n127.0.0.1:7555\tdevice\n"),
        success(TEST_PNG),
    ]);
    let request = ScreenshotCaptureRequest {
        adb_executable: Some(PathBuf::from("adb")),
        preferred_serial: None,
        discovery_instance_count: 4,
    };

    let (png_bytes, opened) = match capture(&request, &mut runner) {
        Ok(result) => result,
        Err(_) => panic!("capture failed"),
    };

    assert_eq!(opened.connection.serial, "127.0.0.1:7555");
    assert!(opened.connection.selection_source == DeviceSelectionSource::ExistingConnectedDevice);
    assert_eq!(png_bytes, TEST_PNG);
    assert_eq!(
        runner.calls,
        vec![
            strings(&["start-server"]),
            strings(&["devices"]),
            strings(&["-s", "127.0.0.1:7555", "exec-out", "screencap", "-p"]),
        ]
    );
}

#[test]
fn open_session_connects_candidate_when_nothing_is_connected() {
    let mut runner = FakeRunner::new(vec![
        success(b""),
        success(b"List of devices attached\n"),
        failure(1, b"cannot connect", b""),
        success(b"already connected to 127.0.0.1:16384"),
        success(b"List of devices attached\n127.0.0.1:16384\tdevice\n"),
    ]);
    let request = DeviceConnectRequest {
        adb_executable: Some(PathBuf::from("adb")),
        preferred_serial: None,
        discovery_instance_count: 1,
    };

    let opened = match open_session(&request, &mut runner) {
        Ok(opened) => opened,
        Err(_) => panic!("open failed"),
    };

    assert_eq!(opened.connection.serial, "127.0.0.1:16384");
    assert!(opened.connection.selection_source == DeviceSelectionSource::ConnectedCandidate);
    assert_eq!(
        opened.connection.attempted_serials,
        vec!["127.0.0.1:7555".to_string(), "127.0.0.1:16384".to_string()]
    );
}

#[test]
fn capture_retries_after_invalid_png_for_loopback_device() {
    let mut runner = FakeRunner::new(vec![
        success(b""),
        success(b"List of devices attached\n127.0.0.1:7555\tdevice\n"),
        success(b"not-a-png"),
        success(b"disconnected 127.0.0.1:7555"),
        success(b"connected to 127.0.0.1:7555"),
        success(b"List of devices attached\n127.0.0.1:7555\tdevice\n"),
        success(TEST_PNG),
    ]);
    let request = ScreenshotCaptureRequest {
        adb_executable: Some(PathBuf::from("adb")),
        preferred_serial: Some("7555".to_string()),
        discovery_instance_count: 4,
    };

    let (png_bytes, opened) = match capture(&request, &mut runner) {
        Ok(result) => result,
        Err(_) => panic!("capture failed"),
    };

    assert_eq!(png_bytes, TEST_PNG);
    assert_eq!(opened.connection.serial, "127.0.0.1:7555");
}

#[test]
fn invalid_png_is_reported_for_non_loopback_devices() {
    let mut runner = FakeRunner::new(vec![
        success(b""),
        success(b"List of devices attached\nemulator-5554\tdevice\n"),
        success(b"not-a-png"),
    ]);
    let request = ScreenshotCaptureRequest {
        adb_executable: Some(PathBuf::from("adb.exe")),
        preferred_serial: Some("emulator-5554".to_string()),
        discovery_instance_count: 4,
    };

    let error = match capture(&request, &mut runner) {
        Ok(_) => panic!("capture should fail"),
        Err(error) => error,
    };
    assert!(matches!(error, ScreenshotCaptureError::InvalidPng));
}

#[test]
fn send_keyevent_uses_existing_connected_device() {
    let mut runner = FakeRunner::new(vec![
        success(b""),
        success(b"List of devices attached\n127.0.0.1:7555\tdevice\n"),
        success(b""),
    ]);
    let request = DeviceInputRequest {
        adb_executable: Some(PathBuf::from("adb")),
        preferred_serial: None,
        discovery_instance_count: 4,
        action: DeviceInputAction::KeyEvent { key_code: 3 },
    };

    let opened = match send_input(&request, &mut runner) {
        Ok(opened) => opened,
        Err(_) => panic!("input failed"),
    };

    assert_eq!(opened.connection.serial, "127.0.0.1:7555");
    assert!(request.action == DeviceInputAction::KeyEvent { key_code: 3 });
    assert_eq!(
        runner.calls,
        vec![
            strings(&["start-server"]),
            strings(&["devices"]),
            strings(&["-s", "127.0.0.1:7555", "shell", "input", "keyevent", "3"]),
        ]
    );
}

#[test]
fn send_tap_retries_after_loopback_failure() {
    let mut runner = FakeRunner::new(vec![
        success(b""),
        success(b"List of devices attached\n127.0.0.1:7555\tdevice\n"),
        failure(1, b"", b"tap failed"),
        success(b"disconnected 127.0.0.1:7555"),
        success(b"connected to 127.0.0.1:7555"),
        success(b"List of devices attached\n127.0.0.1:7555\tdevice\n"),
        success(b""),
    ]);
    let request = DeviceInputRequest {
        adb_executable: Some(PathBuf::from("adb")),
        preferred_serial: Some("7555".to_string()),
        discovery_instance_count: 4,
        action: DeviceInputAction::Tap { x: 120, y: 340 },
    };

    let opened = match send_input(&request, &mut runner) {
        Ok(opened) => opened,
        Err(_) => panic!("input failed"),
    };

    assert_eq!(opened.connection.serial, "127.0.0.1:7555");
    assert!(request.action == DeviceInputAction::Tap { x: 120, y: 340 });
    assert_eq!(runner.calls.len(), 7);
    assert_eq!(runner.calls[3], strings(&["disconnect", "127.0.0.1:7555"]));
    assert_eq!(runner.calls[4], strings(&["connect", "127.0.0.1:7555"]));
}

#[test]
fn send_swipe_reports_failure_for_non_loopback_without_retry() {
    let mut runner = FakeRunner::new(vec![
        success(b""),
        success(b"List of devices attached\nemulator-5554\tdevice\n"),
        failure(1, b"", b"swipe failed"),
    ]);
    let request = DeviceInputRequest {
        adb_executable: Some(PathBuf::from("adb")),
        preferred_serial: Some("emulator-5554".to_string()),
        discovery_instance_count: 4,
        action: DeviceInputAction::Swipe { x1: 100, y1: 200, x2: 300, y2: 400, duration_ms: 500 },
    };

    match send_input(&request, &mut runner) {
        Err(DeviceInputError::InputCommandFailed { action, details }) => {
            assert_eq!(action, "滑动");
            assert!(details.contains("swipe failed"));
        }
        Err(other) => panic!("unexpected error: {}", other.message()),
        Ok(_) => panic!("input should fail"),
    }
    assert_eq!(runner.calls.len(), 3);
}

#[test]
fn swipe_arguments_carry_coordinates_and_duration() {
    let mut runner = FakeRunner::new(vec![
        success(b""),
        success(b"List of devices attached\nemulator-5554\tdevice\n"),
        success(b""),
    ]);
    let request = DeviceInputRequest {
        adb_executable: Some(PathBuf::from("adb")),
        preferred_serial: Some("emulator-5554".to_string()),
        discovery_instance_count: 4,
        action: DeviceInputAction::Swipe { x1: 100, y1: 200, x2: 300, y2: 400, duration_ms: 500 },
    };

    let opened = match send_input(&request, &mut runner) {
        Ok(opened) => opened,
        Err(_) => panic!("input failed"),
    };
    assert!(opened.connection.selection_source == DeviceSelectionSource::PreferredSerial);
    assert_eq!(
        runner.calls[2],
        strings(&["-s", "emulator-5554", "shell", "input", "swipe", "100", "200", "300", "400", "500"])
    );
}

#[test]
fn preferred_serial_that_is_not_listed_and_not_an_endpoint_is_unavailable() {
    let mut runner = FakeRunner::new(vec![
        success(b""),
        success(b"List of devices attached\nemulator-5556\tdevice\n"),
    ]);
    let request = DeviceConnectRequest {
        adb_executable: Some(PathBuf::from("adb")),
        preferred_serial: Some("emulator-5554".to_string()),
        discovery_instance_count: 4,
    };

    match open_session(&request, &mut runner) {
        Err(DeviceConnectError::PreferredSerialUnavailable { serial, visible_devices }) => {
            assert_eq!(serial, "emulator-5554");
            assert_eq!(visible_devices, "emulator-5556 (device)");
        }
        Err(other) => panic!("unexpected error: {}", other.message()),
        Ok(_) => panic!("open should fail"),
    }
}

#[test]
fn no_device_found_lists_every_attempted_candidate() {
    let mut runner = FakeRunner::new(vec![
        success(b""),
        success(b"List of devices attached\n"),
        failure(1, b"", b"refused"),
        failure(1, b"", b"refused"),
    ]);
    let request = DeviceConnectRequest {
        adb_executable: Some(PathBuf::from("adb")),
        preferred_serial: None,
        discovery_instance_count: 1,
    };

    match open_session(&request, &mut runner) {
        Err(DeviceConnectError::NoDeviceFound { attempted_serials, visible_devices }) => {
            assert_eq!(attempted_serials, "127.0.0.1:7555, 127.0.0.1:16384");
            assert_eq!(visible_devices, "<空>");
        }
        Err(other) => panic!("unexpected error: {}", other.message()),
        Ok(_) => panic!("open should fail"),
    }
}

#[test]
fn failing_start_server_is_reported_with_its_details() {
    let mut runner = FakeRunner::new(vec![failure(2, b"", b"boom")]);
    let request = DeviceConnectRequest::default();

    match open_session(&request, &mut runner) {
        Err(DeviceConnectError::CommandFailed { action, status_code, details }) => {
            assert_eq!(action, "adb start-server");
            assert_eq!(status_code, 2);
            assert_eq!(details, "boom");
        }
        Err(other) => panic!("unexpected error: {}", other.message()),
        Ok(_) => panic!("open should fail"),
    }
}

#[test]
fn io_failure_of_a_command_is_reported() {
    let request = DeviceConnectRequest::default();
    let mut flow = DeviceConnectFlow::new(&request);
    match flow.step(CommandEvent::IoFailed("no such file".to_string())) {
        ConnectStep::Failed(DeviceConnectError::CommandIo { action, details }) => {
            assert_eq!(action, "adb start-server");
            assert_eq!(details, "no such file");
        }
        _ => panic!("expected an I/O failure"),
    }
}

#[test]
fn default_requests_use_the_default_discovery_count() {
    assert_eq!(DeviceConnectRequest::default().discovery_instance_count, 8);
    assert_eq!(ScreenshotCaptureRequest::default().discovery_instance_count, 8);
    assert!(DeviceConnectRequest::default().preferred_serial.is_none());
}

#[test]
fn serial_input_is_trimmed_and_bare_ports_become_loopback() {
    assert_eq!(normalize_serial_input(Some("  7555 ")), Some("127.0.0.1:7555".to_string()));
    assert_eq!(normalize_serial_input(Some("emulator-5554")), Some("emulator-5554".to_string()));
    assert_eq!(normalize_serial_input(Some("   ")), None);
    assert_eq!(normalize_serial_input(None), None);
}

#[test]
fn endpoints_are_loopback_addresses() {
    assert!(looks_like_endpoint("127.0.0.1:7555"));
    assert!(looks_like_endpoint("localhost:5555"));
    assert!(!looks_like_endpoint("emulator-5554"));
    assert!(!looks_like_endpoint("192.168.1.2:5555"));
}

#[test]
fn png_signature_check() {
    assert!(is_valid_png(TEST_PNG));
    assert!(!is_valid_png(b"not-a-png"));
    assert!(!is_valid_png(&TEST_PNG[..7]));
}

#[test]
fn command_details_prefer_stderr_and_describe_silence() {
    assert_eq!(render_command_details(b"", b"", 3), "无输出（退出码 3）");
    assert_eq!(render_command_details(b" out \n", b"", 1), "out");
    assert_eq!(render_command_details(b"", b" err ", 1), "err");
    assert_eq!(render_command_details(b"out", b"err", 1), "err | stdout: out");
}

#[test]
fn visible_devices_are_rendered_with_their_state() {
    assert_eq!(render_visible_devices(&[]), "<空>");
    let devices = vec![
        AdbDeviceEntry { serial: "a".to_string(), state: "device".to_string() },
        AdbDeviceEntry { serial: "b".to_string(), state: "offline".to_string() },
    ];
    assert_eq!(render_visible_devices(&devices), "a (device), b (offline)");
}

#[test]
fn selection_sources_and_actions_have_chinese_labels() {
    assert_eq!(DeviceSelectionSource::PreferredSerial.label_zh(), "手动指定");
    assert_eq!(DeviceSelectionSource::ExistingConnectedDevice.label_zh(), "已连接设备");
    assert_eq!(DeviceSelectionSource::ConnectedCandidate.label_zh(), "自动发现并连接");
    assert_eq!(DeviceInputAction::Tap { x: 1, y: 2 }.label_zh(), "点按");
    assert_eq!(DeviceInputAction::KeyEvent { key_code: 4 }.label_zh(), "按键");
}
