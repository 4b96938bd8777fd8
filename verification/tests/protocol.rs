use auto_play::adb::{
    AdbError, Device, Input, ResponseStatus, ScreenCapPng, ScreenCapRaw, ShellCommand,
    frame_request, i64_to_string, parse_payload_len, u64_to_string,
};
use auto_play::action;
use auto_play::actions;
use auto_play::controller::{AndroidController, Controller, MaaTouchState, parse_number,
    parse_screen_on, trim_trailing_newline};
use auto_play::adb::DeviceInfo;

#[test]
fn test_decimal_rendering() {
    assert_eq!(u64_to_string(0), "0");
    assert_eq!(u64_to_string(7), "7");
    assert_eq!(u64_to_string(12345), "12345");
    assert_eq!(u64_to_string(u64::MAX), "18446744073709551615");
    assert_eq!(i64_to_string(-42), "-42");
    assert_eq!(i64_to_string(42), "42");
    assert_eq!(i64_to_string(i64::MIN), "-9223372036854775808");
}

#[test]
fn test_frame_request() {
    assert_eq!(frame_request("host:version"), "000chost:version");
    assert_eq!(frame_request(""), "0000");
    assert_eq!(frame_request("host:transport:emulator-5554"), "001chost:transport:emulator-5554");
}

#[test]
fn test_shell_command() {
    let cmd = ShellCommand::new("ls /data".to_string());
    assert_eq!(cmd.raw_command(), "shell:ls /data");
}

#[test]
fn test_screencap_commands() {
    assert_eq!(ScreenCapPng::new().raw_command(), "shell:screencap -p");
    assert_eq!(ScreenCapRaw::new().raw_command(), "shell:screencap");
}

#[test]
fn test_input_commands() {
    let swipe = Input::Swipe { p1: (100, 100), p2: (200, -5), duration_ms: 50 };
    assert_eq!(swipe.raw_command(), "shell:input swipe 100 100 200 -5 50");
    let key = Input::Keyevent("KEYCODE_WAKEUP".to_string());
    assert_eq!(key.raw_command(), "shell:input keyevent KEYCODE_WAKEUP");
}

#[test]
fn test_parse_payload_len() {
    assert_eq!(parse_payload_len(b"1a2f").unwrap(), 0x1a2f);
    assert_eq!(parse_payload_len(b"0000").unwrap(), 0);
    assert_eq!(parse_payload_len(b"FFFF").unwrap(), 65535);
    assert!(matches!(parse_payload_len(b"1g2f"), Err(AdbError::ParseError(_))));
    assert!(matches!(parse_payload_len(b"123"), Err(AdbError::ParseError(_))));
}

#[test]
fn test_response_status() {
    assert_eq!(ResponseStatus::parse(b"OKAY").unwrap(), ResponseStatus::Okay);
    assert_eq!(ResponseStatus::parse(b"FAIL").unwrap(), ResponseStatus::Fail);
    assert!(matches!(
        ResponseStatus::parse(b"NOPE"),
        Err(AdbError::UnknownResponseStatus(_))
    ));
}

#[test]
fn test_screencap_raw_parse() {
    let mut payload: Vec<u8> = Vec::new();
    payload.extend_from_slice(&[2, 0, 0, 0]); // width 2
    payload.extend_from_slice(&[1, 0, 0, 0]); // height 1
    payload.extend_from_slice(&[1, 0, 0, 0]); // format 1
    payload.extend_from_slice(&[10, 20, 30, 40, 50, 60, 70, 80]);
    let (w, h, px) = ScreenCapRaw::parse_payload(&payload).unwrap();
    assert_eq!((w, h), (2, 1));
    assert_eq!(px, vec![10, 20, 30, 40, 50, 60, 70, 80]);

    let mut bad = payload.clone();
    bad[8] = 2;
    assert!(matches!(ScreenCapRaw::parse_payload(&bad), Err(AdbError::ProtocolError(_))));
    assert!(matches!(ScreenCapRaw::parse_payload(&payload[..8]), Err(AdbError::ProtocolError(_))));
}

#[test]
fn test_maatouch_state_from_info() {
    let s = MaaTouchState::from_info(10, 1920, 1080, 255);
    assert!(!s.flip_xy);
    assert_eq!((s.max_x, s.max_y), (1920, 1080));
    let s = MaaTouchState::from_info(10, 1080, 1920, 255);
    assert!(s.flip_xy);
    assert_eq!((s.max_x, s.max_y), (1920, 1080));
}

#[test]
fn test_maatouch_commands() {
    let plain = MaaTouchState::from_info(10, 1920, 1080, 255);
    assert_eq!(plain.down_command(0, 100, 80, 255), "d 0 100 80 255");
    assert_eq!(plain.move_command(0, -3, 80, 255), "m 0 -3 80 255");
    let flipped = MaaTouchState::from_info(10, 1080, 1920, 255);
    assert_eq!(flipped.down_command(0, 100, 80, 255), "d 0 1000 100 255");
    assert_eq!(flipped.move_command(0, 100, 2000, 255), "m 0 -920 100 255");
    assert_eq!(plain.up_command(0), "u 0");
    assert_eq!(plain.commit_command(), "c");
    assert_eq!(plain.reset_command(), "r");
}

#[test]
fn test_device_serial() {
    let device = Device::new("emulator-5554".to_string());
    assert_eq!(device.serial(), "emulator-5554");
}

#[test]
fn test_android_controller_commands() {
    let device = Device::new("emulator-5554".to_string());
    let controller = AndroidController::from_device(device, 1920, 1080);
    assert_eq!(controller.device().serial(), "emulator-5554");
    match controller.press_home() {
        Input::Keyevent(k) => assert_eq!(k, "HOME"),
        _ => panic!("expected a key event"),
    }
    match controller.press_esc() {
        Input::Keyevent(k) => assert_eq!(k, "111"),
        _ => panic!("expected a key event"),
    }
    let launch = controller.launch_app("com.foo/.Main");
    assert_eq!(launch.raw_command(), "shell:am start -n com.foo/.Main");
    let launch = controller.launch_app("com.foo");
    assert_eq!(launch.raw_command(), "shell:monkey -p com.foo 1");
    let stop = controller.stop_app("com.foo");
    assert_eq!(stop.raw_command(), "shell:am force-stop com.foo");
}

#[test]
fn test_controller_commands() {
    let device = Device::new("127.0.0.1:16384".to_string());
    let controller = Controller::from_device(device, 1920, 1080);
    assert_eq!(controller.screen_size(), (1920, 1080));
    assert_eq!(controller.press_home(), "shell input keyevent HOME");
    assert_eq!(controller.press_esc(), "shell input keyevent 111");
}

#[test]
fn test_action_types() {
    let click = action::Click { x: 10, y: 20 };
    assert_eq!((click.x, click.y), (10, 20));
    let press = action::Key::Escape.press();
    assert_eq!(press.key, action::Key::Escape);
    let wait = action::WaitAction { ms: 100 };
    assert_eq!(wait.ms, 100);
    let launch = action::LaunchAppAction { package: "com.foo".to_string() };
    assert_eq!(launch.package, "com.foo");
}

#[test]
fn test_actions_constructors() {
    assert_eq!(actions::Click::new(1, 2), actions::Click::new(1, 2));
    assert_ne!(actions::Click::new(1, 2), actions::Click::new(2, 1));
    assert_eq!(actions::Press::esc(), actions::Press::esc());
    assert_ne!(actions::Press::esc(), actions::Press::home());
    assert_eq!(
        actions::ClickMatchTemplate::new("start.png"),
        actions::ClickMatchTemplate::new("start.png"),
    );
}

#[test]
fn test_device_info_parse() {
    let info = DeviceInfo::parse("emulator-5554\tdevice product:sdk_gphone64 model:pixel").unwrap();
    assert_eq!(info.serial, "emulator-5554");
    assert_eq!(info.info.len(), 2);
    assert_eq!(info.info[0], ("product".to_string(), "sdk_gphone64".to_string()));
    assert_eq!(info.info[1], ("model".to_string(), "pixel".to_string()));
}

#[test]
fn test_device_info_parse_drops_odd_tokens() {
    // Tokens without exactly one colon are dropped.
    let info = DeviceInfo::parse("serial device plain a:b x:y:z c:").unwrap();
    assert_eq!(info.serial, "serial");
    assert_eq!(
        info.info,
        vec![("a".to_string(), "b".to_string()), ("c".to_string(), "".to_string())],
    );
}

#[test]
fn test_device_info_parse_errors() {
    assert!(matches!(DeviceInfo::parse(""), Err(AdbError::DeviceInfoParseError(_))));
    assert!(matches!(DeviceInfo::parse("serial"), Err(AdbError::DeviceInfoParseError(_))));
    assert!(matches!(
        DeviceInfo::parse("serial offline"),
        Err(AdbError::DeviceInfoParseError(_))
    ));
}

#[test]
fn test_parse_screen_on() {
    assert!(parse_screen_on("  mWakefulness=Awake\n"));
    assert!(!parse_screen_on("  mWakefulness=Asleep\n"));
    assert!(!parse_screen_on(""));
}

#[test]
fn test_parse_number() {
    assert_eq!(parse_number("1079", 0, 4), Some(1079));
    assert_eq!(parse_number("abc 42 xyz", 4, 6), Some(42));
    assert_eq!(parse_number("12a4", 0, 4), None);
    assert_eq!(parse_number("", 0, 0), None);
    assert_eq!(parse_number("1234567890", 0, 10), None);
    assert_eq!(parse_number("999999999", 0, 9), Some(999999999));
}

#[test]
fn test_maatouch_parse_info() {
    let st = MaaTouchState::parse_info("^ 10 1079 1919 2048").unwrap();
    assert_eq!(st.max_contact, 10);
    assert_eq!(st.max_pressure, 2048);
    assert!(st.flip_xy);
    assert_eq!((st.max_x, st.max_y), (1919, 1079));

    let st = MaaTouchState::parse_info("^ 2 1920 1080 255").unwrap();
    assert!(!st.flip_xy);
    assert_eq!((st.max_x, st.max_y), (1920, 1080));

    assert!(MaaTouchState::parse_info("$ 1").is_none());
    assert!(MaaTouchState::parse_info("^ 10 1079").is_none());
    assert!(MaaTouchState::parse_info("^ 10 x 1919 2048").is_none());
    assert!(MaaTouchState::parse_info("").is_none());
}

#[test]
fn test_trim_trailing_newline() {
    assert_eq!(trim_trailing_newline("arm64-v8a\n"), "arm64-v8a");
    assert_eq!(trim_trailing_newline("arm64-v8a"), "arm64-v8a");
    assert_eq!(trim_trailing_newline(""), "");
    assert_eq!(trim_trailing_newline("a\n\n"), "a\n");
}
