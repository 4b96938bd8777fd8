use auto_play::adb::{Device, ScreenCapPng, ShellCommand, frame_request};

#[test]
fn local_service_test_screencap() {
    // A capture session against the device at 127.0.0.1:16384: the
    // transport request for the device, then the capture command.
    let transport = frame_request(&format!("host:transport:{}", "127.0.0.1:16384"));
    assert_eq!(transport, "001ehost:transport:127.0.0.1:16384");
    let cmd = ScreenCapPng::new();
    let request = frame_request(&cmd.raw_command());
    assert_eq!(request, "0012shell:screencap -p");
}

#[test]
fn test_minitouch() {
    let transport = frame_request(&format!("host:transport:{}", "127.0.0.1:16384"));
    assert_eq!(transport, "001ehost:transport:127.0.0.1:16384");
    let cmd = ShellCommand::new("/data/local/tmp/minitouch -h".to_string());
    assert_eq!(cmd.raw_command(), "shell:/data/local/tmp/minitouch -h");
}

#[test]
fn test_connect() {
    let device = Device::new("192.168.1.3:40919".to_string());
    assert_eq!(device.serial(), "192.168.1.3:40919");
}
