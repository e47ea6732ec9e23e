use revelation_chain::runtime::RuntimeMode;

#[test]
fn test_runtime_mode_detection() {
    let mode = RuntimeMode::detect();
    assert!(matches!(mode, RuntimeMode::Desktop | RuntimeMode::Mobile | RuntimeMode::Unknown));
}

#[test]
fn runtime_mode_from_os_names() {
    assert_eq!(RuntimeMode::from_os("android"), RuntimeMode::Mobile);
    assert_eq!(RuntimeMode::from_os("ios"), RuntimeMode::Mobile);
    assert_eq!(RuntimeMode::from_os("linux"), RuntimeMode::Desktop);
    assert_eq!(RuntimeMode::from_os("windows"), RuntimeMode::Desktop);
    assert_eq!(RuntimeMode::from_os("macos"), RuntimeMode::Desktop);
    assert_eq!(RuntimeMode::from_os("plan9"), RuntimeMode::Unknown);
    assert!(RuntimeMode::Mobile.is_mobile());
    assert!(!RuntimeMode::Mobile.is_desktop());
    assert!(RuntimeMode::Desktop.is_desktop());
    assert!(!RuntimeMode::Unknown.is_mobile());
}
