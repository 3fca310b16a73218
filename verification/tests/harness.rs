use marginalia::QemuExitCode;

#[test]
fn the_obvious_holds() {
    assert_eq!(1, 1);
}

#[test]
fn exit_codes_reach_the_debug_port() {
    assert_eq!(QemuExitCode::Success.code(), 0x10);
    assert_eq!(QemuExitCode::Failed.code(), 0x11);
}
