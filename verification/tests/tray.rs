use local_stack_core::tray::{TrayCommand, TrayFollowUp, action_feedback, busy_feedback, navigation_allowed, tray_tooltip};

#[test]
fn maps_only_declared_tray_menu_ids() {
    assert_eq!(TrayCommand::from_menu_id("tray-show"), Some(TrayCommand::Show));
    assert_eq!(TrayCommand::from_menu_id("tray-start-stack"), Some(TrayCommand::StartStack));
    assert_eq!(
        TrayCommand::from_menu_id("tray-stop-stack"),
        Some(TrayCommand::StopManagedStack)
    );
    assert_eq!(TrayCommand::from_menu_id("tray-release-vram"), Some(TrayCommand::ReleaseVram));
    assert_eq!(TrayCommand::from_menu_id("tray-quit"), Some(TrayCommand::Quit));
    assert_eq!(TrayCommand::from_menu_id("tray-unknown"), None);
}

#[test]
fn tray_action_labels_are_stable_frontend_values() {
    assert_eq!(TrayCommand::Show.label(), "show");
    assert_eq!(TrayCommand::StartStack.label(), "startStack");
    assert_eq!(TrayCommand::StopManagedStack.label(), "stopManagedStack");
    assert_eq!(TrayCommand::ReleaseVram.label(), "releaseVram");
    assert_eq!(TrayCommand::Quit.label(), "quit");
}

#[test]
fn every_menu_id_maps_back_to_its_command() {
    for command in [
        TrayCommand::Show,
        TrayCommand::StartStack,
        TrayCommand::StopManagedStack,
        TrayCommand::ReleaseVram,
        TrayCommand::Quit,
    ] {
        assert_eq!(TrayCommand::from_menu_id(command.menu_id()), Some(command));
    }
}

#[test]
fn busy_tray_reports_which_gate_is_held() {
    let tray = busy_feedback(TrayCommand::StartStack, true);
    assert_eq!(tray.action, "startStack");
    assert!(!tray.ok);
    assert_eq!(tray.message, "Another tray action is already running");
    let control = busy_feedback(TrayCommand::ReleaseVram, false);
    assert_eq!(control.message, "Another control action is already running");
}

#[test]
fn quit_exits_only_after_success_and_failures_show_the_window() {
    let (feedback, follow) = action_feedback(TrayCommand::Quit, true, "stopped".to_string());
    assert_eq!(follow, TrayFollowUp::Exit);
    assert_eq!(feedback.message, "stopped");
    let (_, follow) = action_feedback(TrayCommand::Quit, false, "busy".to_string());
    assert_eq!(follow, TrayFollowUp::ShowWindow);
    let (feedback, follow) = action_feedback(TrayCommand::StartStack, true, "ok".to_string());
    assert_eq!(follow, TrayFollowUp::Nothing);
    assert!(feedback.ok);
    assert_eq!(tray_tooltip(true), "Local Agent Stack — Ready");
    assert_eq!(tray_tooltip(false), "Local Agent Stack — Action failed");
}

#[test]
fn harness_window_stays_on_its_origin() {
    let host = Some("127.0.0.1".to_string());
    assert!(navigation_allowed("http", &host, Some(3000), "http", &host, Some(3000)));
    assert!(!navigation_allowed("http", &host, Some(3001), "http", &host, Some(3000)));
    let other = Some("example.com".to_string());
    assert!(!navigation_allowed("https", &other, Some(443), "http", &host, Some(3000)));
}
