use pelagos::tray::{initial_tray_state, menu_action, tray_state, vm_command_args, MenuAction, TrayIcon};

#[test]
fn tray_reflects_the_vm_state() {
    let up = tray_state(true);
    assert_eq!(up.icon, TrayIcon::Running);
    assert!(up.stop_vm_enabled);
    assert!(!up.start_vm_enabled);
    let down = tray_state(false);
    assert_eq!(down.icon, TrayIcon::Stopped);
    assert!(down.start_vm_enabled);
    assert!(!down.stop_vm_enabled);
    let first = initial_tray_state();
    assert!(first.start_vm_enabled && !first.stop_vm_enabled);
}

#[test]
fn menu_entries() {
    assert_eq!(menu_action("open"), MenuAction::OpenDashboard);
    assert_eq!(menu_action("quit"), MenuAction::Quit);
    assert_eq!(menu_action("start-vm"), MenuAction::StartVm);
    assert_eq!(menu_action("stop-vm"), MenuAction::StopVm);
    assert_eq!(menu_action("other"), MenuAction::Ignore);
    assert_eq!(vm_command_args(true), vec!["vm", "start"]);
    assert_eq!(vm_command_args(false), vec!["vm", "stop"]);
}
