//! The tray icon and its menu: what they show for the VM state, and what a
//! menu entry does.

use vstd::prelude::*;

use crate::text::{push_arg, same_text, views};

verus! {

/// Which tray image is shown.
#[derive(Debug, Clone, Copy, PartialEq, Eq, Structural)]
pub enum TrayIcon {
    /// A filled circle: the runtime answers.
    Running,
    /// A ring: the runtime does not answer.
    Stopped,
}

/// What the tray shows.
#[derive(Debug, Clone, Copy, PartialEq, Eq, Structural)]
pub struct TrayState {
    pub icon: TrayIcon,
    /// The "Start VM" entry can be chosen.
    pub start_vm_enabled: bool,
    /// The "Stop VM" entry can be chosen.
    pub stop_vm_enabled: bool,
}

/// What the tray shows before the first poll: the running icon, with
/// "Start VM" enabled and "Stop VM" disabled until the poll corrects them.
pub fn initial_tray_state() -> (t: TrayState)
    ensures
        t == (TrayState { icon: TrayIcon::Running, start_vm_enabled: true, stop_vm_enabled: false }),
{
    TrayState { icon: TrayIcon::Running, start_vm_enabled: true, stop_vm_enabled: false }
}

/// What the tray shows after a poll: the icon of the state, with only the
/// applicable VM action enabled ("Stop VM" while running, "Start VM"
/// otherwise).
pub fn tray_state(running: bool) -> (t: TrayState)
    ensures
        running ==> t.icon == TrayIcon::Running,
        !running ==> t.icon == TrayIcon::Stopped,
        t.start_vm_enabled == !running,
        t.stop_vm_enabled == running,
        t.start_vm_enabled != t.stop_vm_enabled,
{
    TrayState {
        icon: if running {
            TrayIcon::Running
        } else {
            TrayIcon::Stopped
        },
        start_vm_enabled: !running,
        stop_vm_enabled: running,
    }
}

/// What a tray menu entry does.
#[derive(Debug, Clone, Copy, PartialEq, Eq, Structural)]
pub enum MenuAction {
    OpenDashboard,
    Quit,
    StartVm,
    StopVm,
    Ignore,
}

/// The action of the menu entry with id `id`: `open`, `quit`, `start-vm`,
/// `stop-vm`; any other id does nothing.
pub fn menu_action(id: &str) -> (a: MenuAction)
    ensures
        id@ == "open"@ ==> a == MenuAction::OpenDashboard,
        id@ == "quit"@ ==> a == MenuAction::Quit,
        id@ == "start-vm"@ ==> a == MenuAction::StartVm,
        id@ == "stop-vm"@ ==> a == MenuAction::StopVm,
        id@ != "open"@ && id@ != "quit"@ && id@ != "start-vm"@ && id@ != "stop-vm"@ ==> a
            == MenuAction::Ignore,
{
    proof {
        reveal_strlit("open");
        reveal_strlit("quit");
        reveal_strlit("start-vm");
        reveal_strlit("stop-vm");
        assert("quit"@[0] != "open"@[0]);
        assert("start-vm"@[2] != "stop-vm"@[2]);
        assert("start-vm"@.len() != "open"@.len());
        assert("stop-vm"@.len() != "quit"@.len());
    }
    if same_text(id, "open") {
        MenuAction::OpenDashboard
    } else if same_text(id, "quit") {
        MenuAction::Quit
    } else if same_text(id, "start-vm") {
        MenuAction::StartVm
    } else if same_text(id, "stop-vm") {
        MenuAction::StopVm
    } else {
        MenuAction::Ignore
    }
}

/// `pelagos vm start` or `pelagos vm stop`.
pub fn vm_command_args(start: bool) -> (r: Vec<String>)
    ensures
        views(r@) == if start {
            seq!["vm"@, "start"@]
        } else {
            seq!["vm"@, "stop"@]
        },
{
    let mut r = Vec::new();
    push_arg(&mut r, "vm");
    if start {
        push_arg(&mut r, "start");
    } else {
        push_arg(&mut r, "stop");
    }
    r
}

} // verus!
