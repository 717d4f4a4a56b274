//! The tray menu of the desktop shell: its commands and their outcomes.
use vstd::prelude::*;

use crate::text::{concat_strs, opt_view, str_eq};

verus! {

#[derive(Debug, Clone, Copy, PartialEq, Eq, Structural)]
pub enum TrayCommand {
    Show,
    StartStack,
    StopManagedStack,
    ReleaseVram,
    Quit,
}

pub open spec fn spec_menu_id(c: TrayCommand) -> Seq<char> {
    match c {
        TrayCommand::Show => "tray-show"@,
        TrayCommand::StartStack => "tray-start-stack"@,
        TrayCommand::StopManagedStack => "tray-stop-stack"@,
        TrayCommand::ReleaseVram => "tray-release-vram"@,
        TrayCommand::Quit => "tray-quit"@,
    }
}

pub open spec fn spec_label(c: TrayCommand) -> Seq<char> {
    match c {
        TrayCommand::Show => "show"@,
        TrayCommand::StartStack => "startStack"@,
        TrayCommand::StopManagedStack => "stopManagedStack"@,
        TrayCommand::ReleaseVram => "releaseVram"@,
        TrayCommand::Quit => "quit"@,
    }
}

pub open spec fn spec_from_menu_id(id: Seq<char>) -> Option<TrayCommand> {
    if id == "tray-show"@ {
        Some(TrayCommand::Show)
    } else if id == "tray-start-stack"@ {
        Some(TrayCommand::StartStack)
    } else if id == "tray-stop-stack"@ {
        Some(TrayCommand::StopManagedStack)
    } else if id == "tray-release-vram"@ {
        Some(TrayCommand::ReleaseVram)
    } else if id == "tray-quit"@ {
        Some(TrayCommand::Quit)
    } else {
        None
    }
}

impl TrayCommand {
    pub fn from_menu_id(id: &str) -> (r: Option<TrayCommand>)
        ensures
            r == spec_from_menu_id(id@),
    {
        if str_eq(id, "tray-show") {
            Some(TrayCommand::Show)
        } else if str_eq(id, "tray-start-stack") {
            Some(TrayCommand::StartStack)
        } else if str_eq(id, "tray-stop-stack") {
            Some(TrayCommand::StopManagedStack)
        } else if str_eq(id, "tray-release-vram") {
            Some(TrayCommand::ReleaseVram)
        } else if str_eq(id, "tray-quit") {
            Some(TrayCommand::Quit)
        } else {
            None
        }
    }

    pub fn menu_id(self) -> (r: &'static str)
        ensures
            r@ == spec_menu_id(self),
    {
        match self {
            TrayCommand::Show => "tray-show",
            TrayCommand::StartStack => "tray-start-stack",
            TrayCommand::StopManagedStack => "tray-stop-stack",
            TrayCommand::ReleaseVram => "tray-release-vram",
            TrayCommand::Quit => "tray-quit",
        }
    }

    pub fn label(self) -> (r: &'static str)
        ensures
            r@ == spec_label(self),
    {
        match self {
            TrayCommand::Show => "show",
            TrayCommand::StartStack => "startStack",
            TrayCommand::StopManagedStack => "stopManagedStack",
            TrayCommand::ReleaseVram => "releaseVram",
            TrayCommand::Quit => "quit",
        }
    }
}

/// Every menu entry maps back to its own command, and an identifier maps
/// to a command only when it is that command's identifier.
pub proof fn law_menu_ids_round_trip(c: TrayCommand, id: Seq<char>)
    ensures
        spec_from_menu_id(spec_menu_id(c)) == Some(c),
        spec_from_menu_id(id) == Some(c) ==> id == spec_menu_id(c),
{
    reveal_strlit("tray-show");
    reveal_strlit("tray-start-stack");
    reveal_strlit("tray-stop-stack");
    reveal_strlit("tray-release-vram");
    reveal_strlit("tray-quit");
    assert("tray-show"@.len() == 9);
    assert("tray-quit"@.len() == 9);
    assert("tray-start-stack"@.len() == 16);
    assert("tray-stop-stack"@.len() == 15);
    assert("tray-release-vram"@.len() == 17);
    assert("tray-show"@ != "tray-quit"@) by {
        assert("tray-show"@[5] != "tray-quit"@[5]);
    }
}

/// What the tray tells the interface after an action.
#[derive(Debug, Clone)]
pub struct TrayActionFeedback {
    pub action: String,
    pub ok: bool,
    pub message: String,
}

/// What the shell does after an action: quit the application, or show
/// the main window so that a failure is visible.
#[derive(Debug, Clone, Copy, PartialEq, Eq, Structural)]
pub enum TrayFollowUp {
    Exit,
    ShowWindow,
    Nothing,
}

/// Feedback when another action holds the tray or the control gate.
pub fn busy_feedback(command: TrayCommand, tray_busy: bool) -> (r: TrayActionFeedback)
    ensures
        r.action@ == spec_label(command),
        !r.ok,
        r.message@ == if tray_busy {
            "Another tray action is already running"@
        } else {
            "Another control action is already running"@
        },
{
    TrayActionFeedback {
        action: String::from_str(command.label()),
        ok: false,
        message: if tray_busy {
            String::from_str("Another tray action is already running")
        } else {
            String::from_str("Another control action is already running")
        },
    }
}

/// Feedback after an action ran: its result, or the error's text. Quit
/// exits only after the managed services stopped; a failure brings the
/// window forward.
pub fn action_feedback(command: TrayCommand, outcome_ok: bool, message: String) -> (r: (
    TrayActionFeedback,
    TrayFollowUp,
))
    ensures
        r.0.action@ == spec_label(command),
        r.0.ok == outcome_ok,
        r.0.message@ == message@,
        r.1 == if command == TrayCommand::Quit && outcome_ok {
            TrayFollowUp::Exit
        } else if !outcome_ok {
            TrayFollowUp::ShowWindow
        } else {
            TrayFollowUp::Nothing
        },
{
    let follow = if command == TrayCommand::Quit && outcome_ok {
        TrayFollowUp::Exit
    } else if !outcome_ok {
        TrayFollowUp::ShowWindow
    } else {
        TrayFollowUp::Nothing
    };
    (TrayActionFeedback { action: String::from_str(command.label()), ok: outcome_ok, message }, follow)
}

/// The tooltip after feedback.
pub fn tray_tooltip(ok: bool) -> (r: String)
    ensures
        r@ == "Local Agent Stack — "@ + if ok {
            "Ready"@
        } else {
            "Action failed"@
        },
{
    concat_strs("Local Agent Stack — ", if ok { "Ready" } else { "Action failed" })
}

/// The Harness window may only navigate to the origin of its launch URL.
pub open spec fn same_origin(
    scheme: Seq<char>,
    host: Option<Seq<char>>,
    port: Option<u16>,
    allowed_scheme: Seq<char>,
    allowed_host: Option<Seq<char>>,
    allowed_port: Option<u16>,
) -> bool {
    scheme == allowed_scheme && host == allowed_host && port == allowed_port
}

pub fn navigation_allowed(
    scheme: &str,
    host: &Option<String>,
    port: Option<u16>,
    allowed_scheme: &str,
    allowed_host: &Option<String>,
    allowed_port: Option<u16>,
) -> (r: bool)
    ensures
        r == same_origin(
            scheme@,
            opt_view(*host),
            port,
            allowed_scheme@,
            opt_view(*allowed_host),
            allowed_port,
        ),
{
    let hosts_equal = match (host, allowed_host) {
        (Some(a), Some(b)) => str_eq(a.as_str(), b.as_str()),
        (None, None) => true,
        _ => false,
    };
    let ports_equal = match (port, allowed_port) {
        (Some(a), Some(b)) => a == b,
        (None, None) => true,
        _ => false,
    };
    str_eq(scheme, allowed_scheme) && hosts_equal && ports_equal
}

} // verus!
