//! Bringing the window to the front and hiding it, on request of another process or a hotkey.
//!
//! Native windows are named by their handles. A popup, such as a dialog, stands in front of the main
//! window; it is hidden and shown together with it.

use vstd::prelude::*;

verus! {

/// What another process or the hotkey asks for.
pub enum IpcCommand {
    Activate,
    ToggleVisibility,
    OpenFile(String),
}

/// What a command leads to.
pub enum IpcPlan {
    /// Warn that nothing can be done while the web view is open.
    WarnWebView,
    /// Bring the window to the front.
    Activate,
    /// Hide the window, or bring it to the front.
    ToggleVisibility,
    /// Bring the window to the front, open this document, and give it the focus.
    ActivateAndOpen(String),
}

/// What a command leads to: nothing but a warning while the web view is open.
pub fn plan_ipc_command(command: IpcCommand, web_view_open: bool) -> (r: IpcPlan)
    ensures
        r == (if web_view_open {
            IpcPlan::WarnWebView
        } else {
            match command {
                IpcCommand::Activate => IpcPlan::Activate,
                IpcCommand::ToggleVisibility => IpcPlan::ToggleVisibility,
                IpcCommand::OpenFile(path) => IpcPlan::ActivateAndOpen(path),
            }
        }),
{
    if web_view_open {
        return IpcPlan::WarnWebView;
    }
    match command {
        IpcCommand::Activate => IpcPlan::Activate,
        IpcCommand::ToggleVisibility => IpcPlan::ToggleVisibility,
        IpcCommand::OpenFile(path) => IpcPlan::ActivateAndOpen(path),
    }
}

/// Whether the main window or its popup is in the foreground. Without a handle, the focus decides.
pub fn is_window_active(
    frame: Option<isize>,
    has_focus: bool,
    foreground: isize,
    last_popup: isize,
) -> (r: bool)
    ensures
        r == (match frame {
            Some(handle) => foreground == handle || foreground == last_popup,
            None => has_focus,
        }),
{
    match frame {
        Some(handle) => foreground == handle || foreground == last_popup,
        None => has_focus,
    }
}

/// What toggling the visibility does.
#[derive(Debug, Clone, Copy, PartialEq, Eq, Structural)]
pub enum Toggle {
    /// Bring the window to the front.
    Activate,
    /// Hide this popup and the window.
    HideWithPopup(isize),
    /// Minimize the window.
    Iconize,
}

/// How the popup in front of the window is brought back.
pub struct PopupActivation {
    /// Show this popup.
    pub show: Option<isize>,
    /// Put this window in the foreground.
    pub foreground: Option<isize>,
    /// A popup has the focus; the document does not get it.
    pub has_popup: bool,
}

/// The popup that was hidden together with the window; 0 if there is none.
pub struct HiddenPopup {
    pub handle: isize,
}

impl HiddenPopup {
    /// What toggling the visibility does.
    pub open spec fn toggled(
        shown: bool,
        active: bool,
        frame: Option<isize>,
        last_popup: isize,
    ) -> Toggle {
        if !(shown && active) {
            Toggle::Activate
        } else {
            match frame {
                Some(handle) if last_popup != handle => Toggle::HideWithPopup(last_popup),
                _ => Toggle::Iconize,
            }
        }
    }

    /// Toggles the visibility: a window that is shown and active is hidden, with its popup if it has
    /// one, and any other is brought to the front.
    pub fn toggle(
        &mut self,
        shown: bool,
        active: bool,
        frame: Option<isize>,
        last_popup: isize,
    ) -> (r: Toggle)
        ensures
            r == HiddenPopup::toggled(shown, active, frame, last_popup),
            final(self).handle == (match r {
                Toggle::HideWithPopup(popup) => popup,
                _ => old(self).handle,
            }),
    {
        if !(shown && active) {
            return Toggle::Activate;
        }
        if let Some(handle) = frame {
            if last_popup != handle {
                self.handle = last_popup;
                return Toggle::HideWithPopup(last_popup);
            }
        }
        Toggle::Iconize
    }

    /// How a popup is brought back: the one that was hidden, or else the one that was active last.
    pub open spec fn shown(
        hidden: isize,
        frame: Option<isize>,
        last_popup: isize,
    ) -> PopupActivation {
        match frame {
            None => PopupActivation { show: None, foreground: None, has_popup: false },
            Some(handle) => if hidden != 0 {
                PopupActivation { show: Some(hidden), foreground: Some(hidden), has_popup: true }
            } else {
                PopupActivation {
                    show: None,
                    foreground: Some(last_popup),
                    has_popup: last_popup != handle,
                }
            },
        }
    }

    /// The popup that is still hidden after an activation.
    pub open spec fn kept(hidden: isize, frame: Option<isize>) -> isize {
        match frame {
            None => hidden,
            Some(_) => 0,
        }
    }

    /// Brings the popup back that was hidden, or else the one that was active last.
    pub fn activate(&mut self, frame: Option<isize>, last_popup: isize) -> (r: PopupActivation)
        ensures
            r == HiddenPopup::shown(old(self).handle, frame, last_popup),
            final(self).handle == HiddenPopup::kept(old(self).handle, frame),
    {
        match frame {
            None => PopupActivation { show: None, foreground: None, has_popup: false },
            Some(handle) => {
                let hidden = self.handle;
                self.handle = 0;
                if hidden != 0 {
                    PopupActivation {
                        show: Some(hidden),
                        foreground: Some(hidden),
                        has_popup: true,
                    }
                } else {
                    PopupActivation {
                        show: None,
                        foreground: Some(last_popup),
                        has_popup: last_popup != handle,
                    }
                }
            },
        }
    }
}

/// A popup that was hidden with the window is shown by the next activation, and not by the one after
/// that.
pub proof fn law_hidden_popup_comes_back(
    frame: isize,
    popup: isize,
    first_popup: isize,
    second_popup: isize,
)
    requires
        popup != frame,
        popup != 0,
    ensures
        HiddenPopup::toggled(true, true, Some(frame), popup) == Toggle::HideWithPopup(popup),
        HiddenPopup::shown(popup, Some(frame), first_popup).show == Some(popup),
        HiddenPopup::shown(
            HiddenPopup::kept(popup, Some(frame)),
            Some(frame),
            second_popup,
        ).show is None,
{
}

/// While the web view is open, a command leads to a warning and nothing else; otherwise it leads to what
/// it asks for, and a document that is asked for is the one that is opened.
pub proof fn law_commands_are_carried_out(
    command: IpcCommand,
    web_view_open: bool,
    r: IpcPlan,
)
    requires
        call_ensures(plan_ipc_command, (command, web_view_open), r),
    ensures
        web_view_open ==> r is WarnWebView,
        !web_view_open && command is Activate ==> r is Activate,
        !web_view_open && command is ToggleVisibility ==> r is ToggleVisibility,
        !web_view_open ==> (command matches IpcCommand::OpenFile(path) ==> r
            == IpcPlan::ActivateAndOpen(path)),
{
}

/// The window counts as active if it or its popup is in the foreground; without a handle, if it has the
/// focus.
pub proof fn law_window_is_active(
    handle: isize,
    has_focus: bool,
    foreground: isize,
    last_popup: isize,
    with_handle: bool,
    without_handle: bool,
)
    requires
        call_ensures(is_window_active, (Some(handle), has_focus, foreground, last_popup), with_handle),
        call_ensures(is_window_active, (None, has_focus, foreground, last_popup), without_handle),
    ensures
        with_handle <==> foreground == handle || foreground == last_popup,
        without_handle <==> has_focus,
{
}

/// A window that is shown and active is hidden: with its popup, which is remembered, if it has one, and
/// otherwise by minimizing it. Any other window is brought to the front.
pub proof fn law_visibility_is_toggled(
    hidden: &mut HiddenPopup,
    shown: bool,
    active: bool,
    frame: Option<isize>,
    last_popup: isize,
    r: Toggle,
)
    requires
        call_ensures(HiddenPopup::toggle, (hidden, shown, active, frame, last_popup), r),
    ensures
        !shown || !active ==> r == Toggle::Activate && *final(hidden) == *old(hidden),
        shown && active && frame is None ==> r == Toggle::Iconize && *final(hidden) == *old(hidden),
        shown && active ==> (frame matches Some(handle) ==> {
            &&& last_popup == handle ==> r == Toggle::Iconize && *final(hidden) == *old(hidden)
            &&& last_popup != handle ==> r == Toggle::HideWithPopup(last_popup) && final(
                hidden).handle == last_popup
        }),
{
}

/// Bringing the window to the front shows the popup that was hidden with it and puts that in the
/// foreground, once; without one, the popup that was active last, or the window itself, comes to the
/// foreground. The document gets the focus exactly if no popup has it.
pub proof fn law_window_is_brought_to_the_front(
    hidden: &mut HiddenPopup,
    frame: Option<isize>,
    last_popup: isize,
    r: PopupActivation,
)
    requires
        call_ensures(HiddenPopup::activate, (hidden, frame, last_popup), r),
    ensures
        frame is None ==> r.show is None && r.foreground is None && !r.has_popup && *final(hidden)
            == *old(hidden),
        frame matches Some(handle) ==> {
            &&& final(hidden).handle == 0
            &&& old(hidden).handle != 0 ==> r.show == Some(old(hidden).handle) && r.foreground
                == Some(old(hidden).handle) && r.has_popup
            &&& old(hidden).handle == 0 ==> r.show is None && r.foreground == Some(last_popup)
                && r.has_popup == (last_popup != handle)
        },
{
}

} // verus!
