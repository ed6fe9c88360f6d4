//! The tray icon of a minimized window.

use crate::action::{started, Goal, Request, Task};
use crate::dbus_menu::item_goal;
use crate::hypr::WindowInfo;
use vstd::prelude::*;
use vstd::string::*;

verus! {

/// A tooltip: icon name, pixmaps, title and description.
pub type ToolTip = (String, Vec<(i32, i32, Vec<u8>)>, String, String);

/// What a left click on the icon is to do.
pub open spec fn left_click_goal() -> Goal {
    Goal::RestoreHere
}

/// What a middle click on the icon is to do.
pub open spec fn middle_click_goal() -> Goal {
    Goal::Close
}

/// The tray icon of a minimized window.
pub struct StatusNotifierItem {
    pub window_info: WindowInfo,
}

impl StatusNotifierItem {
    /// The category of the item.
    pub fn category(&self) -> (r: &str)
        ensures
            r@ == "ApplicationStatus"@,
    {
        "ApplicationStatus"
    }

    /// The id of the item: the icon of the window.
    pub fn id(&self) -> (r: &str)
        ensures
            r@ == self.window_info.icon@,
    {
        self.window_info.icon.as_str()
    }

    /// The title of the window.
    pub fn title(&self) -> (r: &str)
        ensures
            r@ == self.window_info.title@,
    {
        self.window_info.title.as_str()
    }

    /// The status of the item.
    pub fn status(&self) -> (r: &str)
        ensures
            r@ == "Active"@,
    {
        "Active"
    }

    /// The icon of the window.
    pub fn icon_name(&self) -> (r: &str)
        ensures
            r@ == self.window_info.icon@,
    {
        self.window_info.icon.as_str()
    }

    /// The tooltip: the title of the window, and nothing else.
    pub fn tool_tip(&self) -> (r: ToolTip)
        ensures
            r.0@.len() == 0,
            r.1@.len() == 0,
            r.2@ == self.window_info.title@,
            r.3@.len() == 0,
    {
        (String::new(), Vec::new(), self.window_info.title.clone(), String::new())
    }

    /// Whether a click opens the menu and does nothing else: it does not.
    pub fn item_is_menu(&self) -> (r: bool)
        ensures
            !r,
    {
        false
    }

    /// The object path of the menu.
    pub fn menu(&self) -> (r: &str)
        ensures
            r@ == "/Menu"@,
    {
        "/Menu"
    }

    /// Begins to act upon a left click, which brings the window back on the active workspace
    /// and focuses it.
    pub fn activate(&self, _x: i32, _y: i32) -> (r: (Task, Request))
        ensures
            r.0.address@ == self.window_info.address@,
            (r.0.stage, r.1@) == started(left_click_goal(), self.window_info.address@),
    {
        Task::start(&Goal::RestoreHere, self.window_info.address.as_str())
    }

    /// Begins to act upon a middle click, which closes the window.
    pub fn secondary_activate(&self, _x: i32, _y: i32) -> (r: (Task, Request))
        ensures
            r.0.address@ == self.window_info.address@,
            (r.0.stage, r.1@) == started(middle_click_goal(), self.window_info.address@),
    {
        Task::start(&Goal::Close, self.window_info.address.as_str())
    }
}

/// A left click does what the first item of the menu does, and a middle click what the
/// third does.
pub proof fn law_clicks_agree_with_menu(window: WindowInfo)
    ensures
        item_goal(window, 1) == Some(left_click_goal()),
        item_goal(window, 3) == Some(middle_click_goal()),
{
}

/// A left click restores the window where the user is, and a middle click closes it.
pub proof fn law_what_clicks_do()
    ensures
        left_click_goal() is RestoreHere,
        middle_click_goal() is Close,
{
}

} // verus!
