//! The application menu opened from the toolbar: which page it shows, whether
//! it is open, and which action a click chose.

use vstd::prelude::*;

verus! {

/// An action chosen in the application menu.
#[derive(Clone, Copy, Debug, PartialEq, Eq, Structural)]
pub enum AppMenuAction {
    NewTab,
    NewWindow,
    History,
    Processes,
}

/// Which page of the menu is showing. Nested pages replace the menu body in
/// place; the popup stays open.
#[derive(Clone, Copy, Debug, PartialEq, Eq, Structural)]
pub enum AppMenuPage {
    Root,
    MoreTools,
}

/// What was clicked while a page of the menu was drawn.
#[derive(Clone, Copy, Debug, PartialEq, Eq, Structural)]
pub enum MenuClick {
    /// No item.
    Nothing,
    /// An item that chooses an action.
    Action(AppMenuAction),
    /// The row that opens the "More tools" page.
    MoreTools,
    /// The back arrow of a nested page.
    Back,
}

/// The open/closed state and page of the application menu.
pub struct AppMenuState {
    pub open: bool,
    pub page: AppMenuPage,
}

impl AppMenuState {
    /// A closed menu on its root page.
    pub fn new() -> (m: AppMenuState)
        ensures
            !m.open,
            m.page == AppMenuPage::Root,
    {
        AppMenuState { open: false, page: AppMenuPage::Root }
    }

    pub fn is_open(&self) -> (r: bool)
        ensures
            r == self.open,
    {
        self.open
    }

    /// Closes the menu; the next time it opens it shows the root page.
    pub fn close(&mut self)
        ensures
            !final(self).open,
            final(self).page == AppMenuPage::Root,
    {
        self.open = false;
        self.page = AppMenuPage::Root;
    }

    /// Whether the menu body keeps the height the root page had: nested pages do.
    pub fn keeps_root_height(&self) -> (r: bool)
        ensures
            r == (self.page == AppMenuPage::MoreTools),
    {
        match self.page {
            AppMenuPage::Root => false,
            AppMenuPage::MoreTools => true,
        }
    }

    /// The click seen while drawing the current page: an action is chosen,
    /// "More tools" opens that page, the back arrow returns to the root page.
    pub fn click(&mut self, click: MenuClick) -> (action: Option<AppMenuAction>)
        ensures
            final(self).open == old(self).open,
            match click {
                MenuClick::Action(a) => action == Some(a) && final(self).page == old(self).page,
                MenuClick::MoreTools => action is None && final(self).page == AppMenuPage::MoreTools,
                MenuClick::Back => action is None && final(self).page == AppMenuPage::Root,
                MenuClick::Nothing => action is None && final(self).page == old(self).page,
            },
    {
        match click {
            MenuClick::Action(a) => Some(a),
            MenuClick::MoreTools => {
                self.page = AppMenuPage::MoreTools;
                None
            },
            MenuClick::Back => {
                self.page = AppMenuPage::Root;
                None
            },
            MenuClick::Nothing => None,
        }
    }

    /// After the popup was drawn: while it is shown the menu is open and the
    /// chosen action is reported; once it is gone the menu is closed.
    pub fn popup_drawn(&mut self, shown: bool, action: Option<AppMenuAction>) -> (r: Option<AppMenuAction>)
        ensures
            shown ==> final(self).open && final(self).page == old(self).page && r == action,
            !shown ==> !final(self).open && final(self).page == AppMenuPage::Root && r is None,
    {
        if shown {
            self.open = true;
            action
        } else {
            self.close();
            None
        }
    }
}

} // verus!
