use vstd::prelude::*;

verus! {

/// The pages of the help window.
#[derive(Debug, Clone, Copy, PartialEq, Eq, Structural)]
pub enum HelpPage {
    General,
    Assembler,
}

impl Default for HelpPage {
    fn default() -> (p: Self)
        ensures
            p == HelpPage::General,
    {
        HelpPage::General
    }
}

impl HelpPage {
    /// The title of the help window on this page.
    pub fn title(&self) -> (t: &'static str)
        ensures
            t@ == match self {
                HelpPage::General => "General Help"@,
                HelpPage::Assembler => "Assembler Help"@,
            },
    {
        match self {
            HelpPage::General => "General Help",
            HelpPage::Assembler => "Assembler Help",
        }
    }
}

/// A window to open; the help window on a given page, or on the page it
/// last showed.
#[derive(Debug, Clone, Copy, PartialEq, Eq, Structural)]
pub enum WindowOpenId {
    Instructions,
    About,
    Help(Option<HelpPage>),
    MessageDetails,
}

/// Which of the emulator's windows are open, and the page that the help
/// window shows.
#[derive(Debug, Clone, Copy, PartialEq, Eq, Structural)]
pub struct AppWindows {
    pub instructions_open: bool,
    pub about_open: bool,
    pub help_open: bool,
    pub help_page: HelpPage,
    pub message_details_open: bool,
}

/// Every window closed, the help window on its general page.
pub open spec fn all_closed() -> AppWindows {
    AppWindows {
        instructions_open: false,
        about_open: false,
        help_open: false,
        help_page: HelpPage::General,
        message_details_open: false,
    }
}

/// The windows after opening `window`: only that one changes, and the help
/// window opened on a page turns to it.
pub open spec fn opened(w: AppWindows, window: WindowOpenId) -> AppWindows {
    match window {
        WindowOpenId::Instructions => AppWindows { instructions_open: true, ..w },
        WindowOpenId::About => AppWindows { about_open: true, ..w },
        WindowOpenId::Help(Some(page)) => AppWindows { help_open: true, help_page: page, ..w },
        WindowOpenId::Help(None) => AppWindows { help_open: true, ..w },
        WindowOpenId::MessageDetails => AppWindows { message_details_open: true, ..w },
    }
}

/// The help page after a click: the assembler's link wins over the general
/// one; with neither clicked the page stays.
pub open spec fn linked_page(page: HelpPage, assembler_link: bool, general_link: bool) -> HelpPage {
    if assembler_link {
        HelpPage::Assembler
    } else if general_link {
        HelpPage::General
    } else {
        page
    }
}

impl AppWindows {
    /// Every window closed, the help window on its general page.
    pub fn new() -> (w: Self)
        ensures
            w == all_closed(),
    {
        AppWindows {
            instructions_open: false,
            about_open: false,
            help_open: false,
            help_page: HelpPage::General,
            message_details_open: false,
        }
    }

    /// Opens a window; the others stay as they are. Opening the help window
    /// on a page turns it to that page.
    pub fn open(&mut self, window: WindowOpenId)
        ensures
            *final(self) == opened(*old(self), window),
    {
        match window {
            WindowOpenId::Instructions => self.instructions_open = true,
            WindowOpenId::About => self.about_open = true,
            WindowOpenId::Help(Some(page)) => {
                self.help_open = true;
                self.help_page = page;
            },
            WindowOpenId::Help(None) => {
                self.help_open = true;
            },
            WindowOpenId::MessageDetails => self.message_details_open = true,
        }
    }

    /// Follows a link clicked in the help text: the link to the assembler's
    /// page turns to it, else the link to the general page turns to that.
    pub fn follow_help_links(&mut self, assembler_link: bool, general_link: bool)
        ensures
            final(self).help_page == linked_page(old(self).help_page, assembler_link, general_link),
            final(self).instructions_open == old(self).instructions_open,
            final(self).about_open == old(self).about_open,
            final(self).help_open == old(self).help_open,
            final(self).message_details_open == old(self).message_details_open,
    {
        if assembler_link {
            self.help_page = HelpPage::Assembler;
        } else if general_link {
            self.help_page = HelpPage::General;
        }
    }

    /// The message details window closes when there are no details to show.
    pub fn update_message_details(&mut self, has_details: bool)
        ensures
            final(self).message_details_open == (old(self).message_details_open && has_details),
            final(self).instructions_open == old(self).instructions_open,
            final(self).about_open == old(self).about_open,
            final(self).help_open == old(self).help_open,
            final(self).help_page == old(self).help_page,
    {
        if !has_details {
            self.message_details_open = false;
        }
    }
}

impl Default for AppWindows {
    fn default() -> (w: Self)
        ensures
            w == all_closed(),
    {
        AppWindows::new()
    }
}

} // verus!
