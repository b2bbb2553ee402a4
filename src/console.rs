use vstd::prelude::*;

verus! {

/// The tabs of the console view.
#[derive(Debug, Clone, Copy, PartialEq, Eq, Structural)]
pub enum SelectedConsole {
    Database,
    Business,
    UI,
}

/// Messages to the console view.
#[derive(Debug, Clone)]
pub enum ConsoleMessage {
    LogMessage(String),
    SwitchTab(SelectedConsole),
    ClearMessages(SelectedConsole),
}

/// What the console view asks its surroundings to do after a message: the business and
/// database logs are kept outside the view.
#[derive(Debug, Clone, Copy, PartialEq, Eq, Structural)]
pub enum ConsoleEffect {
    Nothing,
    ClearBusinessMessages,
    ClearDatabaseMessages,
}

/// State of the console view: its own log and the selected tab.
#[derive(Debug, Clone)]
pub struct ConsoleUI {
    pub messages: Vec<String>,
    pub selected_console: SelectedConsole,
}

impl ConsoleUI {
    pub fn new() -> (r: Self)
        ensures
            r.messages@.len() == 0,
            r.selected_console == SelectedConsole::UI,
    {
        ConsoleUI { messages: Vec::new(), selected_console: SelectedConsole::UI }
    }

    /// Handles one message: a log line is appended to the view's own log, a tab switch
    /// selects the tab, and clearing empties the view's own log or asks for the business
    /// or database log to be cleared.
    pub fn update(&mut self, message: ConsoleMessage) -> (r: ConsoleEffect)
        ensures
            match message {
                ConsoleMessage::LogMessage(m) => final(self).messages@ == old(self).messages@.push(m)
                    && final(self).selected_console == old(self).selected_console
                    && r == ConsoleEffect::Nothing,
                ConsoleMessage::SwitchTab(tab) => final(self).messages@ == old(self).messages@
                    && final(self).selected_console == tab && r == ConsoleEffect::Nothing,
                ConsoleMessage::ClearMessages(tab) => final(self).selected_console == old(
                    self,
                ).selected_console && match tab {
                    SelectedConsole::UI => final(self).messages@.len() == 0 && r
                        == ConsoleEffect::Nothing,
                    SelectedConsole::Business => final(self).messages@ == old(self).messages@ && r
                        == ConsoleEffect::ClearBusinessMessages,
                    SelectedConsole::Database => final(self).messages@ == old(self).messages@ && r
                        == ConsoleEffect::ClearDatabaseMessages,
                },
            },
    {
        match message {
            ConsoleMessage::LogMessage(m) => {
                self.messages.push(m);
                ConsoleEffect::Nothing
            },
            ConsoleMessage::ClearMessages(tab) => match tab {
                SelectedConsole::UI => {
                    self.messages = Vec::new();
                    ConsoleEffect::Nothing
                },
                SelectedConsole::Business => ConsoleEffect::ClearBusinessMessages,
                SelectedConsole::Database => ConsoleEffect::ClearDatabaseMessages,
            },
            ConsoleMessage::SwitchTab(tab) => {
                self.selected_console = tab;
                ConsoleEffect::Nothing
            },
        }
    }
}

} // verus!
