//! The states of the capture tool and how events move it between them.
//!
//! The tool lives in the system tray. From the tray menu the user starts a region capture,
//! a scrolling capture, or the settings window. A region capture ends in the annotation
//! editor; a scrolling capture collects frames (scrolling down or right between them) and
//! is stitched into one image, which also opens in the editor.
use vstd::prelude::*;

verus! {

#[derive(PartialEq, Eq, Structural, Clone, Copy, Debug)]
pub enum AppState {
    /// Only the tray icon is visible.
    Hidden,
    /// The overlay is shown and the user drags out a region to capture.
    SelectingRegion,
    /// The overlay is shown and the user drags out the region of a scrolling capture.
    SelectingScrollRegion,
    /// Frames of a scrolling capture are being collected.
    CapturingScroll,
    /// The settings window is open.
    EditingSettings,
    /// The annotation editor shows a captured image.
    EditingCapture,
}

#[derive(PartialEq, Eq, Structural, Clone, Copy, Debug)]
pub enum MenuCommand {
    CaptureRegion,
    CaptureScrolling,
    Settings,
    Quit,
}

#[derive(PartialEq, Eq, Structural, Clone, Copy, Debug)]
pub enum Event {
    /// A captured or stitched image arrived for editing.
    ImageReady,
    /// A tray menu entry was chosen.
    Menu(MenuCommand),
    /// "Save Settings" was pressed.
    SettingsSaved,
    /// "Cancel" was pressed in the settings window.
    SettingsCancelled,
    /// The scroll-down button of a scrolling capture was pressed.
    ScrollDown,
    /// The scroll-right button of a scrolling capture was pressed.
    ScrollRight,
    /// The finish button of a scrolling capture was pressed; `has_frames` tells whether
    /// any frame was collected.
    ScrollFinished { has_frames: bool },
    /// The cancel button of a scrolling capture was pressed.
    ScrollCancelled,
    /// The user released the mouse after dragging out a selection of this size.
    SelectionFinished { width: u32, height: u32 },
    /// Escape was pressed.
    Escape,
    /// The editor was left with "Discard", "Copy" or "Save".
    EditorClosed,
}

#[derive(PartialEq, Eq, Structural, Clone, Copy, Debug)]
pub enum Action {
    /// Nothing to do.
    Nothing,
    /// The event is not handled in this state; deliver it again later.
    Postpone,
    /// Remove the tray icon and close the application.
    Close,
    /// Show the selection overlay over the whole desktop.
    ShowOverlay,
    /// Show the settings window.
    ShowSettings,
    /// Show the annotation editor.
    ShowEditor,
    /// Hide the window.
    Hide,
    /// Store the settings, then hide the window.
    SaveSettingsAndHide,
    /// Reload the stored settings, then hide the window.
    RevertSettingsAndHide,
    /// Scroll the captured region in the given direction and capture one more frame.
    CaptureScrollFrame { horizontal: bool },
    /// Hand the collected frames to the stitcher (horizontal or vertical), then hide.
    StitchAndHide { horizontal: bool },
    /// Drop the collected frames, then hide.
    DiscardFramesAndHide,
    /// Hide, then capture the selected region and open it in the editor.
    CaptureRegion,
    /// Remember the selected region, drop any old frames, hide, capture the first frame.
    StartScrollCapture,
}

/// The state of the tool and the direction of the current scrolling capture.
#[derive(PartialEq, Eq, Structural, Clone, Copy, Debug)]
pub struct Session {
    pub state: AppState,
    pub scroll_horizontal: bool,
}

pub open spec fn is_selecting(s: AppState) -> bool {
    s == AppState::SelectingRegion || s == AppState::SelectingScrollRegion
}

/// The next session and the action to perform when `event` arrives in `s`.
pub open spec fn transition(s: Session, event: Event) -> (Session, Action) {
    let hidden = Session { state: AppState::Hidden, ..s };
    match event {
        Event::ImageReady => (Session { state: AppState::EditingCapture, ..s }, Action::ShowEditor),
        Event::Menu(cmd) => if s.state == AppState::EditingCapture {
            (s, Action::Postpone)
        } else {
            match cmd {
                MenuCommand::Quit => (s, Action::Close),
                MenuCommand::CaptureRegion => (
                    Session { state: AppState::SelectingRegion, ..s },
                    Action::ShowOverlay,
                ),
                MenuCommand::CaptureScrolling => (
                    Session { state: AppState::SelectingScrollRegion, ..s },
                    Action::ShowOverlay,
                ),
                MenuCommand::Settings => (
                    Session { state: AppState::EditingSettings, ..s },
                    Action::ShowSettings,
                ),
            }
        },
        Event::SettingsSaved => if s.state == AppState::EditingSettings {
            (hidden, Action::SaveSettingsAndHide)
        } else {
            (s, Action::Nothing)
        },
        Event::SettingsCancelled => if s.state == AppState::EditingSettings {
            (hidden, Action::RevertSettingsAndHide)
        } else {
            (s, Action::Nothing)
        },
        Event::ScrollDown => if s.state == AppState::CapturingScroll {
            (Session { scroll_horizontal: false, ..s }, Action::CaptureScrollFrame { horizontal: false })
        } else {
            (s, Action::Nothing)
        },
        Event::ScrollRight => if s.state == AppState::CapturingScroll {
            (Session { scroll_horizontal: true, ..s }, Action::CaptureScrollFrame { horizontal: true })
        } else {
            (s, Action::Nothing)
        },
        Event::ScrollFinished { has_frames } => if s.state == AppState::CapturingScroll {
            if has_frames {
                (hidden, Action::StitchAndHide { horizontal: s.scroll_horizontal })
            } else {
                (hidden, Action::Hide)
            }
        } else {
            (s, Action::Nothing)
        },
        Event::ScrollCancelled => if s.state == AppState::CapturingScroll {
            (hidden, Action::DiscardFramesAndHide)
        } else {
            (s, Action::Nothing)
        },
        Event::SelectionFinished { width, height } => if !is_selecting(s.state) {
            (s, Action::Nothing)
        } else if width == 0 || height == 0 {
            (hidden, Action::Hide)
        } else if s.state == AppState::SelectingRegion {
            (hidden, Action::CaptureRegion)
        } else {
            (Session { state: AppState::CapturingScroll, ..s }, Action::StartScrollCapture)
        },
        Event::Escape => if is_selecting(s.state) || s.state == AppState::EditingCapture {
            (hidden, Action::Hide)
        } else {
            (s, Action::Nothing)
        },
        Event::EditorClosed => if s.state == AppState::EditingCapture {
            (hidden, Action::Hide)
        } else {
            (s, Action::Nothing)
        },
    }
}

impl Session {
    /// The tool at start-up: hidden in the tray, scrolling downwards.
    pub fn new() -> (r: Session)
        ensures
            r.state == AppState::Hidden,
            !r.scroll_horizontal,
    {
        Session { state: AppState::Hidden, scroll_horizontal: false }
    }

    /// Whether tray menu events are taken in the current state (they wait while the
    /// editor is open).
    pub fn accepts_menu(&self) -> (r: bool)
        ensures
            r == (self.state != AppState::EditingCapture),
    {
        self.state != AppState::EditingCapture
    }

    /// Applies `event` and returns the action to perform.
    pub fn handle(&mut self, event: Event) -> (a: Action)
        ensures
            (*final(self), a) == transition(*old(self), event),
    {
        let s = *self;
        let hidden = Session { state: AppState::Hidden, scroll_horizontal: s.scroll_horizontal };
        let selecting = s.state == AppState::SelectingRegion || s.state
            == AppState::SelectingScrollRegion;
        let (next, action) = match event {
            Event::ImageReady => (
                Session { state: AppState::EditingCapture, scroll_horizontal: s.scroll_horizontal },
                Action::ShowEditor,
            ),
            Event::Menu(cmd) => if s.state == AppState::EditingCapture {
                (s, Action::Postpone)
            } else {
                match cmd {
                    MenuCommand::Quit => (s, Action::Close),
                    MenuCommand::CaptureRegion => (
                        Session {
                            state: AppState::SelectingRegion,
                            scroll_horizontal: s.scroll_horizontal,
                        },
                        Action::ShowOverlay,
                    ),
                    MenuCommand::CaptureScrolling => (
                        Session {
                            state: AppState::SelectingScrollRegion,
                            scroll_horizontal: s.scroll_horizontal,
                        },
                        Action::ShowOverlay,
                    ),
                    MenuCommand::Settings => (
                        Session {
                            state: AppState::EditingSettings,
                            scroll_horizontal: s.scroll_horizontal,
                        },
                        Action::ShowSettings,
                    ),
                }
            },
            Event::SettingsSaved => if s.state == AppState::EditingSettings {
                (hidden, Action::SaveSettingsAndHide)
            } else {
                (s, Action::Nothing)
            },
            Event::SettingsCancelled => if s.state == AppState::EditingSettings {
                (hidden, Action::RevertSettingsAndHide)
            } else {
                (s, Action::Nothing)
            },
            Event::ScrollDown => if s.state == AppState::CapturingScroll {
                (
                    Session { state: s.state, scroll_horizontal: false },
                    Action::CaptureScrollFrame { horizontal: false },
                )
            } else {
                (s, Action::Nothing)
            },
            Event::ScrollRight => if s.state == AppState::CapturingScroll {
                (
                    Session { state: s.state, scroll_horizontal: true },
                    Action::CaptureScrollFrame { horizontal: true },
                )
            } else {
                (s, Action::Nothing)
            },
            Event::ScrollFinished { has_frames } => if s.state == AppState::CapturingScroll {
                if has_frames {
                    (hidden, Action::StitchAndHide { horizontal: s.scroll_horizontal })
                } else {
                    (hidden, Action::Hide)
                }
            } else {
                (s, Action::Nothing)
            },
            Event::ScrollCancelled => if s.state == AppState::CapturingScroll {
                (hidden, Action::DiscardFramesAndHide)
            } else {
                (s, Action::Nothing)
            },
            Event::SelectionFinished { width, height } => if !selecting {
                (s, Action::Nothing)
            } else if width == 0 || height == 0 {
                (hidden, Action::Hide)
            } else if s.state == AppState::SelectingRegion {
                (hidden, Action::CaptureRegion)
            } else {
                (
                    Session { state: AppState::CapturingScroll, scroll_horizontal: s.scroll_horizontal },
                    Action::StartScrollCapture,
                )
            },
            Event::Escape => if selecting || s.state == AppState::EditingCapture {
                (hidden, Action::Hide)
            } else {
                (s, Action::Nothing)
            },
            Event::EditorClosed => if s.state == AppState::EditingCapture {
                (hidden, Action::Hide)
            } else {
                (s, Action::Nothing)
            },
        };
        *self = next;
        action
    }
}

/// Quitting from the tray menu closes the tool and changes nothing else.
pub proof fn lemma_quit_keeps_state(s: Session)
    requires
        s.state != AppState::EditingCapture,
    ensures
        transition(s, Event::Menu(MenuCommand::Quit)) == (s, Action::Close),
{
}

/// Escape leaves the selection overlay and the editor for the tray.
pub proof fn lemma_escape_hides(s: Session)
    requires
        is_selecting(s.state) || s.state == AppState::EditingCapture,
    ensures
        transition(s, Event::Escape).0.state == AppState::Hidden,
        transition(s, Event::Escape).1 == Action::Hide,
{
}

/// Every way out of a scrolling capture, the settings window and the editor leads back
/// to the tray.
pub proof fn lemma_leaving_returns_to_tray(s: Session, event: Event)
    requires
        (s.state == AppState::CapturingScroll && (event is ScrollFinished || event
            is ScrollCancelled)) || (s.state == AppState::EditingSettings && (event is SettingsSaved
            || event is SettingsCancelled)) || (s.state == AppState::EditingCapture && (event
            is EditorClosed || event is Escape)),
    ensures
        transition(s, event).0.state == AppState::Hidden,
{
}

/// A selection without area captures nothing.
pub proof fn lemma_empty_selection_captures_nothing(s: Session, width: u32, height: u32)
    requires
        is_selecting(s.state),
        width == 0 || height == 0,
    ensures
        transition(s, Event::SelectionFinished { width, height }) == (
            Session { state: AppState::Hidden, ..s },
            Action::Hide,
        ),
{
}

/// The frames of a scrolling capture are stitched in the direction of the last scroll
/// button pressed: after scrolling down (`horizontal == false`) or right
/// (`horizontal == true`), finishing stitches in that direction.
pub proof fn lemma_stitch_follows_last_scroll(s: Session, horizontal: bool)
    requires
        s.state == AppState::CapturingScroll,
    ensures
        ({
            let scroll = if horizontal {
                Event::ScrollRight
            } else {
                Event::ScrollDown
            };
            let (s1, a1) = transition(s, scroll);
            let (s2, a2) = transition(s1, Event::ScrollFinished { has_frames: true });
            a1 == Action::CaptureScrollFrame { horizontal } && a2 == Action::StitchAndHide {
                horizontal,
            } && s2.state == AppState::Hidden
        }),
{
}

/// Each tray menu entry opens its own mode: "Capture Region" and "Capture Scrolling
/// Region" show the selection overlay for a region or a scrolling capture, "Settings"
/// shows the settings window. While the editor is open, menu entries wait.
pub proof fn lemma_menu_opens_its_mode(s: Session, cmd: MenuCommand)
    ensures
        s.state == AppState::EditingCapture ==> transition(s, Event::Menu(cmd)) == (s, Action::Postpone),
        s.state != AppState::EditingCapture ==> {
            let (s2, a) = transition(s, Event::Menu(cmd));
            &&& s2.scroll_horizontal == s.scroll_horizontal
            &&& cmd == MenuCommand::CaptureRegion ==> s2.state == AppState::SelectingRegion && a
                == Action::ShowOverlay
            &&& cmd == MenuCommand::CaptureScrolling ==> s2.state == AppState::SelectingScrollRegion
                && a == Action::ShowOverlay
            &&& cmd == MenuCommand::Settings ==> s2.state == AppState::EditingSettings && a
                == Action::ShowSettings
            &&& cmd == MenuCommand::Quit ==> s2 == s && a == Action::Close
        },
{
}

/// A selection with an area starts the capture that was chosen: a region capture hides the
/// overlay and captures the region; a scrolling capture remembers the region and starts
/// collecting frames.
pub proof fn lemma_selection_starts_the_chosen_capture(s: Session, width: u32, height: u32)
    requires
        width > 0,
        height > 0,
    ensures
        s.state == AppState::SelectingRegion ==> transition(
            s,
            Event::SelectionFinished { width, height },
        ) == (Session { state: AppState::Hidden, ..s }, Action::CaptureRegion),
        s.state == AppState::SelectingScrollRegion ==> transition(
            s,
            Event::SelectionFinished { width, height },
        ) == (Session { state: AppState::CapturingScroll, ..s }, Action::StartScrollCapture),
{
}

/// "Save Settings" stores the settings and "Cancel" reloads the stored ones; both close
/// the settings window. Cancelling a scrolling capture drops its frames.
pub proof fn lemma_buttons_do_what_they_say(s: Session)
    ensures
        s.state == AppState::EditingSettings ==> transition(s, Event::SettingsSaved) == (
            Session { state: AppState::Hidden, ..s },
            Action::SaveSettingsAndHide,
        ),
        s.state == AppState::EditingSettings ==> transition(s, Event::SettingsCancelled) == (
            Session { state: AppState::Hidden, ..s },
            Action::RevertSettingsAndHide,
        ),
        s.state == AppState::CapturingScroll ==> transition(s, Event::ScrollCancelled) == (
            Session { state: AppState::Hidden, ..s },
            Action::DiscardFramesAndHide,
        ),
        s.state == AppState::CapturingScroll ==> transition(
            s,
            Event::ScrollFinished { has_frames: false },
        ) == (Session { state: AppState::Hidden, ..s }, Action::Hide),
{
}

/// A new image always opens in the editor, whatever the tool was doing.
pub proof fn lemma_image_opens_editor(s: Session)
    ensures
        transition(s, Event::ImageReady).0.state == AppState::EditingCapture,
        transition(s, Event::ImageReady).1 == Action::ShowEditor,
{
}

} // verus!
