use mosaic::session::{Action, AppState, Event, MenuCommand, Session};

#[test]
fn region_capture_round_trip() {
    let mut s = Session::new();
    assert_eq!(s.state, AppState::Hidden);
    assert_eq!(s.handle(Event::Menu(MenuCommand::CaptureRegion)), Action::ShowOverlay);
    assert_eq!(s.state, AppState::SelectingRegion);
    assert_eq!(s.handle(Event::SelectionFinished { width: 200, height: 100 }), Action::CaptureRegion);
    assert_eq!(s.state, AppState::Hidden);
    assert_eq!(s.handle(Event::ImageReady), Action::ShowEditor);
    assert_eq!(s.state, AppState::EditingCapture);
    assert!(!s.accepts_menu());
    assert_eq!(s.handle(Event::Menu(MenuCommand::Settings)), Action::Postpone);
    assert_eq!(s.handle(Event::EditorClosed), Action::Hide);
    assert_eq!(s.state, AppState::Hidden);
    assert!(s.accepts_menu());
}

#[test]
fn scrolling_capture_remembers_direction() {
    let mut s = Session::new();
    s.handle(Event::Menu(MenuCommand::CaptureScrolling));
    assert_eq!(s.state, AppState::SelectingScrollRegion);
    assert_eq!(s.handle(Event::SelectionFinished { width: 50, height: 60 }), Action::StartScrollCapture);
    assert_eq!(s.state, AppState::CapturingScroll);
    assert_eq!(s.handle(Event::ScrollRight), Action::CaptureScrollFrame { horizontal: true });
    assert_eq!(s.handle(Event::ScrollFinished { has_frames: true }), Action::StitchAndHide { horizontal: true });
    assert_eq!(s.state, AppState::Hidden);

    s.handle(Event::Menu(MenuCommand::CaptureScrolling));
    s.handle(Event::SelectionFinished { width: 50, height: 60 });
    assert_eq!(s.handle(Event::ScrollDown), Action::CaptureScrollFrame { horizontal: false });
    assert_eq!(s.handle(Event::ScrollFinished { has_frames: true }), Action::StitchAndHide { horizontal: false });
}

#[test]
fn finishing_without_frames_only_hides() {
    let mut s = Session { state: AppState::CapturingScroll, scroll_horizontal: true };
    assert_eq!(s.handle(Event::ScrollFinished { has_frames: false }), Action::Hide);
    assert_eq!(s.state, AppState::Hidden);
    let mut s = Session { state: AppState::CapturingScroll, scroll_horizontal: false };
    assert_eq!(s.handle(Event::ScrollCancelled), Action::DiscardFramesAndHide);
    assert_eq!(s.state, AppState::Hidden);
}

#[test]
fn empty_selection_hides() {
    let mut s = Session { state: AppState::SelectingRegion, scroll_horizontal: false };
    assert_eq!(s.handle(Event::SelectionFinished { width: 0, height: 30 }), Action::Hide);
    assert_eq!(s.state, AppState::Hidden);
    let mut s = Session { state: AppState::SelectingScrollRegion, scroll_horizontal: false };
    assert_eq!(s.handle(Event::SelectionFinished { width: 30, height: 0 }), Action::Hide);
    assert_eq!(s.state, AppState::Hidden);
}

#[test]
fn escape_and_settings() {
    let mut s = Session { state: AppState::SelectingScrollRegion, scroll_horizontal: false };
    assert_eq!(s.handle(Event::Escape), Action::Hide);
    assert_eq!(s.state, AppState::Hidden);
    assert_eq!(s.handle(Event::Escape), Action::Nothing);
    assert_eq!(s.handle(Event::Menu(MenuCommand::Settings)), Action::ShowSettings);
    assert_eq!(s.state, AppState::EditingSettings);
    assert_eq!(s.handle(Event::Escape), Action::Nothing);
    assert_eq!(s.handle(Event::SettingsSaved), Action::SaveSettingsAndHide);
    s.handle(Event::Menu(MenuCommand::Settings));
    assert_eq!(s.handle(Event::SettingsCancelled), Action::RevertSettingsAndHide);
    assert_eq!(s.state, AppState::Hidden);
}

#[test]
fn quit_keeps_state() {
    let mut s = Session { state: AppState::CapturingScroll, scroll_horizontal: true };
    assert_eq!(s.handle(Event::Menu(MenuCommand::Quit)), Action::Close);
    assert_eq!(s, Session { state: AppState::CapturingScroll, scroll_horizontal: true });
}
