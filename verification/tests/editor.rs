use mosaic::editor::{topmost_hit, AnnotationKind, DragTarget, Editor, EditorTool, ResizeHandle};

#[test]
fn steps_are_numbered_and_undone() {
    let mut e: Editor<&str> = Editor::new();
    e.choose_tool(EditorTool::Step);
    e.click(None, "a");
    e.click(None, "b");
    assert_eq!(e.annotations.len(), 2);
    assert_eq!(e.annotations[0].kind, AnnotationKind::Step { number: 1 });
    assert_eq!(e.annotations[1].kind, AnnotationKind::Step { number: 2 });
    assert_eq!(e.step_count, 3);
    e.undo();
    assert_eq!(e.annotations.len(), 1);
    assert_eq!(e.annotations[0].shape, "a");
    e.reset_steps();
    e.click(None, "c");
    assert_eq!(e.annotations[1].kind, AnnotationKind::Step { number: 1 });
}

#[test]
fn text_click_selects_or_adds() {
    let mut e: Editor<u32> = Editor::new();
    e.choose_tool(EditorTool::Text);
    e.click(None, 1);
    assert_eq!(e.annotations.len(), 1);
    assert_eq!(e.selected, Some(0));
    e.choose_tool(EditorTool::Step);
    e.click(None, 2);
    e.choose_tool(EditorTool::Text);
    // Clicking on the step marker adds a new text.
    e.click(Some(1), 3);
    assert_eq!(e.annotations.len(), 3);
    assert_eq!(e.selected, Some(2));
    // Clicking on the first text selects it.
    e.click(Some(0), 4);
    assert_eq!(e.annotations.len(), 3);
    assert_eq!(e.selected, Some(0));
}

#[test]
fn choosing_text_drops_a_non_text_selection() {
    let mut e: Editor<u32> = Editor::new();
    e.choose_tool(EditorTool::Step);
    e.click(None, 1);
    e.choose_tool(EditorTool::Select);
    e.click(Some(0), 0);
    assert_eq!(e.selected, Some(0));
    e.choose_tool(EditorTool::Text);
    assert_eq!(e.selected, None);
}

#[test]
fn drawing_adds_on_release_and_delete_removes_selected() {
    let mut e: Editor<u32> = Editor::new();
    e.choose_tool(EditorTool::Arrow);
    e.drag_start(None, None, 10);
    assert_eq!(e.drag_target(), DragTarget::Draw);
    assert_eq!(e.annotations.len(), 0);
    e.drag_stop();
    assert_eq!(e.annotations.len(), 1);
    assert_eq!(e.annotations[0].kind, AnnotationKind::Arrow);
    e.choose_tool(EditorTool::Rectangle);
    e.drag_start(None, None, 20);
    e.drag_stop();
    e.choose_tool(EditorTool::Select);
    e.click(Some(0), 0);
    e.delete_selected();
    assert_eq!(e.annotations.len(), 1);
    assert_eq!(e.annotations[0].shape, 20);
    assert_eq!(e.selected, None);
}

#[test]
fn select_drag_resizes_or_moves() {
    let mut e: Editor<u32> = Editor::new();
    e.choose_tool(EditorTool::Blur);
    e.drag_start(None, None, 5);
    e.drag_stop();
    e.choose_tool(EditorTool::Select);
    e.drag_start(Some(0), None, 0);
    assert_eq!(e.selected, Some(0));
    assert_eq!(e.drag_target(), DragTarget::Move { index: 0 });
    e.drag_stop();
    e.drag_start(Some(0), Some(ResizeHandle::BottomRight), 0);
    assert_eq!(e.drag_target(), DragTarget::Resize { index: 0, handle: ResizeHandle::BottomRight });
    e.drag_stop();
    assert_eq!(e.resizing, None);
    e.load_image();
    assert_eq!(e.annotations.len(), 0);
    assert_eq!(e.step_count, 1);
    assert_eq!(e.drag_target(), DragTarget::Nothing);
}

#[test]
fn topmost_hit_picks_last() {
    assert_eq!(topmost_hit(&vec![true, false, true, false]), Some(2));
    assert_eq!(topmost_hit(&vec![false, false]), None);
    assert_eq!(topmost_hit(&vec![]), None);
}

#[test]
fn selection_stays_on_an_annotation() {
    let mut e: Editor<u32> = Editor::new();
    e.choose_tool(EditorTool::Step);
    e.click(None, 1);
    e.click(None, 2);
    e.click(None, 3);
    e.choose_tool(EditorTool::Select);
    e.click(Some(2), 0);
    assert_eq!(e.selected, Some(2));
    e.drag_start(Some(2), Some(ResizeHandle::TopLeft), 0);
    assert_eq!(e.resizing, Some((2, ResizeHandle::TopLeft)));
    e.drag_stop();
    assert_eq!(e.resizing, None);
    e.delete_selected();
    assert_eq!(e.selected, None);
    assert_eq!(e.annotations.len(), 2);
    e.click(Some(1), 0);
    e.undo();
    // Undo of the selected (last) annotation is the case the law leaves out.
    assert_eq!(e.selected, Some(1));
    assert_eq!(e.annotations.len(), 1);
}
