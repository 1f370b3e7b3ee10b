//! Decisions of the annotation editor: which tool is active, the list of annotations,
//! the selection, the annotation being drawn, and the numbering of step markers.
//!
//! The geometry of an annotation (points, rectangles, colours, text) is kept by the caller
//! as the `shape` of type `T`; hit tests on that geometry are made by the caller too and
//! passed in as indices.
use vstd::prelude::*;

verus! {

#[derive(PartialEq, Eq, Structural, Clone, Copy, Debug)]
pub enum EditorTool {
    Select,
    Freehand,
    Arrow,
    Rectangle,
    Step,
    Text,
    Blur,
}

#[derive(PartialEq, Eq, Structural, Clone, Copy, Debug)]
pub enum ResizeHandle {
    TopLeft,
    TopRight,
    BottomLeft,
    BottomRight,
}

#[derive(PartialEq, Eq, Structural, Clone, Copy, Debug)]
pub enum AnnotationKind {
    Freehand,
    Arrow,
    Rectangle,
    /// A numbered step marker.
    Step { number: usize },
    Text,
    Blur,
}

/// An annotation: what it is, and its geometry as the caller keeps it.
pub struct Annotation<T> {
    pub kind: AnnotationKind,
    pub shape: T,
}

/// What a drag of the pointer acts on.
#[derive(PartialEq, Eq, Structural, Clone, Copy, Debug)]
pub enum DragTarget {
    /// Nothing.
    Nothing,
    /// The corner `handle` of annotation `index` follows the pointer.
    Resize { index: usize, handle: ResizeHandle },
    /// Annotation `index` moves with the pointer.
    Move { index: usize },
    /// The annotation being drawn grows with the pointer.
    Draw,
}

pub struct Editor<T> {
    pub tool: EditorTool,
    pub annotations: Vec<Annotation<T>>,
    pub selected: Option<usize>,
    /// The annotation being drawn, added to the list when the drag ends.
    pub active: Option<Annotation<T>>,
    /// The annotation and corner being resized by the current drag.
    pub resizing: Option<(usize, ResizeHandle)>,
    /// Number that the next step marker gets.
    pub step_count: usize,
}

pub struct EditorModel<T> {
    pub tool: EditorTool,
    pub annotations: Seq<Annotation<T>>,
    pub selected: Option<usize>,
    pub active: Option<Annotation<T>>,
    pub resizing: Option<(usize, ResizeHandle)>,
    pub step_count: usize,
}

impl<T> View for Editor<T> {
    type V = EditorModel<T>;

    open spec fn view(&self) -> EditorModel<T> {
        EditorModel {
            tool: self.tool,
            annotations: self.annotations@,
            selected: self.selected,
            active: self.active,
            resizing: self.resizing,
            step_count: self.step_count,
        }
    }
}

/// The kind of annotation a drawing tool starts, if it starts one by dragging.
pub open spec fn drawn_kind(tool: EditorTool) -> Option<AnnotationKind> {
    match tool {
        EditorTool::Freehand => Some(AnnotationKind::Freehand),
        EditorTool::Arrow => Some(AnnotationKind::Arrow),
        EditorTool::Rectangle => Some(AnnotationKind::Rectangle),
        EditorTool::Blur => Some(AnnotationKind::Blur),
        _ => None,
    }
}

/// A fresh capture: no annotations, nothing selected or drawn, steps numbered from 1.
pub open spec fn load_spec<T>(e: EditorModel<T>) -> EditorModel<T> {
    EditorModel {
        annotations: Seq::empty(),
        selected: None,
        active: None,
        resizing: None,
        step_count: 1,
        ..e
    }
}

/// Undo removes the most recent annotation.
pub open spec fn undo_spec<T>(e: EditorModel<T>) -> EditorModel<T> {
    if e.annotations.len() > 0 {
        EditorModel { annotations: e.annotations.drop_last(), ..e }
    } else {
        e
    }
}

/// Deleting removes the selected annotation, if the selection is valid, and clears it.
pub open spec fn delete_spec<T>(e: EditorModel<T>) -> EditorModel<T> {
    match e.selected {
        Some(i) => if i < e.annotations.len() {
            EditorModel { annotations: e.annotations.remove(i as int), selected: None, ..e }
        } else {
            e
        },
        None => e,
    }
}

/// Choosing a tool; choosing the text tool drops a selection that is not a text.
pub open spec fn choose_tool_spec<T>(e: EditorModel<T>, tool: EditorTool) -> EditorModel<T> {
    let e2 = EditorModel { tool, ..e };
    if tool == EditorTool::Text {
        match e.selected {
            Some(i) => if i < e.annotations.len() && e.annotations[i as int].kind
                != AnnotationKind::Text {
                EditorModel { selected: None, ..e2 }
            } else {
                e2
            },
            None => e2,
        }
    } else {
        e2
    }
}

/// A click on the canvas with the pointer over annotation `hovered` (the topmost one
/// there, if any). The select tool selects it; the step tool adds a numbered marker; the
/// text tool selects the text under the pointer or adds a new text and selects it.
pub open spec fn click_spec<T>(e: EditorModel<T>, hovered: Option<usize>, shape: T) -> EditorModel<T> {
    match e.tool {
        EditorTool::Select => EditorModel { selected: hovered, ..e },
        EditorTool::Step => EditorModel {
            annotations: e.annotations.push(
                Annotation { kind: AnnotationKind::Step { number: e.step_count }, shape },
            ),
            step_count: (e.step_count + 1) as usize,
            ..e
        },
        EditorTool::Text => match hovered {
            Some(i) => if e.annotations[i as int].kind == AnnotationKind::Text {
                EditorModel { selected: Some(i), ..e }
            } else {
                EditorModel {
                    annotations: e.annotations.push(Annotation { kind: AnnotationKind::Text, shape }),
                    selected: Some(e.annotations.len() as usize),
                    ..e
                }
            },
            None => EditorModel {
                annotations: e.annotations.push(Annotation { kind: AnnotationKind::Text, shape }),
                selected: Some(e.annotations.len() as usize),
                ..e
            },
        },
        _ => e,
    }
}

/// The start of a drag. With the select tool, grabbing a corner `handle` of the selected
/// annotation starts resizing it, otherwise the annotation under the pointer becomes the
/// selection. A drawing tool starts a new annotation with the given shape.
pub open spec fn drag_start_spec<T>(
    e: EditorModel<T>,
    hovered: Option<usize>,
    handle: Option<ResizeHandle>,
    shape: T,
) -> EditorModel<T> {
    if e.tool == EditorTool::Select {
        match (e.selected, handle) {
            (Some(i), Some(h)) => EditorModel { resizing: Some((i, h)), ..e },
            _ => EditorModel { selected: hovered, ..e },
        }
    } else {
        match drawn_kind(e.tool) {
            Some(kind) => EditorModel { active: Some(Annotation { kind, shape }), ..e },
            None => e,
        }
    }
}

/// What a drag in progress acts on.
pub open spec fn drag_target_spec<T>(e: EditorModel<T>) -> DragTarget {
    if e.tool == EditorTool::Select {
        match e.resizing {
            Some((i, h)) => DragTarget::Resize { index: i, handle: h },
            None => match e.selected {
                Some(i) => DragTarget::Move { index: i },
                None => DragTarget::Nothing,
            },
        }
    } else {
        match e.active {
            Some(_) => DragTarget::Draw,
            None => DragTarget::Nothing,
        }
    }
}

/// The end of a drag: resizing stops, or the annotation being drawn joins the list.
pub open spec fn drag_stop_spec<T>(e: EditorModel<T>) -> EditorModel<T> {
    if e.tool == EditorTool::Select {
        EditorModel { resizing: None, ..e }
    } else {
        match e.active {
            Some(a) => EditorModel { annotations: e.annotations.push(a), active: None, ..e },
            None => e,
        }
    }
}

impl<T> Editor<T> {
    /// The editor at start-up: select tool, nothing drawn, steps numbered from 1.
    pub fn new() -> (r: Editor<T>)
        ensures
            r.tool == EditorTool::Select,
            r@.annotations.len() == 0,
            r.selected is None,
            r.active is None,
            r.resizing is None,
            r.step_count == 1,
    {
        Editor {
            tool: EditorTool::Select,
            annotations: Vec::new(),
            selected: None,
            active: None,
            resizing: None,
            step_count: 1,
        }
    }

    /// Starts editing a fresh capture.
    pub fn load_image(&mut self)
        ensures
            final(self)@ == load_spec(old(self)@),
    {
        self.annotations = Vec::new();
        self.selected = None;
        self.active = None;
        self.resizing = None;
        self.step_count = 1;
    }

    /// Removes the most recent annotation (the selection is left as it was).
    pub fn undo(&mut self)
        ensures
            final(self)@ == undo_spec(old(self)@),
    {
        if self.annotations.len() > 0 {
            let _ = self.annotations.pop();
        }
    }

    /// Removes the selected annotation, if the selection is valid, and clears the selection.
    pub fn delete_selected(&mut self)
        ensures
            final(self)@ == delete_spec(old(self)@),
    {
        if let Some(i) = self.selected {
            if i < self.annotations.len() {
                let _ = self.annotations.remove(i);
                self.selected = None;
            }
        }
    }

    /// Switches to `tool`; switching to the text tool drops a selection that is not a text.
    pub fn choose_tool(&mut self, tool: EditorTool)
        ensures
            final(self)@ == choose_tool_spec(old(self)@, tool),
    {
        self.tool = tool;
        if tool == EditorTool::Text {
            if let Some(i) = self.selected {
                if i < self.annotations.len() && self.annotations[i].kind != AnnotationKind::Text {
                    self.selected = None;
                }
            }
        }
    }

    /// Numbers the next step marker 1 again.
    pub fn reset_steps(&mut self)
        ensures
            final(self)@ == (EditorModel { step_count: 1, ..old(self)@ }),
    {
        self.step_count = 1;
    }

    /// A click on the canvas; `hovered` is the topmost annotation under the pointer and
    /// `shape` the geometry of the annotation a click would add.
    pub fn click(&mut self, hovered: Option<usize>, shape: T)
        requires
            old(self).tool == EditorTool::Step ==> old(self).step_count < usize::MAX,
            old(self).tool == EditorTool::Text ==> (hovered matches Some(i) ==> i < old(
                self,
            )@.annotations.len()),
            old(self).tool == EditorTool::Text ==> old(self)@.annotations.len() < usize::MAX,
        ensures
            final(self)@ == click_spec(old(self)@, hovered, shape),
    {
        match self.tool {
            EditorTool::Select => {
                self.selected = hovered;
            },
            EditorTool::Step => {
                let number = self.step_count;
                self.annotations.push(Annotation { kind: AnnotationKind::Step { number }, shape });
                self.step_count = number + 1;
            },
            EditorTool::Text => {
                let on_text = match hovered {
                    Some(i) => self.annotations[i].kind == AnnotationKind::Text,
                    None => false,
                };
                if on_text {
                    self.selected = hovered;
                } else {
                    let n = self.annotations.len();
                    self.annotations.push(Annotation { kind: AnnotationKind::Text, shape });
                    self.selected = Some(n);
                }
            },
            _ => {},
        }
    }

    /// The start of a drag; `handle` is the corner of the selected annotation under the
    /// pointer, if any, and `shape` the geometry of the annotation a drawing tool starts.
    pub fn drag_start(&mut self, hovered: Option<usize>, handle: Option<ResizeHandle>, shape: T)
        ensures
            final(self)@ == drag_start_spec(old(self)@, hovered, handle, shape),
    {
        if self.tool == EditorTool::Select {
            match (self.selected, handle) {
                (Some(i), Some(h)) => {
                    self.resizing = Some((i, h));
                },
                _ => {
                    self.selected = hovered;
                },
            }
        } else {
            let kind = match self.tool {
                EditorTool::Freehand => Some(AnnotationKind::Freehand),
                EditorTool::Arrow => Some(AnnotationKind::Arrow),
                EditorTool::Rectangle => Some(AnnotationKind::Rectangle),
                EditorTool::Blur => Some(AnnotationKind::Blur),
                _ => None,
            };
            if let Some(kind) = kind {
                self.active = Some(Annotation { kind, shape });
            }
        }
    }

    /// What a drag in progress acts on.
    pub fn drag_target(&self) -> (r: DragTarget)
        ensures
            r == drag_target_spec(self@),
    {
        if self.tool == EditorTool::Select {
            match self.resizing {
                Some((i, h)) => DragTarget::Resize { index: i, handle: h },
                None => match self.selected {
                    Some(i) => DragTarget::Move { index: i },
                    None => DragTarget::Nothing,
                },
            }
        } else {
            match self.active {
                Some(_) => DragTarget::Draw,
                None => DragTarget::Nothing,
            }
        }
    }

    /// The end of a drag.
    pub fn drag_stop(&mut self)
        ensures
            final(self)@ == drag_stop_spec(old(self)@),
    {
        if self.tool == EditorTool::Select {
            self.resizing = None;
        } else {
            let mut taken: Option<Annotation<T>> = None;
            std::mem::swap(&mut taken, &mut self.active);
            if let Some(a) = taken {
                self.annotations.push(a);
            }
        }
    }
}

/// The index of the topmost (last drawn) annotation that the pointer hits, given one hit
/// flag per annotation in drawing order.
pub fn topmost_hit(hits: &Vec<bool>) -> (r: Option<usize>)
    ensures
        r matches Some(i) ==> i < hits@.len() && hits@[i as int] && forall|j: int|
            i < j < hits@.len() ==> !#[trigger] hits@[j],
        r is None ==> forall|j: int| 0 <= j < hits@.len() ==> !#[trigger] hits@[j],
{
    let mut i = hits.len();
    while i > 0
        invariant
            i <= hits@.len(),
            forall|j: int| i <= j < hits@.len() ==> !#[trigger] hits@[j],
        decreases i,
    {
        i = i - 1;
        if hits[i] {
            return Some(i);
        }
    }
    None
}

/// The selection and the annotation being resized name existing annotations.
pub open spec fn indices_in_range<T>(e: EditorModel<T>) -> bool {
    &&& e.selected matches Some(i) ==> i < e.annotations.len()
    &&& e.resizing matches Some((i, _h)) ==> i < e.annotations.len()
}

/// One operation of the editor, as its methods perform it.
pub enum EditorStep<T> {
    Click { hovered: Option<usize>, shape: T },
    DragStart { hovered: Option<usize>, handle: Option<ResizeHandle>, shape: T },
    DragStop,
    Delete,
    Undo,
    ChooseTool { tool: EditorTool },
    ResetSteps,
    Load,
}

/// The editor after one operation.
pub open spec fn step_spec<T>(e: EditorModel<T>, step: EditorStep<T>) -> EditorModel<T> {
    match step {
        EditorStep::Click { hovered, shape } => click_spec(e, hovered, shape),
        EditorStep::DragStart { hovered, handle, shape } => drag_start_spec(e, hovered, handle, shape),
        EditorStep::DragStop => drag_stop_spec(e),
        EditorStep::Delete => delete_spec(e),
        EditorStep::Undo => undo_spec(e),
        EditorStep::ChooseTool { tool } => choose_tool_spec(e, tool),
        EditorStep::ResetSteps => EditorModel { step_count: 1, ..e },
        EditorStep::Load => load_spec(e),
    }
}

/// The operations that keep the indices in range: a hovered index names an annotation
/// (as `topmost_hit` gives it); deleting does not leave the resized index past the
/// shortened list; undo does not remove the selected or the resized annotation.
pub open spec fn step_keeps_indices<T>(e: EditorModel<T>, step: EditorStep<T>) -> bool {
    let n = e.annotations.len();
    match step {
        EditorStep::Click { hovered, .. } => hovered matches Some(i) ==> i < n,
        EditorStep::DragStart { hovered, .. } => hovered matches Some(i) ==> i < n,
        EditorStep::Delete => (e.selected matches Some(i) && i < n) ==> (e.resizing matches Some(
            (j, _h),
        ) ==> j + 1 < n),
        EditorStep::Undo => n > 0 ==> {
            &&& e.selected matches Some(i) ==> i + 1 < n
            &&& e.resizing matches Some((j, _h)) ==> j + 1 < n
        },
        _ => true,
    }
}

/// The editor after a sequence of operations.
pub open spec fn run_steps<T>(e: EditorModel<T>, steps: Seq<EditorStep<T>>) -> EditorModel<T>
    decreases steps.len(),
{
    if steps.len() == 0 {
        e
    } else {
        run_steps(step_spec(e, steps[0]), steps.drop_first())
    }
}

/// Every operation of the sequence keeps the indices in range from the state it meets.
pub open spec fn steps_keep_indices<T>(e: EditorModel<T>, steps: Seq<EditorStep<T>>) -> bool
    decreases steps.len(),
{
    steps.len() == 0 || (step_keeps_indices(e, steps[0]) && steps_keep_indices(
        step_spec(e, steps[0]),
        steps.drop_first(),
    ))
}

proof fn lemma_step_keeps_indices<T>(e: EditorModel<T>, step: EditorStep<T>)
    requires
        indices_in_range(e),
        step_keeps_indices(e, step),
    ensures
        indices_in_range(step_spec(e, step)),
{
}

/// The selection and the resized annotation always name an existing annotation: from an
/// editor where they do, every sequence of operations that stays clear of the cases that
/// would remove them (see `step_keeps_indices`) leads to an editor where they still do.
pub proof fn lemma_indices_stay_in_range<T>(e: EditorModel<T>, steps: Seq<EditorStep<T>>)
    requires
        indices_in_range(e),
        steps_keep_indices(e, steps),
    ensures
        indices_in_range(run_steps(e, steps)),
    decreases steps.len(),
{
    if steps.len() > 0 {
        lemma_step_keeps_indices(e, steps[0]);
        lemma_indices_stay_in_range(step_spec(e, steps[0]), steps.drop_first());
    }
}

/// Undo takes back a step marker or a text just added.
pub proof fn lemma_undo_reverts_click<T>(e: EditorModel<T>, hovered: Option<usize>, shape: T)
    requires
        e.tool == EditorTool::Step || (e.tool == EditorTool::Text && hovered is None),
    ensures
        undo_spec(click_spec(e, hovered, shape)).annotations == e.annotations,
{
    assert(click_spec(e, hovered, shape).annotations.drop_last() =~= e.annotations);
}

/// Undo takes back the annotation that the end of a drawing drag added.
pub proof fn lemma_undo_reverts_drawing<T>(e: EditorModel<T>, hovered: Option<usize>, shape: T)
    requires
        drawn_kind(e.tool) is Some,
    ensures
        undo_spec(drag_stop_spec(drag_start_spec(e, hovered, None, shape))).annotations
            == e.annotations,
        drag_stop_spec(drag_start_spec(e, hovered, None, shape)).annotations == e.annotations.push(
            Annotation { kind: drawn_kind(e.tool).unwrap(), shape },
        ),
{
    assert(drag_stop_spec(drag_start_spec(e, hovered, None, shape)).annotations.drop_last()
        =~= e.annotations);
}

/// A drag with a drawing tool adds one annotation of the tool's own kind: the brush a
/// freehand stroke, the arrow tool an arrow, the box tool a rectangle and the blur tool a
/// blur region, with the shape given at the start of the drag. The select tool never adds
/// an annotation by dragging, nor do the step and text tools when nothing is being drawn.
pub proof fn lemma_drag_adds_the_tools_kind<T>(
    e: EditorModel<T>,
    hovered: Option<usize>,
    handle: Option<ResizeHandle>,
    shape: T,
)
    ensures
        ({
            let after = drag_stop_spec(drag_start_spec(e, hovered, handle, shape)).annotations;
            &&& e.tool == EditorTool::Freehand ==> after == e.annotations.push(
                Annotation { kind: AnnotationKind::Freehand, shape },
            )
            &&& e.tool == EditorTool::Arrow ==> after == e.annotations.push(
                Annotation { kind: AnnotationKind::Arrow, shape },
            )
            &&& e.tool == EditorTool::Rectangle ==> after == e.annotations.push(
                Annotation { kind: AnnotationKind::Rectangle, shape },
            )
            &&& e.tool == EditorTool::Blur ==> after == e.annotations.push(
                Annotation { kind: AnnotationKind::Blur, shape },
            )
            &&& e.tool == EditorTool::Select ==> after == e.annotations
            &&& (e.tool == EditorTool::Step || e.tool == EditorTool::Text) && e.active is None
                ==> after == e.annotations
        }),
{
}

/// A click with the select tool selects the annotation under the pointer (or nothing);
/// a click with the text tool on a text selects it, and anywhere else adds a new text with
/// the given shape and selects it. Neither changes the tool or the step counter.
pub proof fn lemma_click_selects_or_adds_text<T>(e: EditorModel<T>, hovered: Option<usize>, shape: T)
    ensures
        e.tool == EditorTool::Select ==> click_spec(e, hovered, shape) == (EditorModel {
            selected: hovered,
            ..e
        }),
        e.tool == EditorTool::Text && (hovered matches Some(i) && e.annotations[i as int].kind
            == AnnotationKind::Text) ==> click_spec(e, hovered, shape) == (EditorModel {
            selected: hovered,
            ..e
        }),
        e.tool == EditorTool::Text && !(hovered matches Some(i) && e.annotations[i as int].kind
            == AnnotationKind::Text) ==> click_spec(e, hovered, shape) == (EditorModel {
            annotations: e.annotations.push(Annotation { kind: AnnotationKind::Text, shape }),
            selected: Some(e.annotations.len() as usize),
            ..e
        }),
        (e.tool == EditorTool::Freehand || e.tool == EditorTool::Arrow || e.tool
            == EditorTool::Rectangle || e.tool == EditorTool::Blur) ==> click_spec(e, hovered, shape)
            == e,
{
}

/// Choosing a tool makes it the current tool; choosing the text tool drops a selection of
/// an annotation that is not a text, and nothing else changes.
pub proof fn lemma_choose_tool<T>(e: EditorModel<T>, tool: EditorTool)
    ensures
        choose_tool_spec(e, tool).tool == tool,
        choose_tool_spec(e, tool).annotations == e.annotations,
        choose_tool_spec(e, tool).step_count == e.step_count,
        choose_tool_spec(e, tool).active == e.active,
        tool != EditorTool::Text ==> choose_tool_spec(e, tool).selected == e.selected,
        tool == EditorTool::Text ==> (choose_tool_spec(e, tool).selected == (match e.selected {
            Some(i) => if i < e.annotations.len() && e.annotations[i as int].kind
                != AnnotationKind::Text {
                None
            } else {
                Some(i)
            },
            None => None,
        })),
{
}

/// With the select tool, a drag that starts on a corner of the selected annotation resizes
/// that annotation by that corner; any other drag selects what is under the pointer and
/// then moves it (or does nothing over empty canvas). With a drawing tool the drag draws.
pub proof fn lemma_select_drag_resizes_or_moves<T>(
    e: EditorModel<T>,
    hovered: Option<usize>,
    handle: Option<ResizeHandle>,
    shape: T,
)
    requires
        e.resizing is None,
    ensures
        e.tool == EditorTool::Select && e.selected is Some && handle is Some ==> drag_target_spec(
            drag_start_spec(e, hovered, handle, shape),
        ) == (DragTarget::Resize { index: e.selected.unwrap(), handle: handle.unwrap() }),
        e.tool == EditorTool::Select && !(e.selected is Some && handle is Some) ==> {
            let e2 = drag_start_spec(e, hovered, handle, shape);
            &&& e2.selected == hovered
            &&& hovered matches Some(i) ==> drag_target_spec(e2) == (DragTarget::Move { index: i })
            &&& hovered is None ==> drag_target_spec(e2) == DragTarget::Nothing
        },
        (e.tool == EditorTool::Freehand || e.tool == EditorTool::Arrow || e.tool
            == EditorTool::Rectangle || e.tool == EditorTool::Blur) ==> drag_target_spec(
            drag_start_spec(e, hovered, handle, shape),
        ) == DragTarget::Draw,
{
}

/// Deleting keeps every other annotation, in order.
pub proof fn lemma_delete_keeps_others<T>(e: EditorModel<T>)
    requires
        e.selected matches Some(i) && i < e.annotations.len(),
    ensures
        ({
            let i = e.selected.unwrap() as int;
            let d = delete_spec(e).annotations;
            &&& d.len() == e.annotations.len() - 1
            &&& forall|j: int| 0 <= j < i ==> d[j] == e.annotations[j]
            &&& forall|j: int| i <= j < d.len() ==> d[j] == e.annotations[j + 1]
            &&& delete_spec(e).selected is None
        }),
{
}

/// Step markers are numbered consecutively: two step clicks give the numbers `n` and
/// `n + 1`, where `n` is the step counter before them.
pub proof fn lemma_steps_numbered_consecutively<T>(e: EditorModel<T>, s1: T, s2: T)
    requires
        e.tool == EditorTool::Step,
        e.step_count + 2 <= usize::MAX,
    ensures
        ({
            let e1 = click_spec(e, None, s1);
            let e2 = click_spec(e1, None, s2);
            &&& e2.annotations.len() == e.annotations.len() + 2
            &&& e2.annotations[e.annotations.len() as int].kind == AnnotationKind::Step {
                number: e.step_count,
            }
            &&& e2.annotations[e.annotations.len() as int + 1].kind == AnnotationKind::Step {
                number: (e.step_count + 1) as usize,
            }
            &&& e2.step_count == e.step_count + 2
        }),
{
}

/// A new capture starts from an empty editor whose next step marker is number 1.
pub proof fn lemma_load_starts_fresh<T>(e: EditorModel<T>)
    ensures
        load_spec(e).annotations.len() == 0,
        load_spec(e).selected is None,
        load_spec(e).active is None,
        load_spec(e).step_count == 1,
        load_spec(e).tool == e.tool,
{
}

} // verus!
