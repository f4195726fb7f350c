//! The status bar: a hook that shows one segment for each workspace tag.
//!
//! The bar keeps which tag has the focus and which tags hold windows, and says
//! what is to be drawn. It does not draw: whoever runs the event loop asks the
//! window manager and the drawing surface, hands the bar what they said, and
//! carries out the commands that the bar hands back.

use vstd::prelude::*;
use crate::action::texts;
use crate::color::Color;
use crate::style::{units_of, Padding, Style, StyleModel, UNITS_PER_PIXEL};
use crate::tags::{lemma_tags_distinct, place_of, TagList};

verus! {

/// Where a hook stands in its life.
#[derive(Clone, Copy, Debug, PartialEq, Eq, Structural)]
pub enum Phase {
    /// Made, and not started yet.
    Uninitialized,
    /// Started: it holds a drawing surface and answers events.
    Ready,
    /// Torn down, or failed to start. Nothing brings it back.
    Terminated,
}

/// How the attempt to get a drawing surface and to register the fonts went.
#[derive(Clone, Copy, Debug, PartialEq, Eq, Structural)]
pub enum Acquired {
    /// The surface is there and every font is registered.
    Ready,
    /// No surface could be had.
    NoSurface,
    /// A font could not be registered.
    NoFont,
}

/// Why a hook could not be started.
#[derive(Clone, Copy, Debug, PartialEq, Eq, Structural)]
pub enum HookInitError {
    /// No drawing surface could be had.
    SurfaceUnavailable,
    /// A font of the style could not be registered.
    FontUnavailable,
    /// The hook was started or torn down before.
    NotUninitialized,
}

/// What the window manager says of one workspace.
#[derive(Debug, PartialEq, Eq)]
pub struct Workspace {
    pub tag: String,
    pub clients: usize,
}

/// What the window manager says of one workspace, as a value.
pub struct WorkspaceModel {
    pub tag: Seq<char>,
    pub clients: nat,
}

impl View for Workspace {
    type V = WorkspaceModel;

    open spec fn view(&self) -> WorkspaceModel {
        WorkspaceModel { tag: self.tag@, clients: self.clients as nat }
    }
}

/// What `report` holds, as values.
pub open spec fn reported(report: Seq<Workspace>) -> Seq<WorkspaceModel> {
    Seq::new(report.len(), |k: int| report[k]@)
}

/// Whether `report` says that the workspace `tag` holds a window.
pub open spec fn has_clients(report: Seq<WorkspaceModel>, tag: Seq<char>) -> bool {
    exists|k: int| 0 <= k < report.len() && (#[trigger] report[k]).tag == tag && report[k].clients > 0
}

/// For each of `tags`, whether `report` says that it holds a window.
pub open spec fn occupancy(tags: Seq<Seq<char>>, report: Seq<WorkspaceModel>) -> Seq<bool> {
    Seq::new(tags.len(), |i: int| has_clients(report, tags[i]))
}

/// One step of drawing. Lengths are in units; the origin is where the surface
/// begins until a translation moves it.
#[derive(Debug, PartialEq, Eq)]
pub enum DrawCommand {
    /// Use this colour from now on.
    SetColor(Color),
    /// Fill the rectangle.
    Rectangle { x: u64, y: u64, width: u64, height: u64 },
    /// Use this font at this point size from now on.
    SelectFont { font: String, size: i32 },
    /// Draw the label at the origin, inside the padding.
    Text { label: String, padding: Padding },
    /// Move the origin.
    Translate { dx: u64, dy: u64 },
    /// Show on the screen what has been drawn.
    Flush,
}

/// A drawing step as a value.
pub enum DrawCommandModel {
    SetColor(Color),
    Rectangle { x: int, y: int, width: int, height: int },
    SelectFont { font: Seq<char>, size: int },
    Text { label: Seq<char>, padding: Padding },
    Translate { dx: int, dy: int },
    Flush,
}

impl View for DrawCommand {
    type V = DrawCommandModel;

    open spec fn view(&self) -> DrawCommandModel {
        match self {
            DrawCommand::SetColor(c) => DrawCommandModel::SetColor(*c),
            DrawCommand::Rectangle { x, y, width, height } => DrawCommandModel::Rectangle {
                x: *x as int,
                y: *y as int,
                width: *width as int,
                height: *height as int,
            },
            DrawCommand::SelectFont { font, size } => DrawCommandModel::SelectFont {
                font: font@,
                size: *size as int,
            },
            DrawCommand::Text { label, padding } => DrawCommandModel::Text {
                label: label@,
                padding: *padding,
            },
            DrawCommand::Translate { dx, dy } => DrawCommandModel::Translate {
                dx: *dx as int,
                dy: *dy as int,
            },
            DrawCommand::Flush => DrawCommandModel::Flush,
        }
    }
}

/// The steps that `commands` hold, as values.
pub open spec fn drawn(commands: Seq<DrawCommand>) -> Seq<DrawCommandModel> {
    Seq::new(commands.len(), |k: int| commands[k]@)
}

/// What is to be drawn on one occasion: first the backdrop, then the segments
/// from left to right, then the finish. A segment whose steps fail leaves the
/// other segments and the finish as they are.
#[derive(Debug, PartialEq, Eq)]
pub struct Frame {
    pub backdrop: Vec<DrawCommand>,
    pub segments: Vec<Vec<DrawCommand>>,
    pub finish: Vec<DrawCommand>,
}

/// A frame as a value.
pub struct FrameModel {
    pub backdrop: Seq<DrawCommandModel>,
    pub segments: Seq<Seq<DrawCommandModel>>,
    pub finish: Seq<DrawCommandModel>,
}

impl FrameModel {
    /// The frame in which nothing is drawn.
    pub open spec fn nothing() -> FrameModel {
        FrameModel { backdrop: Seq::empty(), segments: Seq::empty(), finish: Seq::empty() }
    }

    /// Whether the frame has no more segments, and no part of it more steps,
    /// than can be counted. This holds of every frame that is held.
    pub open spec fn countable(self) -> bool {
        &&& self.segments.len() <= usize::MAX
        &&& forall|part: Part| (#[trigger] self.part(part)).len() <= usize::MAX
    }

    /// The steps of a part: none for a segment that the frame does not have.
    pub open spec fn part(self, part: Part) -> Seq<DrawCommandModel> {
        match part {
            Part::Backdrop => self.backdrop,
            Part::Segment(i) => if i < self.segments.len() {
                self.segments[i as int]
            } else {
                Seq::empty()
            },
            Part::Finish => self.finish,
        }
    }

    /// The place of a part in the order in which the parts are carried out:
    /// the backdrop, each segment, the finish.
    pub open spec fn rank(self, part: Part) -> int {
        match part {
            Part::Backdrop => 0,
            Part::Segment(i) => i + 1,
            Part::Finish => self.segments.len() as int + 1,
        }
    }

    /// The first step of the segments from place `i` on and of the finish:
    /// none where none of them has a step.
    pub open spec fn first_step_from(self, i: int) -> Option<Cursor>
        decreases self.segments.len() - i,
    {
        if i < 0 || i >= self.segments.len() {
            if self.finish.len() > 0 {
                Some(Cursor { part: Part::Finish, step: 0 })
            } else {
                None
            }
        } else if self.segments[i].len() > 0 {
            Some(Cursor { part: Part::Segment(i as usize), step: 0 })
        } else {
            self.first_step_from(i + 1)
        }
    }

    /// Where carrying out the frame begins: nowhere where it has no step.
    pub open spec fn first_step(self) -> Option<Cursor> {
        if self.backdrop.len() > 0 {
            Some(Cursor { part: Part::Backdrop, step: 0 })
        } else {
            self.first_step_from(0)
        }
    }

    /// The step to carry out after the step at `at`, where `failed` says
    /// whether that step failed. After a step that went well comes the next
    /// step of the same part. After a failed step, or the last step of a part,
    /// comes the first step of the parts that follow: a failure costs the rest
    /// of its own part and nothing else.
    pub open spec fn step_after(self, at: Cursor, failed: bool) -> Option<Cursor> {
        if !failed && at.step + 1 < self.part(at.part).len() {
            Some(Cursor { part: at.part, step: (at.step + 1) as usize })
        } else {
            match at.part {
                Part::Backdrop => self.first_step_from(0),
                Part::Segment(i) => self.first_step_from(i + 1),
                Part::Finish => None,
            }
        }
    }
}

/// A part of a frame: the backdrop, the segment of the tag at some place, or the finish.
#[derive(Clone, Copy, Debug, PartialEq, Eq, Structural)]
pub enum Part {
    Backdrop,
    Segment(usize),
    Finish,
}

/// Where the carrying out of a frame stands: at step `step` of part `part`.
#[derive(Clone, Copy, Debug, PartialEq, Eq, Structural)]
pub struct Cursor {
    pub part: Part,
    pub step: usize,
}

impl View for Frame {
    type V = FrameModel;

    open spec fn view(&self) -> FrameModel {
        FrameModel {
            backdrop: drawn(self.backdrop@),
            segments: Seq::new(self.segments@.len(), |i: int| drawn(self.segments@[i]@)),
            finish: drawn(self.finish@),
        }
    }
}

impl Frame {
    /// The steps of a part: `None` for a segment that the frame does not have.
    fn part(&self, part: Part) -> (commands: Option<&Vec<DrawCommand>>)
        ensures
            match commands {
                Some(c) => drawn(c@) == self@.part(part),
                None => self@.part(part).len() == 0,
            },
    {
        match part {
            Part::Backdrop => Some(&self.backdrop),
            Part::Segment(i) => if i < self.segments.len() {
                Some(&self.segments[i])
            } else {
                None
            },
            Part::Finish => Some(&self.finish),
        }
    }

    /// The first step of the segments from place `from` on and of the finish.
    fn first_from(&self, from: usize) -> (cursor: Option<Cursor>)
        ensures
            cursor == self@.first_step_from(from as int),
    {
        let mut i: usize = from;
        while i < self.segments.len()
            invariant
                self@.first_step_from(from as int) == self@.first_step_from(i as int),
            decreases self.segments.len() - i,
        {
            if self.segments[i].len() > 0 {
                return Some(Cursor { part: Part::Segment(i), step: 0 });
            }
            i += 1;
        }
        if self.finish.len() > 0 {
            Some(Cursor { part: Part::Finish, step: 0 })
        } else {
            None
        }
    }

    /// Where carrying out the frame begins: `None` exactly when it has no step.
    pub fn first(&self) -> (cursor: Option<Cursor>)
        ensures
            cursor == self@.first_step(),
    {
        if self.backdrop.len() > 0 {
            Some(Cursor { part: Part::Backdrop, step: 0 })
        } else {
            self.first_from(0)
        }
    }

    /// The step at `at`: `None` exactly when there is no such step.
    pub fn command(&self, at: Cursor) -> (command: Option<&DrawCommand>)
        ensures
            match command {
                Some(c) => at.step < self@.part(at.part).len() && c@ == self@.part(at.part)[at.step as int],
                None => at.step >= self@.part(at.part).len(),
            },
    {
        match self.part(at.part) {
            Some(commands) => if at.step < commands.len() {
                Some(&commands[at.step])
            } else {
                None
            },
            None => None,
        }
    }

    /// Where to go on after the step at `at`, where `failed` says whether that
    /// step failed: `None` exactly when nothing is left to do. A failed step
    /// costs the rest of its own part and no step of any other part.
    pub fn next(&self, at: Cursor, failed: bool) -> (cursor: Option<Cursor>)
        ensures
            cursor == self@.step_after(at, failed),
    {
        if !failed {
            match self.part(at.part) {
                Some(commands) => {
                    if at.step < commands.len() && at.step + 1 < commands.len() {
                        return Some(Cursor { part: at.part, step: at.step + 1 });
                    }
                },
                None => {},
            }
        }
        match at.part {
            Part::Backdrop => self.first_from(0),
            Part::Segment(i) => if i < self.segments.len() {
                self.first_from(i + 1)
            } else {
                self.first_from(self.segments.len())
            },
            Part::Finish => None,
        }
    }
}

/// What a surface is asked for when a bar starts.
#[derive(Debug, PartialEq, Eq)]
pub struct SurfaceRequest {
    /// The width of the surface, in pixels.
    pub width: u32,
    /// The height of the surface, in pixels.
    pub height: u32,
    /// The fonts to register.
    pub fonts: Vec<String>,
}

/// How a tag stands: it has the focus, or else it holds windows or none.
#[derive(Clone, Copy, Debug, PartialEq, Eq, Structural)]
pub enum SegmentState {
    Focused,
    Occupied,
    Empty,
}

/// What a bar is made from.
#[derive(Debug, PartialEq, Eq)]
pub struct BarConfig {
    /// The height of the bar, in pixels.
    pub height: u32,
    /// The font, the colours of a tag that holds windows, and the padding of a label.
    pub style: Style,
    /// The colour behind the tag that has the focus.
    pub highlight: Color,
    /// The colour of the label of a tag that holds no window.
    pub empty: Color,
    /// The tags to show, from left to right.
    pub tags: TagList,
}

/// The extent at place `i` of `extents`: none where there is no such place.
pub open spec fn extent_at(extents: Seq<Option<u32>>, i: int) -> Option<u32> {
    if 0 <= i < extents.len() {
        extents[i]
    } else {
        None
    }
}

/// A bar as a value: what it was made from, and what it keeps.
pub struct BarModel {
    pub height: int,
    pub style: StyleModel,
    pub highlight: Color,
    pub empty: Color,
    pub tags: Seq<Seq<char>>,
    pub phase: Phase,
    /// The width of the screen in pixels, as it was when the bar started.
    pub width: int,
    /// The place of the tag that has the focus, if it is one of the tags shown.
    pub focused: Option<int>,
    /// For each tag, whether it holds a window.
    pub occupied: Seq<bool>,
}

impl BarModel {
    /// The bar as it is when made: not started, no tag focused, every tag empty.
    pub open spec fn fresh(
        height: int,
        style: StyleModel,
        highlight: Color,
        empty: Color,
        tags: Seq<Seq<char>>,
    ) -> BarModel {
        BarModel {
            height,
            style,
            highlight,
            empty,
            tags,
            phase: Phase::Uninitialized,
            width: 0,
            focused: None,
            occupied: Seq::new(tags.len(), |i: int| false),
        }
    }

    /// The bar after it was told how starting went. A bar that has not been
    /// started becomes ready on a screen of that width, with the first tag
    /// focused and every tag empty, or is done for where starting failed. Any
    /// other bar stays as it is.
    pub open spec fn started(self, screen_width: u32, acquired: Acquired) -> BarModel {
        if self.phase is Uninitialized {
            if acquired is Ready {
                BarModel {
                    phase: Phase::Ready,
                    width: screen_width as int,
                    focused: if self.tags.len() > 0 {
                        Some(0int)
                    } else {
                        None
                    },
                    occupied: Seq::new(self.tags.len(), |i: int| false),
                    ..self
                }
            } else {
                BarModel { phase: Phase::Terminated, ..self }
            }
        } else {
            self
        }
    }

    /// What the one who started the bar is told.
    pub open spec fn start_result(self, acquired: Acquired) -> Result<(), HookInitError> {
        if self.phase is Uninitialized {
            match acquired {
                Acquired::Ready => Ok(()),
                Acquired::NoSurface => Err(HookInitError::SurfaceUnavailable),
                Acquired::NoFont => Err(HookInitError::FontUnavailable),
            }
        } else {
            Err(HookInitError::NotUninitialized)
        }
    }

    /// The bar after the focus went to the workspace `new`, where `report` is
    /// what the window manager says of its workspaces now. A ready bar takes
    /// the focus and every tag's occupancy from these alone; any other bar
    /// stays as it is.
    pub open spec fn moved(self, new: Seq<char>, report: Seq<WorkspaceModel>) -> BarModel {
        if self.phase is Ready {
            BarModel {
                focused: place_of(self.tags, new),
                occupied: occupancy(self.tags, report),
                ..self
            }
        } else {
            self
        }
    }

    /// The bar after it was torn down.
    pub open spec fn ended(self) -> BarModel {
        BarModel { phase: Phase::Terminated, ..self }
    }

    /// How the tag at place `i` stands.
    pub open spec fn state_of(self, i: int) -> SegmentState {
        if self.focused == Some(i) {
            SegmentState::Focused
        } else if self.occupied[i] {
            SegmentState::Occupied
        } else {
            SegmentState::Empty
        }
    }

    /// The colour behind the label of the tag at place `i`: the highlight
    /// where it has the focus, and what the style says where it has not.
    pub open spec fn fill_of(self, i: int) -> Option<Color> {
        if self.focused == Some(i) {
            Some(self.highlight)
        } else {
            self.style.bg
        }
    }

    /// The colour of the label of the tag at place `i`: that of the style
    /// where the tag holds a window, and the colour for empty tags where it holds none.
    pub open spec fn ink_of(self, i: int) -> Color {
        if self.occupied[i] {
            self.style.fg
        } else {
            self.empty
        }
    }

    /// The width of the segment of a label that is `extent` wide.
    pub open spec fn span_of(self, extent: u32) -> int {
        extent + 2 * self.style.padding.horizontal
    }

    /// The steps that fill a rectangle of the bar's height, `width` wide, with `fill`.
    pub open spec fn filled(self, fill: Option<Color>, width: int) -> Seq<DrawCommandModel> {
        match fill {
            Some(c) => seq![
                DrawCommandModel::SetColor(c),
                DrawCommandModel::Rectangle {
                    x: 0,
                    y: 0,
                    width,
                    height: self.height * UNITS_PER_PIXEL,
                },
            ],
            None => Seq::empty(),
        }
    }

    /// The steps that draw the segment of the tag at place `i`, where `extent`
    /// is the width of its label, or `None` where the label could not be
    /// measured. Such a segment is left out. The others select the font, fill
    /// the segment, draw the label and move the origin to the segment's end.
    pub open spec fn segment(self, i: int, extent: Option<u32>) -> Seq<DrawCommandModel> {
        match extent {
            None => Seq::empty(),
            Some(e) => seq![
                DrawCommandModel::SelectFont { font: self.style.font, size: self.style.size },
            ] + self.filled(self.fill_of(i), self.span_of(e)) + seq![
                DrawCommandModel::SetColor(self.ink_of(i)),
                DrawCommandModel::Text { label: self.tags[i], padding: self.style.padding },
                DrawCommandModel::Translate { dx: self.span_of(e), dy: 0 },
            ],
        }
    }

    /// The steps that clear the bar: none where the style sets no background.
    pub open spec fn backdrop(self) -> Seq<DrawCommandModel> {
        self.filled(self.style.bg, self.width * UNITS_PER_PIXEL)
    }

    /// What a ready bar draws, where `extents` holds the width of each tag's
    /// label. Any other bar draws nothing.
    pub open spec fn frame(self, extents: Seq<Option<u32>>) -> FrameModel {
        if self.phase is Ready {
            FrameModel {
                backdrop: self.backdrop(),
                segments: Seq::new(
                    self.tags.len(),
                    |i: int| self.segment(i, extent_at(extents, i)),
                ),
                finish: seq![DrawCommandModel::Flush],
            }
        } else {
            FrameModel::nothing()
        }
    }
}

/// What a bar keeps between events.
#[derive(Debug, PartialEq, Eq)]
struct BarState {
    focused: Option<usize>,
    occupied: Vec<bool>,
}

/// The status bar.
#[derive(Debug, PartialEq, Eq)]
pub struct StatusBar {
    height: u32,
    style: Style,
    highlight: Color,
    empty: Color,
    tags: TagList,
    phase: Phase,
    width: u32,
    state: BarState,
}

spec fn focus_of(focused: Option<usize>) -> Option<int> {
    match focused {
        Some(i) => Some(i as int),
        None => None,
    }
}

impl View for StatusBar {
    type V = BarModel;

    closed spec fn view(&self) -> BarModel {
        BarModel {
            height: self.height as int,
            style: self.style@,
            highlight: self.highlight,
            empty: self.empty,
            tags: self.tags@,
            phase: self.phase,
            width: self.width as int,
            focused: focus_of(self.state.focused),
            occupied: self.state.occupied@,
        }
    }
}

impl StatusBar {
    /// Each tag has its occupancy, and the focus is on one of the tags or on none.
    #[verifier::type_invariant]
    pub closed spec fn sound(self) -> bool {
        &&& self.state.occupied@.len() == self.tags@.len()
        &&& self.state.focused matches Some(i) ==> i < self.tags@.len()
    }

    /// The bar that `config` describes, not started yet.
    pub fn new(config: BarConfig) -> (bar: StatusBar)
        ensures
            bar@ == BarModel::fresh(
                config.height as int,
                config.style@,
                config.highlight,
                config.empty,
                config.tags@,
            ),
    {
        let occupied = all_empty(config.tags.len());
        StatusBar {
            height: config.height,
            style: config.style,
            highlight: config.highlight,
            empty: config.empty,
            tags: config.tags,
            phase: Phase::Uninitialized,
            width: 0,
            state: BarState { focused: None, occupied },
        }
    }

    /// Where the bar stands in its life.
    pub fn phase(&self) -> (phase: Phase)
        ensures
            phase == self@.phase,
    {
        self.phase
    }

    /// The tags shown, from left to right.
    pub fn tags(&self) -> (tags: &TagList)
        ensures
            tags@ == self@.tags,
    {
        &self.tags
    }

    /// The style of the labels.
    pub fn style(&self) -> (style: &Style)
        ensures
            style@ == self@.style,
    {
        &self.style
    }

    /// The place of the tag that has the focus, if one of the tags shown has it.
    pub fn focused(&self) -> (focused: Option<usize>)
        ensures
            self@.focused == match focused {
                Some(i) => Some(i as int),
                None => None,
            },
            focused matches Some(i) ==> i < self@.tags.len(),
    {
        proof {
            use_type_invariant(self);
        }
        self.state.focused
    }

    /// How the tag at place `i` stands: `None` exactly when there is no such place.
    pub fn segment_state(&self, i: usize) -> (state: Option<SegmentState>)
        ensures
            state == if i < self@.tags.len() {
                Some(self@.state_of(i as int))
            } else {
                None
            },
    {
        proof {
            use_type_invariant(self);
        }
        if i >= self.tags.len() {
            None
        } else if is_focus(self.state.focused, i) {
            Some(SegmentState::Focused)
        } else if self.state.occupied[i] {
            Some(SegmentState::Occupied)
        } else {
            Some(SegmentState::Empty)
        }
    }

    /// What to ask of the drawing side before the bar is started on a screen
    /// `screen_width` pixels wide: a surface of that width and of the bar's
    /// height, and the font of the style.
    pub fn surface_request(&self, screen_width: u32) -> (request: SurfaceRequest)
        ensures
            request.width == screen_width,
            request.height == self@.height,
            texts(request.fonts@) == seq![self@.style.font],
    {
        let mut fonts: Vec<String> = Vec::new();
        fonts.push(String::from_str(self.style.font()));
        assert(texts(fonts@) =~= seq![self@.style.font]);
        SurfaceRequest { width: screen_width, height: self.height, fonts }
    }

    /// Starts the bar, given how getting the surface and the fonts went. Only a
    /// bar that has not been started can start, and a failure leaves it done for.
    pub fn startup(&mut self, screen_width: u32, acquired: Acquired) -> (result: Result<
        (),
        HookInitError,
    >)
        ensures
            final(self)@ == old(self)@.started(screen_width, acquired),
            result == old(self)@.start_result(acquired),
    {
        proof {
            use_type_invariant(&*self);
        }
        match self.phase {
            Phase::Uninitialized => match acquired {
                Acquired::Ready => {
                    let n = self.tags.len();
                    let occupied = all_empty(n);
                    let focused = if n > 0 {
                        Some(0usize)
                    } else {
                        None
                    };
                    self.state = BarState { focused, occupied };
                    self.width = screen_width;
                    self.phase = Phase::Ready;
                    Ok(())
                },
                Acquired::NoSurface => {
                    self.phase = Phase::Terminated;
                    Err(HookInitError::SurfaceUnavailable)
                },
                Acquired::NoFont => {
                    self.phase = Phase::Terminated;
                    Err(HookInitError::FontUnavailable)
                },
            },
            _ => Err(HookInitError::NotUninitialized),
        }
    }

    /// Takes note that the focus went from the workspace `previous` to the
    /// workspace `new`, and says what to draw. `report` is what the window
    /// manager says of its workspaces now, and `extents` holds the width of each
    /// tag's label, in the order of the tags. What the bar kept of focus and
    /// occupancy before plays no part, and neither does `previous`.
    pub fn workspace_change(
        &mut self,
        previous: &str,
        new: &str,
        report: &Vec<Workspace>,
        extents: &Vec<Option<u32>>,
    ) -> (frame: Frame)
        ensures
            final(self)@ == old(self)@.moved(new@, reported(report@)),
            frame@ == final(self)@.frame(extents@),
    {
        proof {
            use_type_invariant(&*self);
        }
        match self.phase {
            Phase::Ready => {
                let focused = self.tags.position(new);
                let occupied = occupancy_of(&self.tags, report);
                self.state = BarState { focused, occupied };
            },
            _ => {},
        }
        self.redraw(extents)
    }

    /// Says what to draw after an event was handled: the whole bar as it
    /// stands where the surface needs repainting, and nothing where it does not.
    pub fn event_handled(&self, needs_repaint: bool, extents: &Vec<Option<u32>>) -> (frame: Frame)
        ensures
            frame@ == if needs_repaint {
                self@.frame(extents@)
            } else {
                FrameModel::nothing()
            },
    {
        if needs_repaint {
            self.redraw(extents)
        } else {
            nothing_to_draw()
        }
    }

    /// Tears the bar down. The result says whether a surface is to be released,
    /// which is so exactly when the bar was ready.
    pub fn teardown(&mut self) -> (release: bool)
        ensures
            final(self)@ == old(self)@.ended(),
            release == (old(self)@.phase is Ready),
    {
        proof {
            use_type_invariant(&*self);
        }
        let release = match self.phase {
            Phase::Ready => true,
            _ => false,
        };
        self.phase = Phase::Terminated;
        release
    }

    /// What the bar draws as it stands, where `extents` holds the width of each
    /// tag's label in units, in the order of the tags, and `None` for a label
    /// that could not be measured; a tag for which it holds no entry counts as
    /// not measured.
    pub fn redraw(&self, extents: &Vec<Option<u32>>) -> (frame: Frame)
        ensures
            frame@ == self@.frame(extents@),
    {
        proof {
            use_type_invariant(self);
        }
        match self.phase {
            Phase::Ready => {},
            _ => {
                return nothing_to_draw();
            },
        }
        let backdrop = self.fill_commands(self.style.bg(), units_of(self.width));
        let mut segments: Vec<Vec<DrawCommand>> = Vec::new();
        let n = self.tags.len();
        let mut i: usize = 0;
        while i < n
            invariant
                i <= n,
                n == self@.tags.len(),
                segments.len() == i,
                forall|j: int|
                    0 <= j < i ==> drawn(#[trigger] segments@[j]@) == self@.segment(
                        j,
                        extent_at(extents@, j),
                    ),
            decreases n - i,
        {
            let extent = if i < extents.len() {
                extents[i]
            } else {
                None
            };
            segments.push(self.segment_commands(i, extent));
            i += 1;
        }
        let mut finish: Vec<DrawCommand> = Vec::new();
        finish.push(DrawCommand::Flush);
        let frame = Frame { backdrop, segments, finish };
        assert(frame@.finish =~= seq![DrawCommandModel::Flush]);
        assert(frame@.segments =~= self@.frame(extents@).segments);
        frame
    }

    /// The steps that fill a rectangle of the bar's height.
    fn fill_commands(&self, fill: Option<Color>, width: u64) -> (commands: Vec<DrawCommand>)
        ensures
            drawn(commands@) == self@.filled(fill, width as int),
    {
        let mut commands: Vec<DrawCommand> = Vec::new();
        match fill {
            Some(c) => {
                commands.push(DrawCommand::SetColor(c));
                commands.push(
                    DrawCommand::Rectangle { x: 0, y: 0, width, height: units_of(self.height) },
                );
            },
            None => {},
        }
        assert(drawn(commands@) =~= self@.filled(fill, width as int));
        commands
    }

    /// The steps that draw the segment of the tag at place `i`.
    fn segment_commands(&self, i: usize, extent: Option<u32>) -> (commands: Vec<DrawCommand>)
        requires
            i < self@.tags.len(),
        ensures
            drawn(commands@) == self@.segment(i as int, extent),
    {
        proof {
            use_type_invariant(self);
        }
        let mut commands: Vec<DrawCommand> = Vec::new();
        let e = match extent {
            Some(e) => e,
            None => {
                assert(drawn(commands@) =~= Seq::empty());
                return commands;
            },
        };
        let label = match self.tags.get(i) {
            Some(l) => l,
            None => {
                return commands;
            },
        };
        let padding = self.style.padding();
        let span: u64 = e as u64 + 2 * (padding.horizontal as u64);
        let fill = if is_focus(self.state.focused, i) {
            Some(self.highlight)
        } else {
            self.style.bg()
        };
        let ink = if self.state.occupied[i] {
            self.style.fg()
        } else {
            self.empty
        };
        commands.push(
            DrawCommand::SelectFont {
                font: String::from_str(self.style.font()),
                size: self.style.size(),
            },
        );
        let mut filling = self.fill_commands(fill, span);
        let ghost head = drawn(commands@);
        let ghost middle = drawn(filling@);
        commands.append(&mut filling);
        assert(drawn(commands@) =~= head + middle);
        commands.push(DrawCommand::SetColor(ink));
        commands.push(DrawCommand::Text { label: String::from_str(label), padding });
        commands.push(DrawCommand::Translate { dx: span, dy: 0 });
        assert(drawn(commands@) =~= self@.segment(i as int, extent));
        commands
    }
}

/// Whether the focus is on the tag at place `i`.
fn is_focus(focused: Option<usize>, i: usize) -> (yes: bool)
    ensures
        yes == (focus_of(focused) == Some(i as int)),
{
    match focused {
        Some(f) => f == i,
        None => false,
    }
}

/// The occupancy of `n` tags that hold no window.
fn all_empty(n: usize) -> (occupied: Vec<bool>)
    ensures
        occupied@ == Seq::new(n as nat, |i: int| false),
{
    let mut occupied: Vec<bool> = Vec::new();
    let mut i: usize = 0;
    while i < n
        invariant
            i <= n,
            occupied.len() == i,
            forall|j: int| 0 <= j < i ==> !occupied@[j],
        decreases n - i,
    {
        occupied.push(false);
        i += 1;
    }
    assert(occupied@ =~= Seq::new(n as nat, |i: int| false));
    occupied
}

/// The frame in which nothing is drawn.
fn nothing_to_draw() -> (frame: Frame)
    ensures
        frame@ == FrameModel::nothing(),
{
    let frame = Frame { backdrop: Vec::new(), segments: Vec::new(), finish: Vec::new() };
    assert(frame@.backdrop =~= Seq::empty());
    assert(frame@.segments =~= Seq::empty());
    assert(frame@.finish =~= Seq::empty());
    frame
}

/// For each of `tags`, whether `report` says that it holds a window.
pub fn occupancy_of(tags: &TagList, report: &Vec<Workspace>) -> (occupied: Vec<bool>)
    ensures
        occupied@ == occupancy(tags@, reported(report@)),
{
    let ghost all = reported(report@);
    let mut occupied = all_empty(tags.len());
    let mut k: usize = 0;
    proof {
        use_type_invariant(tags);
        lemma_tags_distinct(*tags);
    }
    while k < report.len()
        invariant
            k <= report.len(),
            all == reported(report@),
            tags@.no_duplicates(),
            occupied.len() == tags@.len(),
            forall|i: int|
                0 <= i < tags@.len() ==> (#[trigger] occupied@[i] == has_clients(
                    all.take(k as int),
                    tags@[i],
                )),
        decreases report.len() - k,
    {
        let ghost before = occupied@;
        let ghost seen = all.take(k as int);
        let ghost next = all.take(k + 1);
        let mut hit: Option<usize> = None;
        if report[k].clients > 0 {
            hit = tags.position_of(&report[k].tag);
        }
        match hit {
            Some(p) => {
                occupied.set(p, true);
            },
            None => {},
        }
        proof {
            assert(next[k as int] == all[k as int]);
            assert forall|i: int| 0 <= i < tags@.len() implies (#[trigger] occupied@[i]
                == has_clients(next, tags@[i])) by {
                let tag = tags@[i];
                if has_clients(seen, tag) {
                    let w = choose|w: int|
                        0 <= w < seen.len() && (#[trigger] seen[w]).tag == tag && seen[w].clients > 0;
                    assert(next[w] == seen[w]);
                }
                if has_clients(next, tag) {
                    let w = choose|w: int|
                        0 <= w < next.len() && (#[trigger] next[w]).tag == tag && next[w].clients > 0;
                    if w < k {
                        assert(seen[w] == next[w]);
                    }
                }
                if all[k as int].clients > 0 && all[k as int].tag == tag {
                    assert(tags@.contains(tag));
                }
            }
        }
        k += 1;
    }
    assert(all.take(k as int) =~= all);
    assert(occupied@ =~= occupancy(tags@, all));
    occupied
}

/// After the focus went to a workspace, how a tag stands follows from the new
/// focus and from the report alone: the tag that is the new workspace has the
/// focus, and any other tag is occupied exactly when the report says that it
/// holds a window. What the bar kept before plays no part.
pub proof fn lemma_change_forgets_what_was_kept(
    bar: BarModel,
    other: BarModel,
    new: Seq<char>,
    report: Seq<WorkspaceModel>,
    i: int,
)
    requires
        bar.phase is Ready,
        bar.tags.no_duplicates(),
        0 <= i < bar.tags.len(),
        other == (BarModel { focused: other.focused, occupied: other.occupied, ..bar }),
    ensures
        bar.moved(new, report) == other.moved(new, report),
        bar.moved(new, report).state_of(i) == if bar.tags[i] == new {
            SegmentState::Focused
        } else if has_clients(report, bar.tags[i]) {
            SegmentState::Occupied
        } else {
            SegmentState::Empty
        },
{
    if bar.tags.contains(new) {
        let at = bar.tags.index_of(new);
        assert(bar.tags[at] == new);
    }
}

/// The life of a bar runs one way. A ready bar stays ready through every change
/// of workspace and cannot be started again; a bar that is done for stays so
/// whatever happens, and draws nothing.
pub proof fn lemma_life_runs_one_way(
    bar: BarModel,
    screen_width: u32,
    acquired: Acquired,
    new: Seq<char>,
    report: Seq<WorkspaceModel>,
    extents: Seq<Option<u32>>,
)
    ensures
        bar.phase is Ready ==> bar.moved(new, report).phase is Ready && bar.started(
            screen_width,
            acquired,
        ) == bar,
        bar.phase is Terminated ==> {
            &&& bar.started(screen_width, acquired) == bar
            &&& bar.moved(new, report) == bar
            &&& bar.ended() == bar
            &&& bar.frame(extents) == FrameModel::nothing()
        },
        bar.ended().phase is Terminated,
        bar.started(screen_width, acquired).phase is Ready <==> (bar.phase is Ready || (bar.phase
            is Uninitialized && acquired is Ready)),
{
}

/// A segment is drawn from its own tag and its own extent: where two lists of
/// extents agree on a tag, the two frames draw that tag's segment alike.
pub proof fn lemma_segments_stand_alone(
    bar: BarModel,
    extents: Seq<Option<u32>>,
    others: Seq<Option<u32>>,
    i: int,
)
    requires
        bar.phase is Ready,
        0 <= i < bar.tags.len(),
        extent_at(extents, i) == extent_at(others, i),
    ensures
        bar.frame(extents).segments[i] == bar.frame(others).segments[i],
        bar.frame(extents).backdrop == bar.frame(others).backdrop,
        bar.frame(extents).finish == bar.frame(others).finish,
{
}

/// A label that could not be measured costs its own segment and nothing else:
/// that segment is left out, every tag whose label was measured still has its
/// label drawn, and the frame still ends by flushing.
pub proof fn lemma_failure_costs_one_segment(bar: BarModel, extents: Seq<Option<u32>>, failed: int)
    requires
        bar.phase is Ready,
        0 <= failed < bar.tags.len(),
        extent_at(extents, failed) is None,
    ensures
        bar.frame(extents).segments.len() == bar.tags.len(),
        bar.frame(extents).segments[failed].len() == 0,
        forall|i: int|
            0 <= i < bar.tags.len() && extent_at(extents, i) is Some ==> (
            #[trigger] bar.frame(extents).segments[i]).contains(
                DrawCommandModel::Text { label: bar.tags[i], padding: bar.style.padding },
            ),
        bar.frame(extents).finish == seq![DrawCommandModel::Flush],
{
    assert forall|i: int| 0 <= i < bar.tags.len() && extent_at(extents, i) is Some implies (
    #[trigger] bar.frame(extents).segments[i]).contains(
        DrawCommandModel::Text { label: bar.tags[i], padding: bar.style.padding },
    ) by {
        let e = extent_at(extents, i)->0;
        let segment = bar.segment(i, Some(e));
        let text = DrawCommandModel::Text { label: bar.tags[i], padding: bar.style.padding };
        assert(segment[segment.len() - 2] == text);
    }
}

/// Whatever fails, no part is jumped over: the step that comes after a step
/// lies in the same part, or is the first step of the next part that has
/// steps. So the first step of every part that has steps is reached, and one
/// after the other its steps are carried out until one of them fails.
pub proof fn lemma_no_part_is_jumped_over(frame: FrameModel, at: Cursor, failed: bool, later: Part)
    requires
        frame.countable(),
        frame.rank(at.part) < frame.rank(later) <= frame.segments.len() + 1,
        frame.part(later).len() > 0,
    ensures
        frame.step_after(at, failed) is Some,
        ({
            let next = frame.step_after(at, failed)->0;
            &&& frame.rank(next.part) <= frame.rank(later)
            &&& next.part == at.part ==> !failed && next.step == at.step + 1
            &&& next.part != at.part ==> next.step == 0
            &&& next.step < frame.part(next.part).len()
        }),
{
    let from = match at.part {
        Part::Backdrop => 0int,
        Part::Segment(i) => i + 1,
        Part::Finish => 0int,
    };
    lemma_first_step_is_the_nearest(frame, from, later);
    assert(frame.part(at.part).len() <= usize::MAX);
}

/// The first step from a segment on lies in the nearest part that has steps.
proof fn lemma_first_step_is_the_nearest(frame: FrameModel, from: int, later: Part)
    requires
        frame.countable(),
        0 <= from,
        from + 1 <= frame.rank(later) <= frame.segments.len() + 1,
        frame.part(later).len() > 0,
    ensures
        frame.first_step_from(from) is Some,
        ({
            let first = frame.first_step_from(from)->0;
            &&& from + 1 <= frame.rank(first.part) <= frame.rank(later)
            &&& first.step == 0
            &&& frame.part(first.part).len() > 0
        }),
    decreases frame.segments.len() - from,
{
    if from < frame.segments.len() && frame.segments[from].len() == 0 {
        lemma_first_step_is_the_nearest(frame, from + 1, later);
    }
}

/// Every frame that is held can be counted.
pub proof fn lemma_held_frames_are_countable(frame: Frame)
    ensures
        frame@.countable(),
{
    assert(frame@.segments.len() == frame.segments.len());
    assert forall|part: Part| (#[trigger] frame@.part(part)).len() <= usize::MAX by {
        match part {
            Part::Backdrop => {
                assert(frame@.backdrop.len() == frame.backdrop.len());
            },
            Part::Segment(i) => {
                if i < frame@.segments.len() {
                    assert(frame@.segments[i as int].len() == frame.segments@[i as int].len());
                }
            },
            Part::Finish => {
                assert(frame@.finish.len() == frame.finish.len());
            },
        }
    }
}

} // verus!
