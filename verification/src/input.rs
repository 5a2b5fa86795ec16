//! What the mouse and the keyboard do: the tools of the left button, selections that are drawn
//! up, sources that are held, and which tool acts in a frame.
use vstd::prelude::*;
use crate::area::{spanned, Area};
use crate::single::{num, Single};
use crate::source::{first_touched, SourceSettings, WorldSourceType, WorldSources};
use crate::tools::{
    CLEAR_MOVABLE, ERASE_BRUSH, ERASE_RECT, GRAB_HOLD, GRAB_RELEASE, GRAB_START, IDLE, MODIFY,
    POINT_HOLD, POINT_RELEASE, POINT_START, SPRING_HOLD, SPRING_RELEASE, SPRING_START,
};

verus! {

/// The tool of the left mouse button.
#[derive(Clone, Copy, Debug, PartialEq, Eq, Structural)]
pub enum LeftClickMode {
    DragForce,
    DragPosition,
    PointDrag,
    Spawn,
    RectSpawn,
    LineSpawn,
    CopyRect,
    PasteClick,
    ModifyArea,
    PlaceSource,
    GrowthSpawn,
}

/// The tab of the tool menu on which a tool stands: 0 for moving, 1 for making, 2 for the rest.
pub open spec fn category_of(mode: LeftClickMode) -> int {
    match mode {
        LeftClickMode::DragForce
        | LeftClickMode::PointDrag
        | LeftClickMode::DragPosition
        | LeftClickMode::ModifyArea => 0,
        LeftClickMode::Spawn
        | LeftClickMode::RectSpawn
        | LeftClickMode::LineSpawn
        | LeftClickMode::GrowthSpawn => 1,
        LeftClickMode::PlaceSource
        | LeftClickMode::CopyRect
        | LeftClickMode::PasteClick => 2,
    }
}

/// The tool that a tab of the menu falls back to.
pub open spec fn first_tool(category: int) -> LeftClickMode {
    if category == 0 {
        LeftClickMode::DragForce
    } else if category == 1 {
        LeftClickMode::Spawn
    } else {
        LeftClickMode::PlaceSource
    }
}

/// The tool draws up a selection from corner to corner.
pub open spec fn selects(mode: LeftClickMode) -> bool {
    mode == LeftClickMode::RectSpawn || mode == LeftClickMode::LineSpawn || mode
        == LeftClickMode::CopyRect
}

/// Keys that are held down.
#[derive(Clone, Copy, Debug, PartialEq, Eq)]
pub struct Modifiers {
    pub shift: bool,
    pub ctrl: bool,
    pub alt: bool,
}

/// The tool that acts in a frame, and the rectangle it acts on.
#[derive(Clone, Copy, Debug, PartialEq, Eq)]
pub struct FrameTool {
    pub mode: u32,
    pub area: Area,
}

/// A selection drawn from one point to another.
#[derive(Clone, Copy, Debug, PartialEq, Eq)]
pub struct Stroke {
    pub from: [Single; 2],
    pub to: [Single; 2],
}

/// 0.001: turning the wheel by less than this does nothing.
pub const WHEEL_REST: u32 = 0x3a83_126f;

/// What turning the wheel changes.
#[derive(Clone, Copy, Debug, PartialEq, Eq, Structural)]
pub enum WheelTarget {
    Nothing,
    Radius,
    Zoom,
}

/// What turning the wheel changes: the radius of the tools with shift held, otherwise the zoom.
pub fn wheel_target(turned: Single, shift: bool) -> (r: WheelTarget)
    ensures
        r == if !num(WHEEL_REST).less(turned.absolute()) {
            WheelTarget::Nothing
        } else if shift {
            WheelTarget::Radius
        } else {
            WheelTarget::Zoom
        },
{
    if !turned.abs().gt(Single::from_bits(WHEEL_REST)) {
        WheelTarget::Nothing
    } else if shift {
        WheelTarget::Radius
    } else {
        WheelTarget::Zoom
    }
}

/// What a movement of the mouse does to the camera.
#[derive(Clone, Copy, Debug, PartialEq, Eq, Structural)]
pub enum PanAction {
    /// It is moved along, from where the cursor was last.
    Pan,
    /// The last place of the cursor is forgotten.
    Forget,
    /// Nothing.
    Keep,
}

/// Where the mouse and the tools stand.
#[derive(Clone, Copy)]
pub struct Interaction {
    pub left_pressed: bool,
    pub right_pressed: bool,
    pub mode: LeftClickMode,
    pub category: usize,
    pub paused: bool,
    /// A click of the spawning brush waits to be carried out.
    pub clicked_spawn: bool,
    /// Where the selection being drawn begins.
    pub rect_start: Option<[Single; 2]>,
    /// A rectangle waits to be filled.
    pub spawn_rect: Option<Stroke>,
    /// A line waits to be filled.
    pub spawn_line: Option<Stroke>,
    /// A rectangle waits to be copied.
    pub copy_box: Option<Area>,
    /// A point waits to be pasted at.
    pub paste_pos: Option<[Single; 2]>,
    /// The source that the left button holds.
    pub holding_source: Option<u32>,
    /// The source whose panel is open.
    pub selected_source: Option<u32>,
    /// All movable particles are to be removed.
    pub clear_movable: bool,
    /// Removed particles wait to be cleaned up.
    pub pending_gc: bool,
    pub last_left_pressed: bool,
    pub last_tool: u32,
}

/// What the left button leaves behind when it goes down or up at the cursor. `over_panel` tells
/// that a panel claims the mouse.
pub open spec fn after_left(
    s: Interaction,
    pressed: bool,
    cursor: [Single; 2],
    over_panel: bool,
) -> Interaction {
    let down = pressed && !s.left_pressed;
    let up = !pressed && s.left_pressed;
    let stroke = match s.rect_start {
        Some(start) if up => Some(Stroke { from: start, to: cursor }),
        _ => None,
    };
    Interaction {
        left_pressed: pressed,
        clicked_spawn: s.clicked_spawn || down && !over_panel && s.mode == LeftClickMode::Spawn,
        rect_start: if down && !over_panel && selects(s.mode) {
            Some(cursor)
        } else if up && selects(s.mode) {
            None
        } else {
            s.rect_start
        },
        spawn_rect: if stroke is Some && s.mode == LeftClickMode::RectSpawn {
            stroke
        } else {
            s.spawn_rect
        },
        spawn_line: if stroke is Some && s.mode == LeftClickMode::LineSpawn {
            stroke
        } else {
            s.spawn_line
        },
        copy_box: if stroke is Some && s.mode == LeftClickMode::CopyRect {
            Some(spanned((stroke->0).from@, cursor@))
        } else {
            s.copy_box
        },
        paste_pos: if down && s.mode == LeftClickMode::PasteClick {
            Some(cursor)
        } else {
            s.paste_pos
        },
        ..s
    }
}

/// The grab tool of a frame, given its numbers for taking hold, holding and letting go.
pub open spec fn grab_phase(s: Interaction, start: u32, hold: u32, release: u32) -> u32 {
    if s.left_pressed && !s.last_left_pressed {
        start
    } else if s.left_pressed && s.last_left_pressed {
        hold
    } else if !s.left_pressed && s.last_left_pressed {
        release
    } else {
        IDLE
    }
}

/// The tool of a frame before the modifying brush is looked at.
pub open spec fn base_tool(s: Interaction, keys: Modifiers) -> u32 {
    if s.clear_movable {
        CLEAR_MOVABLE
    } else if keys.shift {
        if s.spawn_rect is Some {
            ERASE_RECT
        } else if s.mode == LeftClickMode::Spawn && s.left_pressed {
            ERASE_BRUSH
        } else {
            IDLE
        }
    } else if keys.ctrl || keys.alt {
        IDLE
    } else if s.mode == LeftClickMode::DragForce {
        grab_phase(s, SPRING_START, SPRING_HOLD, SPRING_RELEASE)
    } else if s.mode == LeftClickMode::PointDrag {
        grab_phase(s, POINT_START, POINT_HOLD, POINT_RELEASE)
    } else if s.mode == LeftClickMode::DragPosition {
        grab_phase(s, GRAB_START, GRAB_HOLD, GRAB_RELEASE)
    } else {
        IDLE
    }
}

/// The tool of a frame. The modifying brush goes before everything else.
pub open spec fn frame_tool(s: Interaction, keys: Modifiers) -> FrameTool {
    FrameTool {
        mode: if s.mode == LeftClickMode::ModifyArea && s.left_pressed {
            MODIFY
        } else {
            base_tool(s, keys)
        },
        area: if !s.clear_movable && keys.shift && s.spawn_rect is Some {
            spanned((s.spawn_rect->0).from@, (s.spawn_rect->0).to@)
        } else {
            Area::origin()
        },
    }
}

/// What choosing the tool of a frame leaves behind: clearing is done once and asks for a clean-up,
/// and erasing takes the place of spawning.
pub open spec fn after_choice(s: Interaction, keys: Modifiers) -> Interaction {
    if s.clear_movable {
        Interaction { clear_movable: false, pending_gc: true, ..s }
    } else if keys.shift {
        Interaction { clicked_spawn: false, spawn_rect: None, ..s }
    } else {
        s
    }
}

/// The tool removes particles.
pub open spec fn erasing(mode: u32) -> bool {
    mode == ERASE_BRUSH || mode == ERASE_RECT || mode == CLEAR_MOVABLE
}

/// The end of a frame in which `tool` acted. The frame after an eraser acted asks for a clean-up.
pub open spec fn after_frame(s: Interaction, tool: u32) -> Interaction {
    Interaction {
        pending_gc: s.pending_gc || erasing(s.last_tool),
        last_tool: tool,
        last_left_pressed: s.left_pressed,
        ..s
    }
}

impl Interaction {
    /// No button pressed, nothing waiting, the spring tool chosen.
    pub fn new() -> (r: Self)
        ensures
            r == (Interaction {
                left_pressed: false,
                right_pressed: false,
                mode: LeftClickMode::DragForce,
                category: 0,
                paused: false,
                clicked_spawn: false,
                rect_start: None,
                spawn_rect: None,
                spawn_line: None,
                copy_box: None,
                paste_pos: None,
                holding_source: None,
                selected_source: None,
                clear_movable: false,
                pending_gc: false,
                last_left_pressed: false,
                last_tool: IDLE,
            }),
    {
        Interaction {
            left_pressed: false,
            right_pressed: false,
            mode: LeftClickMode::DragForce,
            category: 0,
            paused: false,
            clicked_spawn: false,
            rect_start: None,
            spawn_rect: None,
            spawn_line: None,
            copy_box: None,
            paste_pos: None,
            holding_source: None,
            selected_source: None,
            clear_movable: false,
            pending_gc: false,
            last_left_pressed: false,
            last_tool: IDLE,
        }
    }

    /// Opens a tab of the tool menu. A tool that does not stand on it gives way to its first.
    pub fn choose_category(&mut self, category: usize)
        requires
            category < 3,
        ensures
            *final(self) == (Interaction {
                category,
                mode: if category_of(old(self).mode) == category {
                    old(self).mode
                } else {
                    first_tool(category as int)
                },
                ..*old(self)
            }),
    {
        self.category = category;
        let own: usize = match self.mode {
            LeftClickMode::DragForce => 0,
            LeftClickMode::PointDrag => 0,
            LeftClickMode::DragPosition => 0,
            LeftClickMode::ModifyArea => 0,
            LeftClickMode::Spawn => 1,
            LeftClickMode::RectSpawn => 1,
            LeftClickMode::LineSpawn => 1,
            LeftClickMode::GrowthSpawn => 1,
            LeftClickMode::PlaceSource => 2,
            LeftClickMode::CopyRect => 2,
            LeftClickMode::PasteClick => 2,
        };
        if own != category {
            self.mode = if category == 0 {
                LeftClickMode::DragForce
            } else if category == 1 {
                LeftClickMode::Spawn
            } else {
                LeftClickMode::PlaceSource
            };
        }
    }

    /// Pauses, or goes on.
    pub fn toggle_pause(&mut self)
        ensures
            *final(self) == (Interaction { paused: !old(self).paused, ..*old(self) }),
    {
        self.paused = !self.paused;
    }

    /// A scene was loaded: it waits for the user to go on.
    pub fn scene_loaded(&mut self)
        ensures
            *final(self) == (Interaction { paused: true, ..*old(self) }),
    {
        self.paused = true;
    }

    /// A blueprint was loaded: the next click pastes it.
    pub fn blueprint_loaded(&mut self)
        ensures
            *final(self) == (Interaction { mode: LeftClickMode::PasteClick, ..*old(self) }),
    {
        self.mode = LeftClickMode::PasteClick;
    }

    /// The left button goes down or up. Returns whether a source is to be taken or placed.
    pub fn left_button(&mut self, pressed: bool, cursor: [Single; 2], over_panel: bool) -> (r: bool)
        ensures
            *final(self) == after_left(*old(self), pressed, cursor, over_panel),
            r == (pressed && !old(self).left_pressed && old(self).mode == LeftClickMode::PlaceSource
                && !over_panel),
    {
        let was: bool = self.left_pressed;
        self.left_pressed = pressed;
        let drawing: bool = self.mode == LeftClickMode::RectSpawn || self.mode
            == LeftClickMode::LineSpawn || self.mode == LeftClickMode::CopyRect;
        if pressed && !was {
            if !over_panel {
                if self.mode == LeftClickMode::Spawn {
                    self.clicked_spawn = true;
                }
                if drawing {
                    self.rect_start = Some(cursor);
                }
            }
            if self.mode == LeftClickMode::PasteClick {
                self.paste_pos = Some(cursor);
            }
        }
        if !pressed && was && drawing {
            match self.rect_start {
                Some(start) => {
                    if self.mode == LeftClickMode::RectSpawn {
                        self.spawn_rect = Some(Stroke { from: start, to: cursor });
                    } else if self.mode == LeftClickMode::LineSpawn {
                        self.spawn_line = Some(Stroke { from: start, to: cursor });
                    } else {
                        self.copy_box = Some(Area::between(start, cursor));
                    }
                },
                None => {},
            }
            self.rect_start = None;
        }
        pressed && !was && self.mode == LeftClickMode::PlaceSource && !over_panel
    }

    /// Takes hold of the first source that the cursor touches, or places a new one and takes hold
    /// of that.
    pub fn grab_or_place(
        &mut self,
        sources: &mut WorldSources,
        dists: &Vec<Single>,
        cursor: [Single; 2],
        settings: &SourceSettings,
    )
        requires
            old(sources).wf(),
            (forall|i: int| !first_touched(dists@, i)) ==> old(sources).next_id < u32::MAX,
            dists@.len() == old(sources).list@.len(),
        ensures
            final(sources).wf(),
            old(sources).distinct() ==> final(sources).distinct(),
            final(sources).list@.len() <= dists@.len() + 1,
            forall|i: int|
                first_touched(dists@, i) ==> *final(sources) == *old(sources) && *final(self)
                    == (Interaction {
                    holding_source: Some(old(sources).list@[i].id),
                    ..*old(self)
                }),
            (forall|i: int| !first_touched(dists@, i)) ==> {
                &&& *final(self) == (Interaction {
                    holding_source: Some(old(sources).next_id),
                    selected_source: Some(old(sources).next_id),
                    ..*old(self)
                })
                &&& final(sources).next_id == old(sources).next_id + 1
                &&& final(sources).list@.drop_last() == old(sources).list@
                &&& final(sources).list@.len() == old(sources).list@.len() + 1
                &&& final(sources).list@.last().id == old(sources).next_id
                &&& final(sources).list@.last().pos == cursor
                &&& final(sources).list@.last().radius == settings.radius
                &&& settings.makes(final(sources).list@.last().source_type)
            },
    {
        match sources.hit(dists) {
            Some(id) => {
                self.holding_source = Some(id);
            },
            None => {
                let id: u32 = sources.place(cursor, settings);
                self.selected_source = Some(id);
                self.holding_source = Some(id);
            },
        }
    }

    /// The right button goes down or up. Going down it drops the selection being drawn and, with
    /// the source tool, opens the panel of the source under the cursor, or closes it.
    pub fn right_button(&mut self, pressed: bool, touched: Option<u32>)
        ensures
            *final(self) == (Interaction {
                right_pressed: pressed,
                rect_start: if pressed {
                    None
                } else {
                    old(self).rect_start
                },
                selected_source: if pressed && old(self).mode == LeftClickMode::PlaceSource {
                    touched
                } else {
                    old(self).selected_source
                },
                ..*old(self)
            }),
    {
        self.right_pressed = pressed;
        if pressed {
            self.rect_start = None;
            if self.mode == LeftClickMode::PlaceSource {
                self.selected_source = touched;
            }
        }
    }

    /// What a movement of the mouse does to the camera: the right button moves it, unless a panel
    /// takes the movement or ctrl is held.
    pub fn pan_action(&self, consumed: bool, ctrl: bool) -> (r: PanAction)
        ensures
            r == if !self.right_pressed {
                PanAction::Forget
            } else if consumed || ctrl {
                PanAction::Keep
            } else {
                PanAction::Pan
            },
    {
        if self.right_pressed && !consumed && !ctrl {
            PanAction::Pan
        } else if !self.right_pressed {
            PanAction::Forget
        } else {
            PanAction::Keep
        }
    }

    /// Chooses the tool of a frame.
    pub fn choose_tool(&mut self, keys: &Modifiers) -> (r: FrameTool)
        ensures
            *final(self) == after_choice(*old(self), *keys),
            r == frame_tool(*old(self), *keys),
    {
        let mut mode: u32 = IDLE;
        let mut area: Area = Area::at_origin();
        if self.clear_movable {
            mode = CLEAR_MOVABLE;
            self.clear_movable = false;
            self.pending_gc = true;
        } else if keys.shift {
            self.clicked_spawn = false;
            if self.mode == LeftClickMode::Spawn && self.left_pressed {
                mode = ERASE_BRUSH;
            }
            match self.spawn_rect {
                Some(stroke) => {
                    mode = ERASE_RECT;
                    area = Area::between(stroke.from, stroke.to);
                    self.spawn_rect = None;
                },
                None => {},
            }
        } else if !keys.ctrl && !keys.alt {
            if self.mode == LeftClickMode::DragForce {
                mode = self.phase(SPRING_START, SPRING_HOLD, SPRING_RELEASE);
            } else if self.mode == LeftClickMode::PointDrag {
                mode = self.phase(POINT_START, POINT_HOLD, POINT_RELEASE);
            } else if self.mode == LeftClickMode::DragPosition {
                mode = self.phase(GRAB_START, GRAB_HOLD, GRAB_RELEASE);
            }
        }
        if self.mode == LeftClickMode::ModifyArea && self.left_pressed {
            mode = MODIFY;
        }
        FrameTool { mode, area }
    }

    /// The phase of a grab tool.
    fn phase(&self, start: u32, hold: u32, release: u32) -> (r: u32)
        ensures
            r == grab_phase(*self, start, hold, release),
    {
        if self.left_pressed && !self.last_left_pressed {
            start
        } else if self.left_pressed {
            hold
        } else if self.last_left_pressed {
            release
        } else {
            IDLE
        }
    }

    /// Carries the held source along with the cursor, or lets go of it when the button is up.
    pub fn carry_source(&mut self, sources: &mut WorldSources, cursor: [Single; 2])
        ensures
            old(sources).wf() ==> final(sources).wf(),
            old(sources).distinct() ==> final(sources).distinct(),
            old(self).left_pressed ==> *final(self) == *old(self),
            !old(self).left_pressed ==> *final(self) == (Interaction {
                holding_source: None,
                ..*old(self)
            }) && *final(sources) == *old(sources),
            old(self).holding_source is None ==> *final(sources) == *old(sources),
            old(self).left_pressed && old(self).holding_source is Some ==> {
                &&& final(sources).next_id == old(sources).next_id
                &&& final(sources).list@.len() == old(sources).list@.len()
                &&& forall|i: int|
                    0 <= i < final(sources).list@.len() ==> #[trigger] final(sources).list@[i]
                        == if crate::source::first_with(
                        old(sources).list@,
                        old(self).holding_source->0,
                        i,
                    ) {
                        (crate::source::WorldSource { pos: cursor, ..old(sources).list@[i] })
                    } else {
                        old(sources).list@[i]
                    }
            },
    {
        if self.left_pressed {
            match self.holding_source {
                Some(id) => {
                    sources.move_to(id, cursor);
                },
                None => {},
            }
        } else {
            self.holding_source = None;
        }
    }

    /// Whether the growth tool is at work.
    pub fn is_growing(&self, over_panel: bool) -> (r: bool)
        ensures
            r == (self.mode == LeftClickMode::GrowthSpawn && self.left_pressed && !over_panel),
    {
        self.mode == LeftClickMode::GrowthSpawn && self.left_pressed && !over_panel
    }

    /// Ends a frame in which `tool` acted. The frame after an eraser acted asks for a clean-up.
    pub fn end_frame(&mut self, tool: u32)
        ensures
            *final(self) == after_frame(*old(self), tool),
    {
        if self.last_tool == ERASE_BRUSH || self.last_tool == ERASE_RECT || self.last_tool
            == CLEAR_MOVABLE {
            self.pending_gc = true;
        }
        self.last_tool = tool;
        self.last_left_pressed = self.left_pressed;
    }

    /// Whether a clean-up is due; asking marks it as done.
    pub fn take_gc(&mut self) -> (r: bool)
        ensures
            r == old(self).pending_gc,
            *final(self) == (Interaction { pending_gc: false, ..*old(self) }),
    {
        let due: bool = self.pending_gc;
        self.pending_gc = false;
        due
    }
}

/// A press that is followed by frames without change is a take, holds for as long as the button
/// is down, and a release in the frame after it goes up: with the button down and before that up,
/// the tool starts; in the next frame with the button still down it holds; in the first frame
/// with the button up it lets go, and after that it is idle.
pub proof fn law_grab_runs_its_phases(s: Interaction, start: u32, hold: u32, release: u32)
    ensures
        ({
            let up = Interaction { left_pressed: false, last_left_pressed: false, ..s };
            let pressed = Interaction { left_pressed: true, last_left_pressed: false, ..s };
            let held = Interaction { left_pressed: true, last_left_pressed: true, ..s };
            let let_go = Interaction { left_pressed: false, last_left_pressed: true, ..s };
            &&& grab_phase(up, start, hold, release) == IDLE
            &&& grab_phase(pressed, start, hold, release) == start
            &&& grab_phase(held, start, hold, release) == hold
            &&& grab_phase(let_go, start, hold, release) == release
        }),
{
}

/// Clicking at one corner and letting go at the other selects the rectangle between them, and
/// nothing is left of the selection.
pub proof fn law_selection_ends_at_release(
    s: Interaction,
    from: [Single; 2],
    to: [Single; 2],
)
    requires
        !s.left_pressed,
        selects(s.mode),
    ensures
        ({
            let down = after_left(s, true, from, false);
            let up = after_left(down, false, to, false);
            &&& down.rect_start == Some(from)
            &&& up.rect_start is None
            &&& s.mode == LeftClickMode::RectSpawn ==> up.spawn_rect == Some(Stroke { from, to })
            &&& s.mode == LeftClickMode::LineSpawn ==> up.spawn_line == Some(Stroke { from, to })
            &&& s.mode == LeftClickMode::CopyRect ==> up.copy_box == Some(spanned(from@, to@))
        }),
{
}

/// With shift held, neither the brush nor a rectangle spawns: a rectangle that was drawn erases
/// instead. A line is not affected.
pub proof fn law_shift_never_spawns(s: Interaction, keys: Modifiers)
    requires
        keys.shift,
        !s.clear_movable,
    ensures
        !after_choice(s, keys).clicked_spawn,
        after_choice(s, keys).spawn_rect is None,
        after_choice(s, keys).spawn_line == s.spawn_line,
        s.spawn_rect is Some && s.mode != LeftClickMode::ModifyArea ==> frame_tool(s, keys).mode
            == ERASE_RECT,
{
}

/// A tool that removes particles is followed by a clean-up at the end of the next frame at the
/// latest, even where one was made just before it acted.
pub proof fn law_erasing_is_cleaned_up(s: Interaction, tool: u32, next_tool: u32)
    requires
        erasing(tool),
    ensures
        ({
            let cleaned = Interaction { pending_gc: false, ..after_frame(s, tool) };
            after_frame(cleaned, next_tool).pending_gc
        }),
{
}

/// The wheel does nothing below 0.001 either way, sizes the tools with shift and zooms without.
pub proof fn law_wheel_sizes_or_zooms(turned: Single, shift: bool, r: WheelTarget)
    requires
        call_ensures(wheel_target, (turned, shift), r),
    ensures
        r is Nothing <==> !num(0x3a83_126f).less(num((turned.bits % 0x8000_0000) as u32)),
        r is Radius ==> shift,
        r is Zoom ==> !shift,
{
}

/// At first no button is down, nothing waits, nothing is paused, and the spring tool is chosen.
pub proof fn law_nothing_waits_at_first(r: Interaction)
    requires
        call_ensures(Interaction::new, (), r),
    ensures
        !r.left_pressed && !r.right_pressed && !r.last_left_pressed,
        r.mode is DragForce && r.category == 0,
        !r.paused && !r.clicked_spawn && !r.clear_movable && !r.pending_gc,
        r.rect_start is None && r.spawn_rect is None && r.spawn_line is None && r.copy_box is None
            && r.paste_pos is None,
        r.holding_source is None && r.selected_source is None,
        r.last_tool == 0,
{
}

/// Opening a tab keeps a tool that stands on it and otherwise takes the first tool of the tab;
/// nothing else changes.
pub proof fn law_tabs_keep_their_tools(s: &mut Interaction, category: usize, done: ())
    requires
        category < 3,
        call_ensures(Interaction::choose_category, (s, category), done),
    ensures
        ({
            let mode = old(s).mode;
            let moving = mode is DragForce || mode is PointDrag || mode is DragPosition
                || mode is ModifyArea;
            let making = mode is Spawn || mode is RectSpawn || mode is LineSpawn
                || mode is GrowthSpawn;
            let other = mode is PlaceSource || mode is CopyRect || mode is PasteClick;
            let stays = category == 0 && moving || category == 1 && making || category == 2 && other;
            &&& stays ==> final(s).mode == mode
            &&& !stays && category == 0 ==> final(s).mode is DragForce
            &&& !stays && category == 1 ==> final(s).mode is Spawn
            &&& !stays && category == 2 ==> final(s).mode is PlaceSource
        }),
        *final(s) == (Interaction { category, mode: final(s).mode, ..*old(s) }),
{
}

/// Pausing twice is no change; a loaded scene waits; a loaded blueprint is pasted next. None of them
/// changes anything else.
pub proof fn law_pause_and_loading(
    s: &mut Interaction,
    again: &mut Interaction,
    scene: &mut Interaction,
    blueprint: &mut Interaction,
    done: (),
)
    requires
        call_ensures(Interaction::toggle_pause, (s,), done),
        *old(again) == *final(s),
        call_ensures(Interaction::toggle_pause, (again,), done),
        call_ensures(Interaction::scene_loaded, (scene,), done),
        call_ensures(Interaction::blueprint_loaded, (blueprint,), done),
    ensures
        final(s).paused != old(s).paused,
        *final(s) == (Interaction { paused: final(s).paused, ..*old(s) }),
        *final(again) == *old(s),
        final(scene).paused,
        *final(scene) == (Interaction { paused: true, ..*old(scene) }),
        final(blueprint).mode is PasteClick,
        *final(blueprint) == (Interaction { mode: final(blueprint).mode, ..*old(blueprint) }),
{
}

/// The left button, going down, does what its tool does: the brush spawns, a selecting tool begins at
/// the cursor, the paste tool pastes there and the source tool takes or places a source. A panel
/// under the cursor keeps all but the paste tool from it. A button that was down already does
/// nothing.
pub proof fn law_left_button_goes_down(
    s: &mut Interaction,
    cursor: [Single; 2],
    over_panel: bool,
    r: bool,
)
    requires
        call_ensures(Interaction::left_button, (s, true, cursor, over_panel), r),
    ensures
        ({
            let first = !old(s).left_pressed;
            let mode = old(s).mode;
            &&& final(s).left_pressed
            &&& r == (first && !over_panel && mode is PlaceSource)
            &&& final(s).clicked_spawn == (old(s).clicked_spawn || first && !over_panel
                && mode is Spawn)
            &&& final(s).rect_start == if first && !over_panel && (mode is RectSpawn
                || mode is LineSpawn || mode is CopyRect) {
                Some(cursor)
            } else {
                old(s).rect_start
            }
            &&& final(s).paste_pos == if first && mode is PasteClick {
                Some(cursor)
            } else {
                old(s).paste_pos
            }
        }),
        *final(s) == (Interaction {
            left_pressed: final(s).left_pressed,
            clicked_spawn: final(s).clicked_spawn,
            rect_start: final(s).rect_start,
            paste_pos: final(s).paste_pos,
            ..*old(s)
        }),
{
}

/// The left button, going up, ends the selection that was begun: what lies between its beginning and
/// the cursor waits to be filled, lined or copied, by the tool. Without one nothing waits.
pub proof fn law_left_button_goes_up(
    s: &mut Interaction,
    cursor: [Single; 2],
    over_panel: bool,
    r: bool,
    area: Area,
)
    requires
        call_ensures(Interaction::left_button, (s, false, cursor, over_panel), r),
        old(s).rect_start is Some ==> call_ensures(
            Area::between,
            (old(s).rect_start->0, cursor),
            area,
        ),
    ensures
        ({
            let mode = old(s).mode;
            let ends = old(s).left_pressed && old(s).rect_start is Some;
            &&& !final(s).left_pressed
            &&& !r
            &&& final(s).spawn_rect == if ends && mode is RectSpawn {
                Some(Stroke { from: old(s).rect_start->0, to: cursor })
            } else {
                old(s).spawn_rect
            }
            &&& final(s).spawn_line == if ends && mode is LineSpawn {
                Some(Stroke { from: old(s).rect_start->0, to: cursor })
            } else {
                old(s).spawn_line
            }
            &&& final(s).copy_box == if ends && mode is CopyRect {
                Some(area)
            } else {
                old(s).copy_box
            }
            &&& final(s).rect_start == if old(s).left_pressed && (mode is RectSpawn
                || mode is LineSpawn || mode is CopyRect) {
                None
            } else {
                old(s).rect_start
            }
        }),
        *final(s) == (Interaction {
            left_pressed: final(s).left_pressed,
            rect_start: final(s).rect_start,
            spawn_rect: final(s).spawn_rect,
            spawn_line: final(s).spawn_line,
            copy_box: final(s).copy_box,
            ..*old(s)
        }),
{
}

/// The source tool holds the first source that the cursor touches, as it is; where there is none, it
/// places one, selects it and holds that.
pub proof fn law_source_is_taken_or_placed(
    s: &mut Interaction,
    sources: &mut WorldSources,
    dists: Vec<Single>,
    cursor: [Single; 2],
    settings: SourceSettings,
    done: (),
    t: WorldSourceType,
    i: int,
    j: int,
)
    requires
        old(sources).wf(),
        old(sources).next_id < u32::MAX,
        dists@.len() == old(sources).list@.len(),
        call_ensures(
            Interaction::grab_or_place,
            (s, sources, &dists, cursor, &settings),
            done,
        ),
        call_ensures(SourceSettings::source_type, (&settings,), t),
        0 <= j < old(sources).list@.len() || old(sources).list@.len() == 0,
    ensures
        0 <= i < dists@.len() && dists@[i].less(num(0x3f80_0000)) && (forall|k: int|
            0 <= k < i ==> !(#[trigger] dists@[k]).less(num(0x3f80_0000))) ==> {
            &&& *final(sources) == *old(sources)
            &&& *final(s) == (Interaction {
                holding_source: Some(old(sources).list@[i].id),
                ..*old(s)
            })
        },
        (forall|k: int| 0 <= k < dists@.len() ==> !(#[trigger] dists@[k]).less(num(0x3f80_0000)))
            ==> {
            let placed = final(sources).list@[old(sources).list@.len() as int];
            &&& *final(s) == (Interaction {
                holding_source: Some(old(sources).next_id),
                selected_source: Some(old(sources).next_id),
                ..*old(s)
            })
            &&& final(sources).next_id == old(sources).next_id + 1
            &&& final(sources).list@.len() == old(sources).list@.len() + 1
            &&& old(sources).list@.len() > 0 ==> final(sources).list@[j] == old(sources).list@[j]
            &&& placed.id == old(sources).next_id
            &&& placed.pos == cursor
            &&& placed.radius == settings.radius
            &&& settings.kind == 0 ==> placed.source_type is Light && placed.source_type->color@
                == t->color@ && placed.source_type->intensity == t->intensity
            &&& settings.kind != 0 ==> placed.source_type == t
        },
{
    if 0 <= i < dists@.len() && dists@[i].less(num(0x3f80_0000)) && (forall|k: int|
        0 <= k < i ==> !(#[trigger] dists@[k]).less(num(0x3f80_0000))) {
        assert(first_touched(dists@, i));
    }
    if forall|k: int| 0 <= k < dists@.len() ==> !(#[trigger] dists@[k]).less(num(0x3f80_0000)) {
        assert forall|k: int| !first_touched(dists@, k) by {}
        if old(sources).list@.len() > 0 {
            assert(final(sources).list@.drop_last()[j] == final(sources).list@[j]);
        }
    }
}

/// The right button, going down, drops the selection and opens or closes the panel of a source; it
/// moves the camera while it is down, unless a panel or ctrl keeps it, and forgets the cursor when it
/// is up.
pub proof fn law_right_button_drops_and_pans(
    s: &mut Interaction,
    pressed: bool,
    touched: Option<u32>,
    done: (),
    any: Interaction,
    consumed: bool,
    ctrl: bool,
    action: PanAction,
)
    requires
        call_ensures(Interaction::right_button, (s, pressed, touched), done),
        call_ensures(Interaction::pan_action, (&any, consumed, ctrl), action),
    ensures
        final(s).right_pressed == pressed,
        pressed ==> final(s).rect_start is None,
        !pressed ==> final(s).rect_start == old(s).rect_start,
        pressed && old(s).mode is PlaceSource ==> final(s).selected_source == touched,
        !(pressed && old(s).mode is PlaceSource) ==> final(s).selected_source == old(s).selected_source,
        *final(s) == (Interaction {
            right_pressed: pressed,
            rect_start: final(s).rect_start,
            selected_source: final(s).selected_source,
            ..*old(s)
        }),
        action is Pan <==> any.right_pressed && !consumed && !ctrl,
        action is Forget <==> !any.right_pressed,
{
}

/// The tool of a frame. The modifying brush goes before everything, then the clearing of what can be
/// moved. With shift a drawn rectangle is erased, or the spawning brush erases. With ctrl or alt
/// nothing acts. Otherwise a grab tool takes hold when the button has gone down, holds while it is
/// down, and lets go when it has gone up.
pub proof fn law_tool_of_a_frame(s: &mut Interaction, keys: Modifiers, r: FrameTool, area: Area)
    requires
        call_ensures(Interaction::choose_tool, (s, &keys), r),
        old(s).spawn_rect is Some ==> call_ensures(
            Area::between,
            (old(s).spawn_rect->0.from, old(s).spawn_rect->0.to),
            area,
        ),
    ensures
        ({
            let mode = old(s).mode;
            let down = old(s).left_pressed;
            let was = old(s).last_left_pressed;
            let brush = mode is ModifyArea && down;
            let clears = old(s).clear_movable;
            let free = !brush && !clears && !keys.shift && !keys.ctrl && !keys.alt;
            let grabs = mode is DragForce || mode is PointDrag || mode is DragPosition;
            let start: u32 = if mode is DragForce {
                7
            } else if mode is PointDrag {
                10
            } else {
                2
            };
            &&& brush ==> r.mode == 13
            &&& !brush && clears ==> r.mode == 14
            &&& !brush && !clears && keys.shift && old(s).spawn_rect is Some ==> r.mode == 6
            &&& !brush && !clears && keys.shift && old(s).spawn_rect is None && mode is Spawn && down
                ==> r.mode == 5
            &&& !brush && !clears && keys.shift && old(s).spawn_rect is None && !(mode is Spawn
                && down) ==> r.mode == 0
            &&& !brush && !clears && !keys.shift && (keys.ctrl || keys.alt) ==> r.mode == 0
            &&& free && grabs && down && !was ==> r.mode == start
            &&& free && grabs && down && was ==> r.mode == start + 1
            &&& free && grabs && !down && was ==> r.mode == start + 2
            &&& free && grabs && !down && !was ==> r.mode == 0
            &&& free && !grabs ==> r.mode == 0
            &&& !clears && keys.shift && old(s).spawn_rect is Some ==> r.area == area
            &&& clears || !keys.shift || old(s).spawn_rect is None ==> {
                &&& r.area.min_x.bits == 0
                &&& r.area.max_x.bits == 0
                &&& r.area.min_y.bits == 0
                &&& r.area.max_y.bits == 0
            }
            &&& clears ==> *final(s) == (Interaction {
                clear_movable: false,
                pending_gc: true,
                ..*old(s)
            })
            &&& !clears && keys.shift ==> *final(s) == (Interaction {
                clicked_spawn: false,
                spawn_rect: None,
                ..*old(s)
            })
            &&& !clears && !keys.shift ==> *final(s) == *old(s)
        }),
{
}

/// A held source goes along with the cursor while the button is down, and is let go when it is up.
/// No other source moves.
pub proof fn law_held_source_goes_along(
    s: &mut Interaction,
    sources: &mut WorldSources,
    cursor: [Single; 2],
    done: (),
    moved: &mut WorldSources,
    i: int,
)
    requires
        call_ensures(Interaction::carry_source, (s, sources, cursor), done),
        *old(moved) == *old(sources),
        old(s).holding_source is Some ==> call_ensures(
            WorldSources::move_to,
            (moved, old(s).holding_source->0, cursor),
            done,
        ),
        0 <= i < old(sources).list@.len(),
    ensures
        old(s).left_pressed ==> *final(s) == *old(s),
        !old(s).left_pressed ==> *final(s) == (Interaction { holding_source: None, ..*old(s) }),
        !old(s).left_pressed || old(s).holding_source is None ==> *final(sources) == *old(sources),
        old(s).left_pressed && old(s).holding_source is Some ==> {
            &&& final(sources).list@.len() == final(moved).list@.len()
            &&& final(sources).next_id == final(moved).next_id
            &&& final(sources).list@[i] == final(moved).list@[i]
        },
{
    let _ = final(sources).list@[i];
    let _ = final(moved).list@[i];
}

/// The growth tool works while its button is down outside the panels.
pub proof fn law_growth_works_outside_panels(s: Interaction, over_panel: bool, r: bool)
    requires
        call_ensures(Interaction::is_growing, (&s, over_panel), r),
    ensures
        r == (s.mode is GrowthSpawn && s.left_pressed && !over_panel),
{
}

/// Ending a frame notes its tool and its button, and asks for a clean-up after a frame in which
/// something was erased. Asking whether one is due marks it as done.
pub proof fn law_frame_ends_with_notes(
    s: &mut Interaction,
    tool: u32,
    done: (),
    asked: &mut Interaction,
    due: bool,
)
    requires
        call_ensures(Interaction::end_frame, (s, tool), done),
        call_ensures(Interaction::take_gc, (asked,), due),
    ensures
        final(s).last_tool == tool,
        final(s).last_left_pressed == old(s).left_pressed,
        final(s).pending_gc == (old(s).pending_gc || old(s).last_tool == 5 || old(s).last_tool == 6
            || old(s).last_tool == 14),
        *final(s) == (Interaction {
            last_tool: final(s).last_tool,
            last_left_pressed: final(s).last_left_pressed,
            pending_gc: final(s).pending_gc,
            ..*old(s)
        }),
        due == old(asked).pending_gc,
        *final(asked) == (Interaction { pending_gc: false, ..*old(asked) }),
{
}

} // verus!
