use vstd::prelude::*;
use crate::color::Color;
use crate::geometry::{Point, IntRect, clamp_position};
use crate::line::{line_fits, line_fits_check};
use crate::pixels::{Pixels, Points};
use crate::whiteboard::{
    Whiteboard, Change, undo_result, redo_result, commit_result, lemma_width_value,
};
use crate::stroke::{ToolMode, shift_fits, shift_fits_check, mouse_movement, mouse_movement_result};

verus! {

/// The keys that the whiteboard reacts to.
#[derive(Clone, Copy, PartialEq, Eq, Structural, Debug)]
pub enum Key {
    Escape,
    E,
    B,
    U,
    R,
    Space,
    Other,
}

/// An input event, as the whiteboard sees it.
#[derive(Clone, Copy, PartialEq, Eq, Structural, Debug)]
pub enum InputEvent {
    Quit,
    KeyDown(Key),
    KeyUp(Key),
    MouseButtonDown,
    MouseButtonUp,
    /// The mouse moved to the given window position.
    MouseMotion(i32, i32),
    WindowResized,
    Other,
}

/// What the caller does after an event: stop, redraw the strokes, move the
/// canvas on screen, or recompute the canvas placement after a resize.
#[derive(Clone, Copy, PartialEq, Eq, Structural, Debug)]
pub struct EventOutcome {
    pub quit: bool,
    pub needs_draw: bool,
    pub canvas_moved: bool,
    pub resized: bool,
}

/// The state of an editing session: the whiteboard, the tool in use and the
/// one to go back to after moving the canvas, whether the mouse button is
/// held, the last mouse position, the stroke being drawn, and the drawing
/// colour.
pub struct Session {
    pub whiteboard: Whiteboard,
    pub tool_mode: ToolMode,
    pub old_tool: ToolMode,
    pub mouse_held_down: bool,
    pub point2: Option<Point>,
    pub change: Option<Change>,
    pub current_color: Color,
}

/// The outcome that asks for nothing.
pub open spec fn no_outcome() -> EventOutcome {
    EventOutcome { quit: false, needs_draw: false, canvas_moved: false, resized: false }
}

/// The point that `Point::new` makes of `(x, y)`.
pub open spec fn clamped_point(x: i32, y: i32) -> Point {
    Point { x: clamp_position(x as int) as i32, y: clamp_position(y as int) as i32 }
}

/// Whether the stroke of the session is a new, empty stroke of the given tool.
pub open spec fn is_empty_stroke(c: Option<Change>, tool: ToolMode) -> bool {
    match c {
        Some(Change::Pencil { old, new }) => tool == ToolMode::Pencil && old@.is_empty()
            && new@.is_empty(),
        Some(Change::Eraser { new, old }) => tool == ToolMode::Eraser && old@.is_empty()
            && new@.is_empty(),
        None => false,
    }
}

/// What `handle_event` does to the session `s` and the texture `tex`, giving
/// `s2`, `tex2` and `out`.
pub open spec fn handle_event_result(
    s: Session,
    event: InputEvent,
    tex: Seq<u8>,
    s2: Session,
    tex2: Seq<u8>,
    out: EventOutcome,
) -> bool {
    match event {
        InputEvent::Quit | InputEvent::KeyDown(Key::Escape) => {
            &&& out == EventOutcome { quit: true, ..no_outcome() }
            &&& s2 == s
            &&& tex2 == tex
        },
        InputEvent::MouseButtonDown => {
            &&& out == no_outcome()
            &&& tex2 == tex
            &&& s2.mouse_held_down
            &&& s2.whiteboard == s.whiteboard
            &&& s2.tool_mode == s.tool_mode
            &&& s2.old_tool == s.old_tool
            &&& s2.point2 == s.point2
            &&& s2.current_color == s.current_color
            &&& if s.change is None && (s.tool_mode == ToolMode::Pencil || s.tool_mode
                == ToolMode::Eraser) {
                is_empty_stroke(s2.change, s.tool_mode)
            } else {
                s2.change == s.change
            }
        },
        InputEvent::MouseButtonUp => {
            &&& out == no_outcome()
            &&& tex2 == tex
            &&& !s2.mouse_held_down
            &&& s2.point2 is None
            &&& s2.change is None
            &&& s2.tool_mode == s.tool_mode
            &&& s2.old_tool == s.old_tool
            &&& s2.current_color == s.current_color
            &&& match s.change {
                Some(c) => commit_result(s.whiteboard, c, s2.whiteboard),
                None => s2.whiteboard == s.whiteboard,
            }
        },
        InputEvent::KeyDown(Key::E) => {
            &&& out == no_outcome()
            &&& tex2 == tex
            &&& s2 == Session { tool_mode: ToolMode::Eraser, ..s }
        },
        InputEvent::KeyDown(Key::B) => {
            &&& out == no_outcome()
            &&& tex2 == tex
            &&& s2 == Session { tool_mode: ToolMode::Pencil, ..s }
        },
        InputEvent::KeyDown(Key::U) => {
            &&& out == no_outcome()
            &&& undo_result(s.whiteboard, tex, s2.whiteboard, tex2)
            &&& s2 == Session { whiteboard: s2.whiteboard, ..s }
        },
        InputEvent::KeyDown(Key::R) => {
            &&& out == no_outcome()
            &&& redo_result(s.whiteboard, tex, s2.whiteboard, tex2)
            &&& s2 == Session { whiteboard: s2.whiteboard, ..s }
        },
        InputEvent::KeyDown(Key::Space) => {
            &&& out == no_outcome()
            &&& tex2 == tex
            &&& s2 == Session {
                tool_mode: ToolMode::MovingCanvas,
                old_tool: if s.tool_mode != ToolMode::MovingCanvas {
                    s.tool_mode
                } else {
                    s.old_tool
                },
                ..s
            }
        },
        InputEvent::KeyUp(Key::Space) => {
            &&& out == no_outcome()
            &&& tex2 == tex
            &&& s2 == Session { tool_mode: s.old_tool, ..s }
        },
        InputEvent::WindowResized => {
            &&& out == EventOutcome { resized: true, ..no_outcome() }
            &&& tex2 == tex
            &&& s2.whiteboard.data.canvas_bounds == (IntRect {
                x1: 0,
                y1: 0,
                x2: s.whiteboard.spec_width() as i32,
                y2: s.whiteboard.spec_height() as i32,
            })
            &&& s2.whiteboard.data.data == s.whiteboard.data.data
            &&& s2.whiteboard.bgcolor == s.whiteboard.bgcolor
            &&& s2.whiteboard.changes == s.whiteboard.changes
            &&& s2.whiteboard.changes_index == s.whiteboard.changes_index
            &&& s2 == Session { whiteboard: s2.whiteboard, ..s }
        },
        InputEvent::MouseMotion(x, y) => {
            let p1 = clamped_point(x, y);
            &&& s2.point2 == Some(p1)
            &&& s2.tool_mode == s.tool_mode
            &&& s2.old_tool == s.old_tool
            &&& s2.mouse_held_down == s.mouse_held_down
            &&& s2.current_color == s.current_color
            &&& match s.point2 {
                Some(p2) if s.mouse_held_down => {
                    &&& out == EventOutcome {
                        needs_draw: s.tool_mode == ToolMode::Pencil || s.tool_mode
                            == ToolMode::Eraser,
                        canvas_moved: s.tool_mode == ToolMode::MovingCanvas,
                        ..no_outcome()
                    }
                    &&& mouse_movement_result(
                        s.whiteboard,
                        p1,
                        p2,
                        s.tool_mode,
                        s.current_color,
                        tex,
                        s.change,
                        s2.whiteboard,
                        tex2,
                        s2.change,
                    )
                },
                _ => {
                    &&& out == no_outcome()
                    &&& s2.whiteboard == s.whiteboard
                    &&& s2.change == s.change
                    &&& tex2 == tex
                },
            }
        },
        _ => {
            &&& out == no_outcome()
            &&& tex2 == tex
            &&& s2 == s
        },
    }
}

impl Session {
    /// A session on `whiteboard`, drawing in white with the pencil.
    pub fn new(whiteboard: Whiteboard) -> (s: Session)
        requires
            whiteboard.wf(),
        ensures
            s.wf(),
            s.whiteboard == whiteboard,
            s.tool_mode == ToolMode::Pencil,
            s.old_tool == ToolMode::Idle,
            !s.mouse_held_down,
            s.point2 is None,
            s.change is None,
            s.current_color == (Color { r: 255, g: 255, b: 255, a: 255 }),
    {
        Session {
            whiteboard,
            tool_mode: ToolMode::Pencil,
            old_tool: ToolMode::Idle,
            mouse_held_down: false,
            point2: None,
            change: None,
            current_color: Color::rgb(255, 255, 255),
        }
    }

    /// The session's invariant: the whiteboard's holds, the last mouse
    /// position is one that `Point::new` makes, and the stroke being drawn
    /// lies on the canvas.
    pub open spec fn wf(&self) -> bool {
        &&& self.whiteboard.wf()
        &&& self.point2 matches Some(p) ==> p.in_range()
        &&& self.change matches Some(c) ==> c.on_canvas(
            self.whiteboard.spec_width(),
            self.whiteboard.spec_height(),
        )
    }

    /// Whether handling `event` stays within `i32` arithmetic: a mouse motion
    /// with the button held needs a line that `make_line` can draw, or a
    /// canvas shift that keeps the canvas edges in `i32`.
    pub open spec fn spec_can_handle(&self, event: InputEvent) -> bool {
        match event {
            InputEvent::MouseMotion(x, y) => {
                let p1 = clamped_point(x, y);
                match self.point2 {
                    Some(p2) if self.mouse_held_down => match self.tool_mode {
                        ToolMode::Pencil | ToolMode::Eraser => line_fits(p1, p2),
                        ToolMode::MovingCanvas => shift_fits(
                            self.whiteboard.data.canvas_bounds,
                            p1.x - p2.x,
                            p1.y - p2.y,
                        ),
                        ToolMode::Idle => true,
                    },
                    _ => true,
                }
            },
            _ => true,
        }
    }

    /// Tells whether `spec_can_handle(*event)`.
    pub fn can_handle(&self, event: &InputEvent) -> (b: bool)
        requires
            self.wf(),
        ensures
            b == self.spec_can_handle(*event),
    {
        match *event {
            InputEvent::MouseMotion(x, y) => {
                let p1 = Point::new(x, y);
                match self.point2 {
                    Some(p2) => {
                        if self.mouse_held_down {
                            match self.tool_mode {
                                ToolMode::Pencil | ToolMode::Eraser => line_fits_check(&p1, &p2),
                                ToolMode::MovingCanvas => shift_fits_check(
                                    &self.whiteboard.data.canvas_bounds,
                                    p1.x - p2.x,
                                    p1.y - p2.y,
                                ),
                                ToolMode::Idle => true,
                            }
                        } else {
                            true
                        }
                    },
                    None => true,
                }
            },
            _ => true,
        }
    }

    /// Handles one input event, drawing into `texture` as the tool does, and
    /// tells the caller what to do next.
    pub fn handle_event(&mut self, event: &InputEvent, texture: &mut [u8]) -> (out: EventOutcome)
        requires
            old(self).wf(),
            old(self).spec_can_handle(*event),
        ensures
            final(self).wf(),
            handle_event_result(*old(self), *event, old(texture)@, *final(self), final(texture)@, out),
    {
        let none = EventOutcome { quit: false, needs_draw: false, canvas_moved: false, resized: false };
        match *event {
            InputEvent::Quit | InputEvent::KeyDown(Key::Escape) => EventOutcome { quit: true, ..none },
            InputEvent::MouseButtonDown => {
                self.mouse_held_down = true;
                match self.tool_mode {
                    ToolMode::Pencil => {
                        if self.change.is_none() {
                            self.change = Some(Change::Pencil { old: Pixels::new(), new: Pixels::new() });
                        }
                    },
                    ToolMode::Eraser => {
                        if self.change.is_none() {
                            self.change = Some(Change::Eraser { old: Pixels::new(), new: Points::new() });
                        }
                    },
                    _ => {},
                }
                none
            },
            InputEvent::MouseButtonUp => {
                self.mouse_held_down = false;
                self.point2 = None;
                let pending = self.change.take();
                match pending {
                    Some(c) => {
                        self.whiteboard.commit(c);
                    },
                    None => {},
                }
                none
            },
            InputEvent::KeyDown(Key::E) => {
                self.tool_mode = ToolMode::Eraser;
                none
            },
            InputEvent::KeyDown(Key::B) => {
                self.tool_mode = ToolMode::Pencil;
                none
            },
            InputEvent::KeyDown(Key::U) => {
                self.whiteboard.undo(texture);
                none
            },
            InputEvent::KeyDown(Key::R) => {
                self.whiteboard.redo(texture);
                none
            },
            InputEvent::KeyDown(Key::Space) => {
                if self.tool_mode != ToolMode::MovingCanvas {
                    self.old_tool = self.tool_mode;
                }
                self.tool_mode = ToolMode::MovingCanvas;
                none
            },
            InputEvent::KeyUp(Key::Space) => {
                self.tool_mode = self.old_tool;
                none
            },
            InputEvent::WindowResized => {
                let width = self.whiteboard.width();
                let height = self.whiteboard.height();
                proof {
                    lemma_width_value(self.whiteboard.data.canvas_bounds);
                }
                *self.whiteboard.x1_mut() = 0;
                *self.whiteboard.y1_mut() = 0;
                *self.whiteboard.x2_mut() = width as i32;
                *self.whiteboard.y2_mut() = height as i32;
                proof {
                    lemma_width_value(self.whiteboard.data.canvas_bounds);
                }
                EventOutcome { resized: true, ..none }
            },
            InputEvent::MouseMotion(x, y) => {
                let point1 = Point::new(x, y);
                let mut out = none;
                match self.point2 {
                    Some(point2) => {
                        if self.mouse_held_down {
                            let tool = self.tool_mode;
                            if tool == ToolMode::Pencil || tool == ToolMode::Eraser {
                                out.needs_draw = true;
                            } else if tool == ToolMode::MovingCanvas {
                                out.canvas_moved = true;
                            }
                            let color = self.current_color;
                            mouse_movement(
                                &mut self.whiteboard,
                                point1,
                                point2,
                                &tool,
                                color,
                                texture,
                                &mut self.change,
                            );
                        }
                    },
                    None => {},
                }
                self.point2 = Some(point1);
                out
            },
            _ => none,
        }
    }
}

} // verus!
