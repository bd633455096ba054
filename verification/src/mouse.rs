use vstd::prelude::*;

use crate::event::InputEvent;
use crate::screen::{output_text, Output, Position};

verus! {

/// Event type of a button.
pub const EV_KEY: u16 = 0x01;
/// Event type of a relative motion.
pub const EV_REL: u16 = 0x02;
/// Button code of the extra side button, which ends the program.
pub const BTN_EXTRA: u16 = 0x114;
/// Motion code of the horizontal axis.
pub const REL_X: u16 = 0;
/// Motion code of the vertical axis.
pub const REL_Y: u16 = 1;

/// What the mouse listener does after an event.
#[derive(Clone, Copy, Debug, PartialEq, Eq, Structural)]
pub enum MouseAction {
    /// Nothing visible.
    Nothing,
    /// Write this to the terminal.
    Emit(Output),
    /// Clear the scroll-back, put the cursor at the top left corner and end
    /// the program.
    Exit,
}

/// An event that the mouse listener cannot take: the listener stops there.
#[derive(Clone, Copy, Debug, PartialEq, Eq, Structural)]
pub enum MouseError {
    /// An event type, button or axis that the listener does not handle.
    Unsupported,
    /// A vertical motion of `i32::MIN`, whose size does not fit in an `i32`.
    ValueOverflow,
}

/// A button event: the extra side button ends the program, the left, right,
/// middle and side buttons do nothing visible, other buttons are refused.
pub open spec fn button_transition(code: u16) -> Result<MouseAction, MouseError> {
    if code == BTN_EXTRA {
        Ok(MouseAction::Exit)
    } else if 0x110 <= code <= 0x113 {
        Ok(MouseAction::Nothing)
    } else {
        Err(MouseError::Unsupported)
    }
}

/// A motion event moves the cursor one cell in its direction while the cursor
/// stays between 0 and the screen size, and rings the bell where it would
/// leave it. A horizontal motion moves left when negative and right
/// otherwise; a vertical one moves up when below -1, down when above 1, and is
/// passed over when -1, 0 or 1. The wheels do nothing visible; other axes are
/// refused.
pub open spec fn motion_transition(pos: Position, screen: Position, code: u16, value: i32) -> Result<
    (Position, MouseAction),
    MouseError,
> {
    if code == REL_X {
        if value < 0 {
            if pos.0 > 0 {
                Ok((Position((pos.0 - 1) as u16, pos.1), MouseAction::Emit(Output::CursorLeft)))
            } else {
                Ok((pos, MouseAction::Emit(Output::Bell)))
            }
        } else {
            if pos.0 < screen.0 {
                Ok((Position((pos.0 + 1) as u16, pos.1), MouseAction::Emit(Output::CursorRight)))
            } else {
                Ok((pos, MouseAction::Emit(Output::Bell)))
            }
        }
    } else if code == REL_Y {
        if value == i32::MIN {
            Err(MouseError::ValueOverflow)
        } else if value < -1 {
            if pos.1 > 0 {
                Ok((Position(pos.0, (pos.1 - 1) as u16), MouseAction::Emit(Output::CursorUp)))
            } else {
                Ok((pos, MouseAction::Emit(Output::Bell)))
            }
        } else if value > 1 {
            if pos.1 < screen.1 {
                Ok((Position(pos.0, (pos.1 + 1) as u16), MouseAction::Emit(Output::CursorDown)))
            } else {
                Ok((pos, MouseAction::Emit(Output::Bell)))
            }
        } else {
            Ok((pos, MouseAction::Nothing))
        }
    } else if code == 8 || code == 11 {
        Ok((pos, MouseAction::Nothing))
    } else {
        Err(MouseError::Unsupported)
    }
}

/// The cursor position and action after event `ev` with the cursor at `pos`
/// on a screen of size `screen`: end-of-report and synchronisation events do
/// nothing, buttons and motions as above, any other type is refused.
pub open spec fn mouse_transition(pos: Position, screen: Position, ev: InputEvent) -> Result<
    (Position, MouseAction),
    MouseError,
> {
    if ev.kind == 0 || ev.kind == 4 {
        Ok((pos, MouseAction::Nothing))
    } else if ev.kind == EV_KEY {
        match button_transition(ev.code) {
            Ok(a) => Ok((pos, a)),
            Err(e) => Err(e),
        }
    } else if ev.kind == EV_REL {
        motion_transition(pos, screen, ev.code, ev.value)
    } else {
        Err(MouseError::Unsupported)
    }
}

/// Takes one event from the mouse: moves the cursor `position` within
/// `screen` and says what to write; a refused event leaves the cursor where
/// it is.
pub fn mouse_step(position: &mut Position, screen: &Position, ev: &InputEvent) -> (r: Result<
    MouseAction,
    MouseError,
>)
    ensures
        match mouse_transition(*old(position), *screen, *ev) {
            Ok((p, a)) => r == Ok::<MouseAction, MouseError>(a) && *final(position) == p,
            Err(e) => r == Err::<MouseAction, MouseError>(e) && *final(position) == *old(
                position,
            ),
        },
{
    if ev.kind == 0 || ev.kind == 4 {
        Ok(MouseAction::Nothing)
    } else if ev.kind == EV_KEY {
        if ev.code == BTN_EXTRA {
            Ok(MouseAction::Exit)
        } else if 0x110 <= ev.code && ev.code <= 0x113 {
            Ok(MouseAction::Nothing)
        } else {
            Err(MouseError::Unsupported)
        }
    } else if ev.kind == EV_REL {
        if ev.code == REL_X {
            if ev.value < 0 {
                if position.0 > 0 {
                    position.0 = position.0 - 1;
                    Ok(MouseAction::Emit(Output::CursorLeft))
                } else {
                    Ok(MouseAction::Emit(Output::Bell))
                }
            } else {
                if position.0 < screen.0 {
                    position.0 = position.0 + 1;
                    Ok(MouseAction::Emit(Output::CursorRight))
                } else {
                    Ok(MouseAction::Emit(Output::Bell))
                }
            }
        } else if ev.code == REL_Y {
            if ev.value == i32::MIN {
                Err(MouseError::ValueOverflow)
            } else if ev.value < -1 {
                if position.1 > 0 {
                    position.1 = position.1 - 1;
                    Ok(MouseAction::Emit(Output::CursorUp))
                } else {
                    Ok(MouseAction::Emit(Output::Bell))
                }
            } else if ev.value > 1 {
                if position.1 < screen.1 {
                    position.1 = position.1 + 1;
                    Ok(MouseAction::Emit(Output::CursorDown))
                } else {
                    Ok(MouseAction::Emit(Output::Bell))
                }
            } else {
                Ok(MouseAction::Nothing)
            }
        } else if ev.code == 8 || ev.code == 11 {
            Ok(MouseAction::Nothing)
        } else {
            Err(MouseError::Unsupported)
        }
    } else {
        Err(MouseError::Unsupported)
    }
}

/// The cursor lies on the screen: neither coordinate above the screen size.
pub open spec fn on_screen(pos: Position, screen: Position) -> bool {
    pos.0 <= screen.0 && pos.1 <= screen.1
}

/// No event takes a cursor that lies on the screen off it.
pub proof fn lemma_step_keeps_cursor_on_screen(pos: Position, screen: Position, ev: InputEvent)
    requires
        on_screen(pos, screen),
    ensures
        mouse_transition(pos, screen, ev) matches Ok((p, _)) ==> on_screen(p, screen),
{
}

/// The cursor moves at most one cell per event, and the bell rings exactly
/// when a motion would have taken it past an edge.
pub proof fn lemma_step_moves_one_cell(pos: Position, screen: Position, ev: InputEvent)
    ensures
        mouse_transition(pos, screen, ev) matches Ok((p, a)) ==> {
            &&& -1 <= p.0 - pos.0 <= 1
            &&& -1 <= p.1 - pos.1 <= 1
            &&& (p.0 == pos.0 || p.1 == pos.1)
            &&& (a == MouseAction::Emit(Output::Bell) <==> (ev.kind == EV_REL && p == pos && (
            ev.code == REL_X || (ev.code == REL_Y && (ev.value < -1 || ev.value > 1)))))
        },
{
}

/// A motion one way and then the other brings the cursor back, unless the
/// first ran into an edge.
pub proof fn lemma_motion_undone(
    pos: Position,
    screen: Position,
    code: u16,
    value: i32,
    back: i32,
)
    requires
        on_screen(pos, screen),
        code == REL_X || code == REL_Y,
        code == REL_X ==> (value < 0 && back >= 0) || (value >= 0 && back < 0),
        code == REL_Y ==> (value < -1 && back > 1) || (value > 1 && back < -1 && back
            != i32::MIN),
        code == REL_Y ==> value != i32::MIN,
        mouse_transition(pos, screen, InputEvent { kind: EV_REL, code, value }) matches Ok(
            (p, a),
        ) && a != MouseAction::Emit(Output::Bell),
    ensures
        mouse_transition(pos, screen, InputEvent { kind: EV_REL, code, value }) matches Ok(
            (p, _),
        ) && mouse_transition(p, screen, InputEvent { kind: EV_REL, code, value: back }) matches Ok(
            (q, _),
        ) && q == pos,
{
}

/// The cursor moves only together with the output that moves the terminal's
/// cursor the same way: a column right with `CursorRight`, left with
/// `CursorLeft`, a row down with `CursorDown`, up with `CursorUp`; every other
/// action leaves it where it is. A vertical motion of -1, 0 or 1 is passed
/// over altogether.
pub proof fn lemma_cursor_follows_output(pos: Position, screen: Position, ev: InputEvent)
    ensures
        mouse_transition(pos, screen, ev) matches Ok((p, a)) ==> {
            &&& (p.0 == pos.0 + 1 <==> a == MouseAction::Emit(Output::CursorRight))
            &&& (p.0 == pos.0 - 1 <==> a == MouseAction::Emit(Output::CursorLeft))
            &&& (p.1 == pos.1 + 1 <==> a == MouseAction::Emit(Output::CursorDown))
            &&& (p.1 == pos.1 - 1 <==> a == MouseAction::Emit(Output::CursorUp))
            &&& (a != MouseAction::Emit(Output::CursorRight) && a != MouseAction::Emit(
                Output::CursorLeft,
            ) && a != MouseAction::Emit(Output::CursorDown) && a != MouseAction::Emit(
                Output::CursorUp,
            )) ==> p == pos
        },
        ev.kind == EV_REL && ev.code == REL_Y && -1 <= ev.value <= 1 ==> mouse_transition(
            pos,
            screen,
            ev,
        ) == Ok::<(Position, MouseAction), MouseError>((pos, MouseAction::Nothing)),
{
}

/// The terminal text of each cursor move is the control sequence `ESC [ 1`
/// followed by its direction's letter: `A` up, `B` down, `C` right, `D` left.
pub open spec fn cursor_move_text(letter: char) -> Seq<char> {
    seq!['\x1b', '[', '1', letter]
}

/// Whenever the mouse moves the cursor, the text written to the terminal moves
/// the terminal's cursor the same way: `ESC [ 1 A` for a row up, `ESC [ 1 B` for
/// a row down, `ESC [ 1 C` for a column right, `ESC [ 1 D` for a column left.
pub proof fn lemma_move_text_matches_motion(pos: Position, screen: Position, ev: InputEvent)
    ensures
        mouse_transition(pos, screen, ev) matches Ok((p, MouseAction::Emit(o))) ==> {
            &&& p.1 == pos.1 - 1 ==> output_text(o) == cursor_move_text('A')
            &&& p.1 == pos.1 + 1 ==> output_text(o) == cursor_move_text('B')
            &&& p.0 == pos.0 + 1 ==> output_text(o) == cursor_move_text('C')
            &&& p.0 == pos.0 - 1 ==> output_text(o) == cursor_move_text('D')
        },
{
    reveal_strlit("\x1b[1A");
    reveal_strlit("\x1b[1B");
    reveal_strlit("\x1b[1C");
    reveal_strlit("\x1b[1D");
    assert(output_text(Output::CursorUp) =~= cursor_move_text('A'));
    assert(output_text(Output::CursorDown) =~= cursor_move_text('B'));
    assert(output_text(Output::CursorRight) =~= cursor_move_text('C'));
    assert(output_text(Output::CursorLeft) =~= cursor_move_text('D'));
}

} // verus!
