use vstd::prelude::*;

use crate::event::InputEvent;

verus! {

/// Direction bits of an ioctl request that passes data to the kernel.
pub const IOC_WRITE: u32 = 1;

/// The ioctl request number `_IOC(dir, type, nr, size)` of Linux: the
/// direction in bits 30 and 31, the argument's size in bits 16 to 29, the
/// driver's type letter in bits 8 to 15, the request's number in bits 0 to 7.
pub open spec fn ioc_spec(dir: u32, typ: u32, nr: u32, size: u32) -> int {
    dir * 0x4000_0000 + size * 0x1_0000 + typ * 0x100 + nr
}

/// Computes `_IOC(dir, type, nr, size)` as the kernel's headers do, by shifts
/// and bitwise or.
pub fn ioc(dir: u32, typ: u32, nr: u32, size: u32) -> (r: u32)
    requires
        dir < 4,
        typ < 0x100,
        nr < 0x100,
        size < 0x4000,
    ensures
        r == ioc_spec(dir, typ, nr, size),
{
    let r = (dir << 30u32) | (typ << 8u32) | (nr << 0u32) | (size << 16u32);
    assert(r == dir * 0x4000_0000 + size * 0x1_0000 + typ * 0x100 + nr) by (bit_vector)
        requires
            dir < 4,
            typ < 0x100,
            nr < 0x100,
            size < 0x4000,
            r == (dir << 30u32) | (typ << 8u32) | (nr << 0u32) | (size << 16u32),
    ;
    r
}

/// `_IOW(type, nr, size)`: the request number of an ioctl that hands the
/// kernel `size` bytes.
pub fn iow(typ: u32, nr: u32, size: u32) -> (r: u32)
    requires
        typ < 0x100,
        nr < 0x100,
        size < 0x4000,
    ensures
        r == ioc_spec(IOC_WRITE, typ, nr, size),
{
    ioc(IOC_WRITE, typ, nr, size)
}

/// `EVIOCGRAB`, the ioctl that takes an input device for this program alone
/// (argument 1) or gives it back (argument 0).
pub const EVIOCGRAB: u32 = 0b1000000000001000100010110010000;

/// Each field of a request number is kept whole in its own bits: the
/// direction comes back from bits 30 and 31, the size from bits 16 to 29, the
/// type from bits 8 to 15 and the number from bits 0 to 7.
pub proof fn lemma_ioc_fields(dir: u32, typ: u32, nr: u32, size: u32)
    requires
        dir < 4,
        typ < 0x100,
        nr < 0x100,
        size < 0x4000,
    ensures
        0 <= ioc_spec(dir, typ, nr, size) <= u32::MAX,
        ({
            let r = ioc_spec(dir, typ, nr, size) as u32;
            &&& r >> 30u32 == dir
            &&& (r >> 16u32) & 0x3FFFu32 == size
            &&& (r >> 8u32) & 0xFFu32 == typ
            &&& r & 0xFFu32 == nr
        }),
{
    let r = ioc_spec(dir, typ, nr, size) as u32;
    assert(r == dir * 0x4000_0000 + size * 0x1_0000 + typ * 0x100 + nr);
    assert(r >> 30u32 == dir && (r >> 16u32) & 0x3FFFu32 == size && (r >> 8u32) & 0xFFu32 == typ
        && r & 0xFFu32 == nr) by (bit_vector)
        requires
            dir < 4,
            typ < 0x100,
            nr < 0x100,
            size < 0x4000,
            r == dir * 0x4000_0000 + size * 0x1_0000 + typ * 0x100 + nr,
    ;
}

/// `EVIOCGRAB` is `_IOW('E', 0x90, sizeof(int))`.
pub proof fn lemma_eviocgrab_is_iow()
    ensures
        EVIOCGRAB == ioc_spec(IOC_WRITE, 69, 0x90, 4),
{
}

/// Key code of the left Ctrl key.
pub const KEY_LEFTCTRL: u16 = 0x1D;
/// Key code of the right Ctrl key.
pub const KEY_RIGHTCTRL: u16 = 0x61;
/// Key code of the Enter key.
pub const KEY_ENTER: u16 = 0x1C;
/// Key code of the C key.
pub const KEY_C: u16 = 0x2E;

/// What the keyboard listener does after an event.
#[derive(Clone, Copy, Debug, PartialEq, Eq, Structural)]
pub enum KeyAction {
    /// Nothing visible.
    Nothing,
    /// The cursor to the top left corner.
    Home,
    /// Give the keyboard back, ring the bell on a line of its own and end the
    /// program.
    Quit,
}

/// What the keyboard listener remembers between events.
#[derive(Clone, Copy, Debug, PartialEq, Eq, Structural)]
pub struct KeyboardState {
    /// A Ctrl key is held down.
    pub ctrl: bool,
}

/// The listener's next state and action after `ev` while `ctrl` tells
/// whether a Ctrl key is held: a Ctrl key's event records whether it is now
/// pressed, Enter held down sends the cursor home, C with Ctrl held quits,
/// and nothing else has any effect.
pub open spec fn key_transition(ctrl: bool, ev: InputEvent) -> (bool, KeyAction) {
    if ev.kind != 1 {
        (ctrl, KeyAction::Nothing)
    } else if ev.code == KEY_LEFTCTRL || ev.code == KEY_RIGHTCTRL {
        (ev.value == 1, KeyAction::Nothing)
    } else if ev.code == KEY_ENTER && ev.value == 2 {
        (ctrl, KeyAction::Home)
    } else if ev.code == KEY_C && ctrl {
        (ctrl, KeyAction::Quit)
    } else {
        (ctrl, KeyAction::Nothing)
    }
}

impl KeyboardState {
    /// The state before any event: no Ctrl key held.
    pub fn new() -> (s: Self)
        ensures
            !s.ctrl,
    {
        KeyboardState { ctrl: false }
    }

    /// Takes one event from the keyboard and says what to do.
    pub fn step(&mut self, ev: &InputEvent) -> (a: KeyAction)
        ensures
            (final(self).ctrl, a) == key_transition(old(self).ctrl, *ev),
    {
        if ev.kind == 1 {
            if ev.code == KEY_LEFTCTRL || ev.code == KEY_RIGHTCTRL {
                self.ctrl = ev.value == 1;
                KeyAction::Nothing
            } else if ev.code == KEY_ENTER && ev.value == 2 {
                KeyAction::Home
            } else if ev.code == KEY_C && self.ctrl {
                KeyAction::Quit
            } else {
                KeyAction::Nothing
            }
        } else {
            KeyAction::Nothing
        }
    }
}

/// Pressing either Ctrl key and then C ends the program, whatever came
/// before.
pub proof fn lemma_ctrl_then_c_quits(ctrl: bool, ctrl_code: u16, c_value: i32)
    requires
        ctrl_code == KEY_LEFTCTRL || ctrl_code == KEY_RIGHTCTRL,
    ensures
        ({
            let (held, first) = key_transition(
                ctrl,
                InputEvent { kind: 1, code: ctrl_code, value: 1 },
            );
            &&& first == KeyAction::Nothing
            &&& key_transition(held, InputEvent { kind: 1, code: KEY_C, value: c_value }).1
                == KeyAction::Quit
        }),
{
}

/// Releasing the Ctrl key takes the power to quit away from C.
pub proof fn lemma_released_ctrl_keeps_running(ctrl: bool, ctrl_code: u16, c_value: i32)
    requires
        ctrl_code == KEY_LEFTCTRL || ctrl_code == KEY_RIGHTCTRL,
    ensures
        ({
            let (held, _) = key_transition(
                ctrl,
                InputEvent { kind: 1, code: ctrl_code, value: 0 },
            );
            key_transition(held, InputEvent { kind: 1, code: KEY_C, value: c_value }).1
                == KeyAction::Nothing
        }),
{
}

/// The program quits only on C while a Ctrl key is held, and only events of
/// the keys change what the listener remembers.
pub proof fn lemma_quit_needs_ctrl_c(ctrl: bool, ev: InputEvent)
    ensures
        key_transition(ctrl, ev).1 == KeyAction::Quit ==> ctrl && ev.kind == 1 && ev.code
            == KEY_C,
        ev.kind != 1 ==> key_transition(ctrl, ev) == (ctrl, KeyAction::Nothing),
{
}

/// Only the Ctrl keys' own events (codes 0x1D and 0x61) change whether Ctrl
/// counts as held, and such an event leaves it held exactly when it is a
/// press (value 1).
pub proof fn lemma_only_ctrl_keys_arm(ctrl: bool, ev: InputEvent)
    ensures
        !(ev.kind == 1 && (ev.code == 0x1D || ev.code == 0x61)) ==> key_transition(ctrl, ev).0
            == ctrl,
        ev.kind == 1 && (ev.code == 0x1D || ev.code == 0x61) ==> key_transition(ctrl, ev).0 == (
        ev.value == 1),
{
}

/// Whether Ctrl counts as held after the events `evs`, starting from `ctrl`.
pub open spec fn ctrl_after(ctrl: bool, evs: Seq<InputEvent>) -> bool
    decreases evs.len(),
{
    if evs.len() == 0 {
        ctrl
    } else {
        key_transition(ctrl_after(ctrl, evs.drop_last()), evs.last()).0
    }
}

/// From a fresh listener, C quits only after a Ctrl press: if the events
/// `evs` leave the listener ready to quit on C, one of them presses 0x1D or
/// 0x61.
pub proof fn lemma_quit_only_after_ctrl_press(evs: Seq<InputEvent>, c_value: i32)
    requires
        key_transition(
            ctrl_after(false, evs),
            InputEvent { kind: 1, code: 0x2E, value: c_value },
        ).1 == KeyAction::Quit,
    ensures
        exists|i: int|
            0 <= i < evs.len() && (#[trigger] evs[i]).kind == 1 && (evs[i].code == 0x1D
                || evs[i].code == 0x61) && evs[i].value == 1,
    decreases evs.len(),
{
    lemma_ctrl_held_needs_press(evs);
}

/// Ctrl counts as held after `evs` from a fresh listener only if the last
/// event of a Ctrl key among them was a press.
proof fn lemma_ctrl_held_needs_press(evs: Seq<InputEvent>)
    requires
        ctrl_after(false, evs),
    ensures
        exists|i: int|
            0 <= i < evs.len() && (#[trigger] evs[i]).kind == 1 && (evs[i].code == 0x1D
                || evs[i].code == 0x61) && evs[i].value == 1,
    decreases evs.len(),
{
    let e = evs.last();
    let prev = evs.drop_last();
    lemma_only_ctrl_keys_arm(ctrl_after(false, prev), e);
    if e.kind == 1 && (e.code == 0x1D || e.code == 0x61) {
        assert(evs[evs.len() - 1] == e);
    } else {
        lemma_ctrl_held_needs_press(prev);
        let i = choose|i: int|
            0 <= i < prev.len() && (#[trigger] prev[i]).kind == 1 && (prev[i].code == 0x1D
                || prev[i].code == 0x61) && prev[i].value == 1;
        assert(evs[i] == prev[i]);
    }
}

} // verus!
