//! Synthetic input: which record to hand to the system for each thing that can be played.
//!
//! Every record carries `TAG`, so that what was injected can be told from what a hand did.
use vstd::prelude::*;

verus! {

/// "HIDF": marks a record as ours.
pub const TAG: usize = 0x4849_4446;

pub const MOUSE_MOVE: u32 = 0x0001;

pub const MOUSE_LEFT_DOWN: u32 = 0x0002;

pub const MOUSE_LEFT_UP: u32 = 0x0004;

pub const MOUSE_RIGHT_DOWN: u32 = 0x0008;

pub const MOUSE_RIGHT_UP: u32 = 0x0010;

pub const MOUSE_MIDDLE_DOWN: u32 = 0x0020;

pub const MOUSE_MIDDLE_UP: u32 = 0x0040;

pub const MOUSE_X_DOWN: u32 = 0x0080;

pub const MOUSE_X_UP: u32 = 0x0100;

pub const MOUSE_WHEEL: u32 = 0x0800;

pub const KEY_UP: u32 = 0x0002;

pub const KEY_SCANCODE: u32 = 0x0008;

/// A mouse button that can be pressed by software.
#[derive(Clone, Copy, PartialEq, Eq, Structural, Debug)]
pub enum Btn {
    Left,
    Right,
    Middle,
    X1,
    X2,
}

/// A mouse record: motion, the wheel distance or the X button's number, and what happened.
#[derive(Clone, Copy, PartialEq, Eq, Structural, Debug)]
pub struct MouseInput {
    pub dx: i32,
    pub dy: i32,
    pub data: u32,
    pub flags: u32,
    pub tag: usize,
}

/// A keyboard record.
#[derive(Clone, Copy, PartialEq, Eq, Structural, Debug)]
pub struct KeyInput {
    pub vk: u16,
    pub scan: u16,
    pub flags: u32,
    pub tag: usize,
}

/// One record to inject.
#[derive(Clone, Copy, PartialEq, Eq, Structural, Debug)]
pub enum Input {
    Mouse(MouseInput),
    Key(KeyInput),
}

impl Input {
    /// Whether the record is marked as ours.
    pub open spec fn tagged(self) -> bool {
        match self {
            Input::Mouse(m) => m.tag == TAG,
            Input::Key(k) => k.tag == TAG,
        }
    }
}

impl Btn {
    /// The buttons in the order in which they are offered.
    pub const ALL: [Btn; 5] = [Btn::Left, Btn::Right, Btn::Middle, Btn::X1, Btn::X2];

    /// What a press or a release of this button sets in a record's flags.
    pub open spec fn flags(self, down: bool) -> u32 {
        match self {
            Btn::Left => if down { MOUSE_LEFT_DOWN } else { MOUSE_LEFT_UP },
            Btn::Right => if down { MOUSE_RIGHT_DOWN } else { MOUSE_RIGHT_UP },
            Btn::Middle => if down { MOUSE_MIDDLE_DOWN } else { MOUSE_MIDDLE_UP },
            Btn::X1 | Btn::X2 => if down { MOUSE_X_DOWN } else { MOUSE_X_UP },
        }
    }

    /// The number by which the two X buttons are told apart; the others have none.
    pub open spec fn number(self) -> u32 {
        match self {
            Btn::X1 => 1,
            Btn::X2 => 2,
            _ => 0,
        }
    }

    /// The name a button is shown under.
    pub open spec fn title(self) -> Seq<char> {
        match self {
            Btn::Left => "Left"@,
            Btn::Right => "Right"@,
            Btn::Middle => "Middle"@,
            Btn::X1 => "X1 (back)"@,
            Btn::X2 => "X2 (fwd)"@,
        }
    }

    pub fn name(self) -> (r: &'static str)
        ensures
            r@ == self.title(),
    {
        match self {
            Btn::Left => "Left",
            Btn::Right => "Right",
            Btn::Middle => "Middle",
            Btn::X1 => "X1 (back)",
            Btn::X2 => "X2 (fwd)",
        }
    }

    /// The flags and the data of a press or a release.
    pub fn event(self, down: bool) -> (r: (u32, u32))
        ensures
            r == (self.flags(down), self.number()),
    {
        match self {
            Btn::Left => (if down { MOUSE_LEFT_DOWN } else { MOUSE_LEFT_UP }, 0),
            Btn::Right => (if down { MOUSE_RIGHT_DOWN } else { MOUSE_RIGHT_UP }, 0),
            Btn::Middle => (if down { MOUSE_MIDDLE_DOWN } else { MOUSE_MIDDLE_UP }, 0),
            Btn::X1 => (if down { MOUSE_X_DOWN } else { MOUSE_X_UP }, 1),
            Btn::X2 => (if down { MOUSE_X_DOWN } else { MOUSE_X_UP }, 2),
        }
    }
}

/// The record of one mouse event.
pub open spec fn mouse_record(flags: u32, data: u32, dx: i32, dy: i32) -> Input {
    Input::Mouse(MouseInput { dx, dy, data, flags, tag: TAG })
}

/// The record of one key event.
pub open spec fn key_record(vk: u16, scan: u16, flags: u32) -> Input {
    Input::Key(KeyInput { vk, scan, flags, tag: TAG })
}

/// The record of a button going down or up.
pub open spec fn button_record(btn: Btn, down: bool) -> Input {
    mouse_record(btn.flags(down), btn.number(), 0, 0)
}

/// The record of a key played by its scancode.
pub open spec fn scan_record(scancode: u16, down: bool) -> Input {
    key_record(0, scancode, if down { KEY_SCANCODE } else { (KEY_SCANCODE + KEY_UP) as u32 })
}

/// The record of a key played by its virtual key.
pub open spec fn vk_record(vk: u16, down: bool) -> Input {
    key_record(vk, 0, if down { 0 } else { KEY_UP })
}

fn send_mouse(flags: u32, data: u32, dx: i32, dy: i32) -> (r: Input)
    ensures
        r == mouse_record(flags, data, dx, dy),
        r.tagged(),
{
    Input::Mouse(MouseInput { dx, dy, data, flags, tag: TAG })
}

/// A button going down or up.
pub fn mouse(btn: Btn, down: bool) -> (r: Input)
    ensures
        r == button_record(btn, down),
        r.tagged(),
{
    let (flags, data): (u32, u32) = btn.event(down);
    send_mouse(flags, data, 0, 0)
}

/// Motion relative to where the pointer is.
pub fn move_rel(dx: i32, dy: i32) -> (r: Input)
    ensures
        r == mouse_record(MOUSE_MOVE, 0, dx, dy),
        r.tagged(),
{
    send_mouse(MOUSE_MOVE, 0, dx, dy)
}

/// A signed wheel distance as it stands in a record: its two's complement.
pub open spec fn wheel_data(delta: i32) -> int {
    if delta >= 0 {
        delta as int
    } else {
        delta + 0x1_0000_0000
    }
}

/// The wheel turning by `delta`, away from the hand where it is positive.
pub fn wheel(delta: i32) -> (r: Input)
    ensures
        r == mouse_record(MOUSE_WHEEL, wheel_data(delta) as u32, 0, 0),
        r.tagged(),
{
    assert(delta < 0 ==> delta as u32 == delta + 0x1_0000_0000) by (bit_vector);
    send_mouse(MOUSE_WHEEL, delta as u32, 0, 0)
}

/// Motion by nothing: it costs what a click costs and changes nothing.
pub fn nop() -> (r: Input)
    ensures
        r == mouse_record(MOUSE_MOVE, 0, 0, 0),
        r.tagged(),
{
    send_mouse(MOUSE_MOVE, 0, 0, 0)
}

/// A key by its scancode, which more programs honour than a virtual key alone.
pub fn key_scan(scancode: u16, down: bool) -> (r: Input)
    ensures
        r == scan_record(scancode, down),
        r.tagged(),
{
    let mut flags: u32 = KEY_SCANCODE;
    if !down {
        assert(0x0008u32 | 0x0002u32 == 0x000Au32) by (bit_vector);
        flags = flags | KEY_UP;
    }
    send_key(0, scancode, flags)
}

/// A key by its virtual key.
pub fn key_vk(vk: u16, down: bool) -> (r: Input)
    ensures
        r == vk_record(vk, down),
        r.tagged(),
{
    let flags: u32 = if down { 0 } else { KEY_UP };
    send_key(vk, 0, flags)
}

fn send_key(vk: u16, scan: u16, flags: u32) -> (r: Input)
    ensures
        r == key_record(vk, scan, flags),
        r.tagged(),
{
    Input::Key(KeyInput { vk, scan, flags, tag: TAG })
}

/// No two button events share a record: a press is never its release, and no button stands in
/// for another.
pub proof fn law_button_records_differ(a: Btn, a_down: bool, b: Btn, b_down: bool)
    requires
        (a, a_down) != (b, b_down),
    ensures
        button_record(a, a_down) != button_record(b, b_down),
{
}

/// A button event is never motion and never the wheel.
pub proof fn law_button_is_no_motion(btn: Btn, down: bool, data: u32, dx: i32, dy: i32)
    ensures
        button_record(btn, down) != mouse_record(MOUSE_MOVE, data, dx, dy),
        button_record(btn, down) != mouse_record(MOUSE_WHEEL, data, dx, dy),
{
}

/// Every button is offered, and none twice.
pub proof fn law_every_button_is_offered(b: Btn)
    ensures
        Btn::ALL@ == seq![Btn::Left, Btn::Right, Btn::Middle, Btn::X1, Btn::X2],
        Btn::ALL@.contains(b),
        Btn::ALL@.no_duplicates(),
{
    let all = seq![Btn::Left, Btn::Right, Btn::Middle, Btn::X1, Btn::X2];
    assert(Btn::ALL@ == all);
    assert(all[0] == Btn::Left && all[1] == Btn::Right && all[2] == Btn::Middle);
    assert(all[3] == Btn::X1 && all[4] == Btn::X2);
    assert(all.contains(b));
}

/// Each button is pressed and released by its own flags, where the two at the side share theirs and
/// go by their number; nothing moves.
pub proof fn law_buttons_have_their_records(btn: Btn, down: bool)
    ensures
        button_record(btn, down) matches Input::Mouse(m) && {
            &&& m.dx == 0
            &&& m.dy == 0
            &&& m.tag == 0x4849_4446
            &&& m.data == match btn {
                Btn::X1 => 1int,
                Btn::X2 => 2,
                _ => 0,
            }
            &&& m.flags == match btn {
                Btn::Left => 2int,
                Btn::Right => 8,
                Btn::Middle => 32,
                _ => 128,
            } * if down {
                1int
            } else {
                2
            }
        },
{
}

} // verus!
