//! What a device can send that a macro can be bound to.
use vstd::prelude::*;
use vstd::string::StringExecFns;
use crate::text;

verus! {

/// A pressable thing, known by the channel it arrives on.
#[derive(Clone, Copy, PartialEq, Eq, Structural, Hash, Debug)]
pub enum Signal {
    /// One of the five standard buttons, per device.
    MouseButton { device: i64, index: u8 },
    /// A wheel notch.
    Wheel { device: i64, up: bool },
    /// A key, by its scancode, with the virtual key beside it.
    Key { device: i64, scancode: u16, vk: u16 },
    /// A bit of a generic report: what finds side buttons and vendor extras.
    HidBit { device: i64, page: u16, usage: u16, byte: u16, bit: u8 },
}

impl Signal {
    /// The device that the signal comes from.
    pub open spec fn source(self) -> i64 {
        match self {
            Signal::MouseButton { device, .. } => device,
            Signal::Wheel { device, .. } => device,
            Signal::Key { device, .. } => device,
            Signal::HidBit { device, .. } => device,
        }
    }

    /// What the signal is called: concrete about its channel, silent about its device.
    pub open spec fn title(self) -> Seq<char> {
        match self {
            Signal::MouseButton { index, .. } => if index == 1 {
                "Left click"@
            } else if index == 2 {
                "Right click"@
            } else if index == 3 {
                "Middle click"@
            } else if index == 4 {
                "Side back (X1)"@
            } else if index == 5 {
                "Side forward (X2)"@
            } else {
                "Button "@ + text::decimal(index as nat)
            },
            Signal::Wheel { up, .. } => if up {
                "Wheel up"@
            } else {
                "Wheel down"@
            },
            Signal::Key { scancode, vk, .. } => "Key sc"@ + text::hexed(scancode as nat, 2) + " vk"@
                + text::hexed(vk as nat, 2),
            Signal::HidBit { page, usage, byte, bit, .. } => "HID "@ + text::hexed(page as nat, 4) + "/"@
                + text::hexed(usage as nat, 2) + " byte"@ + text::decimal(byte as nat) + ".bit"@ + text::decimal(
                bit as nat,
            ),
        }
    }

    pub fn device(&self) -> (r: i64)
        ensures
            r == self.source(),
    {
        match *self {
            Signal::MouseButton { device, .. } => device,
            Signal::Wheel { device, .. } => device,
            Signal::Key { device, .. } => device,
            Signal::HidBit { device, .. } => device,
        }
    }

    pub fn label(&self) -> (r: String)
        ensures
            r@ == self.title(),
    {
        match *self {
            Signal::MouseButton { index, .. } => {
                if index == 1 {
                    String::from_str("Left click")
                } else if index == 2 {
                    String::from_str("Right click")
                } else if index == 3 {
                    String::from_str("Middle click")
                } else if index == 4 {
                    String::from_str("Side back (X1)")
                } else if index == 5 {
                    String::from_str("Side forward (X2)")
                } else {
                    let mut out = String::from_str("Button ");
                    text::push_decimal(&mut out, index as u64);
                    out
                }
            },
            Signal::Wheel { up, .. } => {
                if up {
                    String::from_str("Wheel up")
                } else {
                    String::from_str("Wheel down")
                }
            },
            Signal::Key { scancode, vk, .. } => {
                let mut out = String::from_str("Key sc");
                text::push_hexed(&mut out, scancode, 2);
                out.append(" vk");
                text::push_hexed(&mut out, vk, 2);
                out
            },
            Signal::HidBit { page, usage, byte, bit, .. } => {
                let mut out = String::from_str("HID ");
                text::push_hexed(&mut out, page, 4);
                out.append("/");
                text::push_hexed(&mut out, usage, 2);
                out.append(" byte");
                text::push_decimal(&mut out, byte as u64);
                out.append(".bit");
                text::push_decimal(&mut out, bit as u64);
                out
            },
        }
    }

    /// Whether a low-level mouse hook could keep the event from its program: only the standard
    /// buttons and the wheel pass through that hook.
    pub fn suppressible(&self) -> (r: bool)
        ensures
            r == (self is MouseButton || self is Wheel),
    {
        match *self {
            Signal::MouseButton { .. } => true,
            Signal::Wheel { .. } => true,
            _ => false,
        }
    }
}

/// A signal going down or up, and the counter at that moment.
#[derive(Clone, Copy, PartialEq, Eq, Structural, Debug)]
pub struct Event {
    pub signal: Signal,
    pub down: bool,
    pub qpc: i64,
}

/// Whether two signals come by the same channel: the same button, notch, key or bit, of whatever
/// device.
pub open spec fn same_channel(s: Signal, t: Signal) -> bool {
    match (s, t) {
        (Signal::MouseButton { index: a, .. }, Signal::MouseButton { index: b, .. }) => a == b,
        (Signal::Wheel { up: a, .. }, Signal::Wheel { up: b, .. }) => a == b,
        (
            Signal::Key { scancode: a, vk: c, .. },
            Signal::Key { scancode: b, vk: d, .. },
        ) => a == b && c == d,
        (
            Signal::HidBit { page: a, usage: c, byte: e, bit: g, .. },
            Signal::HidBit { page: b, usage: d, byte: f, bit: h, .. },
        ) => a == b && c == d && e == f && g == h,
        _ => false,
    }
}

proof fn lemma_hexed_has_no_marks(n: nat, width: nat)
    ensures
        !text::hexed(n, width).contains(' '),
        !text::hexed(n, width).contains('/'),
{
    text::lemma_number_is_numerals(n, 16, width, false);
    let s = text::hexed(n, width);
    assert forall|i: int| 0 <= i < s.len() implies text::is_numeral(#[trigger] s[i]) by {
        if i >= 2 {
            assert(s[i] == text::number(n, 16, width, false)[i - 2]);
        }
    }
}

proof fn lemma_hexed_differ(n: nat, m: nat, width: nat)
    requires
        text::hexed(n, width) == text::hexed(m, width),
    ensures
        n == m,
{
    assert(text::hexed(n, width).skip(2) == text::number(n, 16, width, false));
    assert(text::hexed(m, width).skip(2) == text::number(m, 16, width, false));
    text::lemma_numbers_differ(n, m, 16, width, false);
}

/// What follows a prefix that two texts share is the same where they are.
proof fn lemma_same_behind(prefix: Seq<char>, x: Seq<char>, y: Seq<char>)
    requires
        prefix + x == prefix + y,
    ensures
        x == y,
{
    assert((prefix + x).skip(prefix.len() as int) == x);
    assert((prefix + y).skip(prefix.len() as int) == y);
}

proof fn lemma_key_titles_differ(a: u16, c: u16, b: u16, d: u16)
    requires
        "Key sc"@ + text::hexed(a as nat, 2) + " vk"@ + text::hexed(c as nat, 2) == "Key sc"@
            + text::hexed(b as nat, 2) + " vk"@ + text::hexed(d as nat, 2),
    ensures
        a == b,
        c == d,
{
    reveal_strlit(" vk");
    let (p, q) = (text::hexed(a as nat, 2), text::hexed(b as nat, 2));
    let (x, y) = (text::hexed(c as nat, 2), text::hexed(d as nat, 2));
    let vk = seq!['v', 'k'];
    assert("Key sc"@ + p + " vk"@ + x == "Key sc"@ + (p + seq![' '] + (vk + x)));
    assert("Key sc"@ + q + " vk"@ + y == "Key sc"@ + (q + seq![' '] + (vk + y)));
    lemma_same_behind("Key sc"@, p + seq![' '] + (vk + x), q + seq![' '] + (vk + y));
    lemma_hexed_has_no_marks(a as nat, 2);
    lemma_hexed_has_no_marks(b as nat, 2);
    text::lemma_split_at_mark(p, vk + x, q, vk + y, ' ');
    lemma_same_behind(vk, x, y);
    lemma_hexed_differ(a as nat, b as nat, 2);
    lemma_hexed_differ(c as nat, d as nat, 2);
}

/// The part of a bit's title behind its page.
spec fn behind_page(usage: u16, byte: u16, bit: u8) -> Seq<char> {
    text::hexed(usage as nat, 2) + seq![' '] + (seq!['b', 'y', 't', 'e'] + (text::decimal(
        byte as nat,
    ) + seq!['.'] + (seq!['b', 'i', 't'] + text::decimal(bit as nat))))
}

proof fn lemma_bit_title_parts(device: i64, page: u16, usage: u16, byte: u16, bit: u8)
    ensures
        (Signal::HidBit { device, page, usage, byte, bit }).title() == "HID "@ + (text::hexed(
            page as nat,
            4,
        ) + seq!['/'] + behind_page(usage, byte, bit)),
{
    reveal_strlit("/");
    reveal_strlit(" byte");
    reveal_strlit(".bit");
    let (p, u) = (text::hexed(page as nat, 4), text::hexed(usage as nat, 2));
    let (y, t) = (text::decimal(byte as nat), text::decimal(bit as nat));
    assert("/"@ == seq!['/']);
    assert(" byte"@ == seq![' '] + seq!['b', 'y', 't', 'e']);
    assert(".bit"@ == seq!['.'] + seq!['b', 'i', 't']);
    lemma_regrouped(
        "HID "@,
        p,
        seq!['/'],
        u,
        seq![' '],
        seq!['b', 'y', 't', 'e'],
        y,
        seq!['.'],
        seq!['b', 'i', 't'],
        t,
    );
}

proof fn lemma_regrouped(
    a: Seq<char>,
    b: Seq<char>,
    c: Seq<char>,
    d: Seq<char>,
    e: Seq<char>,
    f: Seq<char>,
    g: Seq<char>,
    h: Seq<char>,
    i: Seq<char>,
    j: Seq<char>,
)
    ensures
        a + b + c + d + (e + f) + g + (h + i) + j == a + (b + c + (d + e + (f + (g + h + (i
            + j))))),
{
}

proof fn lemma_bit_titles_differ(
    a: (u16, u16, u16, u8),
    b: (u16, u16, u16, u8),
    device: i64,
    other: i64,
)
    requires
        (Signal::HidBit { device, page: a.0, usage: a.1, byte: a.2, bit: a.3 }).title() == (
        Signal::HidBit { device: other, page: b.0, usage: b.1, byte: b.2, bit: b.3 }).title(),
    ensures
        a == b,
{
    lemma_bit_title_parts(device, a.0, a.1, a.2, a.3);
    lemma_bit_title_parts(other, b.0, b.1, b.2, b.3);
    let (p, q) = (text::hexed(a.0 as nat, 4), text::hexed(b.0 as nat, 4));
    let (x, y) = (behind_page(a.1, a.2, a.3), behind_page(b.1, b.2, b.3));
    lemma_same_behind("HID "@, p + seq!['/'] + x, q + seq!['/'] + y);
    lemma_hexed_has_no_marks(a.0 as nat, 4);
    lemma_hexed_has_no_marks(b.0 as nat, 4);
    text::lemma_split_at_mark(p, x, q, y, '/');
    lemma_hexed_differ(a.0 as nat, b.0 as nat, 4);

    let word = seq!['b', 'y', 't', 'e'];
    let name = seq!['b', 'i', 't'];
    let (m, n) = (text::decimal(a.2 as nat), text::decimal(b.2 as nat));
    let (s, t) = (text::decimal(a.3 as nat), text::decimal(b.3 as nat));
    let (v, w) = (m + seq!['.'] + (name + s), n + seq!['.'] + (name + t));
    lemma_hexed_has_no_marks(a.1 as nat, 2);
    lemma_hexed_has_no_marks(b.1 as nat, 2);
    text::lemma_split_at_mark(
        text::hexed(a.1 as nat, 2),
        word + v,
        text::hexed(b.1 as nat, 2),
        word + w,
        ' ',
    );
    lemma_hexed_differ(a.1 as nat, b.1 as nat, 2);
    lemma_same_behind(word, v, w);
    text::lemma_number_is_numerals(a.2 as nat, 10, 1, false);
    text::lemma_number_is_numerals(b.2 as nat, 10, 1, false);
    text::lemma_split_at_mark(m, name + s, n, name + t, '.');
    lemma_same_behind(name, s, t);
    text::lemma_numbers_differ(a.2 as nat, b.2 as nat, 10, 1, false);
    text::lemma_numbers_differ(a.3 as nat, b.3 as nat, 10, 1, false);
}

/// The character by which the channels are told apart at a glance.
spec fn initial(s: Signal) -> char {
    match s {
        Signal::MouseButton { index, .. } => if index == 1 {
            'L'
        } else if index == 2 {
            'R'
        } else if index == 3 {
            'M'
        } else if index == 4 || index == 5 {
            'S'
        } else {
            'B'
        },
        Signal::Wheel { .. } => 'W',
        Signal::Key { .. } => 'K',
        Signal::HidBit { .. } => 'H',
    }
}

proof fn lemma_initial(s: Signal)
    ensures
        s.title().len() > 0,
        s.title()[0] == initial(s),
{
    reveal_strlit("Left click");
    reveal_strlit("Right click");
    reveal_strlit("Middle click");
    reveal_strlit("Side back (X1)");
    reveal_strlit("Side forward (X2)");
    reveal_strlit("Button ");
    reveal_strlit("Wheel up");
    reveal_strlit("Wheel down");
    reveal_strlit("Key sc");
    reveal_strlit("HID ");
}

/// Labels name the channel and never the device: two signals are called the same exactly where
/// they are the same button, notch, key or bit, of whatever device.
pub proof fn law_labels_tell_channels_apart(s: Signal, t: Signal)
    ensures
        s.title() == t.title() <==> same_channel(s, t),
{
    if s.title() == t.title() {
        lemma_initial(s);
        lemma_initial(t);
        match (s, t) {
            (Signal::MouseButton { index: a, .. }, Signal::MouseButton { index: b, .. }) => {
                reveal_strlit("Side back (X1)");
                reveal_strlit("Side forward (X2)");
                if initial(s) == 'S' {
                    assert("Side back (X1)"@[5] == 'b');
                    assert("Side forward (X2)"@[5] == 'f');
                } else if initial(s) == 'B' {
                    lemma_same_behind(
                        "Button "@,
                        text::decimal(a as nat),
                        text::decimal(b as nat),
                    );
                    text::lemma_numbers_differ(a as nat, b as nat, 10, 1, false);
                }
            },
            (Signal::Wheel { .. }, Signal::Wheel { .. }) => {
                reveal_strlit("Wheel up");
                reveal_strlit("Wheel down");
                assert("Wheel up"@[6] == 'u');
                assert("Wheel down"@[6] == 'd');
            },
            (
                Signal::Key { scancode: a, vk: c, .. },
                Signal::Key { scancode: b, vk: d, .. },
            ) => {
                lemma_key_titles_differ(a, c, b, d);
            },
            (
                Signal::HidBit { device, page: a, usage: c, byte: e, bit: g },
                Signal::HidBit { device: other, page: b, usage: d, byte: f, bit: h },
            ) => {
                lemma_bit_titles_differ((a, c, e, g), (b, d, f, h), device, other);
            },
            _ => {},
        }
    }
}

/// A signal knows the device that it came from, whatever it is.
pub proof fn law_signals_know_their_device(device: i64, a: u8, up: bool, b: u16, c: u16, d: u16)
    ensures
        (Signal::MouseButton { device, index: a }).source() == device,
        (Signal::Wheel { device, up }).source() == device,
        (Signal::Key { device, scancode: b, vk: c }).source() == device,
        (Signal::HidBit { device, page: b, usage: c, byte: d, bit: a }).source() == device,
{
}

} // verus!
