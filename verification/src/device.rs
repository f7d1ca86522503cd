//! The attached devices: their names, what is asked of the system for them, and whether that has
//! changed.
use vstd::prelude::*;
use vstd::string::StringExecFns;
use crate::clock;
use crate::text;

verus! {

/// Usage pages that are never listened to. Page 0x0D is the digitizer page: touchscreens and
/// touchpads stream coordinates on it, and a bit-diff turns every movement into presses.
pub open spec fn noise_page(page: u16) -> bool {
    page == 0x000D
}

pub fn page_is_noise(page: u16) -> (r: bool)
    ensures
        r == noise_page(page),
{
    page == 0x000D
}
/// What sort of device it is.
#[derive(Clone, Copy, PartialEq, Eq, Structural, Debug)]
pub enum Kind {
    Mouse,
    Keyboard,
    Hid,
}

impl Kind {
    pub open spec fn title(self) -> Seq<char> {
        match self {
            Kind::Mouse => "Mouse"@,
            Kind::Keyboard => "Keyboard"@,
            Kind::Hid => "HID"@,
        }
    }

    pub fn name(self) -> (r: &'static str)
        ensures
            r@ == self.title(),
    {
        match self {
            Kind::Mouse => "Mouse",
            Kind::Keyboard => "Keyboard",
            Kind::Hid => "HID",
        }
    }

    /// The system's number for a sort of device: 0 is a mouse, 1 a keyboard.
    pub fn of(code: u32) -> (r: Kind)
        ensures
            r == if code == 0 {
                Kind::Mouse
            } else if code == 1 {
                Kind::Keyboard
            } else {
                Kind::Hid
            },
    {
        if code == 0 {
            Kind::Mouse
        } else if code == 1 {
            Kind::Keyboard
        } else {
            Kind::Hid
        }
    }
}

/// An attached device.
#[derive(Clone, Debug)]
pub struct Device {
    pub handle: i64,
    pub kind: Kind,
    pub path: String,
    pub vid: Option<u16>,
    pub pid: Option<u16>,
    /// Buttons of a mouse, keys of a keyboard.
    pub buttons: u32,
    pub usage_page: u16,
    pub usage: u16,
}

/// What the system says of a device, by its sort.
#[derive(Clone, Copy, PartialEq, Eq, Structural, Debug)]
pub struct Info {
    /// Buttons of a mouse, keys of a keyboard.
    pub buttons: u32,
    pub usage_page: u16,
    pub usage: u16,
}

// ------------------------------------------------------------------- paths

/// `c` with an ASCII letter in upper case.
pub open spec fn upper(c: char) -> char {
    if 'a' <= c <= 'z' {
        ((c as nat - 32) as nat) as char
    } else {
        c
    }
}

/// Whether `key` stands in `s` at `i`.
pub open spec fn stands_at(s: Seq<char>, key: Seq<char>, i: int) -> bool {
    i + key.len() <= s.len() && s.subrange(i, i + key.len()) == key
}

/// Where `key` first stands in `s` from `i` on.
pub open spec fn found_from(s: Seq<char>, key: Seq<char>, i: int) -> Option<int>
    decreases s.len() - i + 1,
{
    if i < 0 || i + key.len() > s.len() {
        None
    } else if stands_at(s, key, i) {
        Some(i)
    } else {
        found_from(s, key, i + 1)
    }
}

/// A machine number as a mathematical one.
pub open spec fn wide(n: Option<u16>) -> Option<nat> {
    match n {
        Some(v) => Some(v as nat),
        None => None,
    }
}

/// The value of an upper-case hexadecimal digit.
pub open spec fn hex_digit(c: char) -> Option<nat> {
    if '0' <= c <= '9' {
        Some((c as nat - '0' as nat) as nat)
    } else if 'A' <= c <= 'F' {
        Some((c as nat - 'A' as nat + 10) as nat)
    } else {
        None
    }
}

/// The value of a run of hexadecimal digits.
pub open spec fn hex_run(s: Seq<char>) -> Option<nat>
    decreases s.len(),
{
    if s.len() == 0 {
        Some(0)
    } else {
        match (hex_run(s.drop_last()), hex_digit(s.last())) {
            (Some(high), Some(low)) => Some(high * 16 + low),
            _ => None,
        }
    }
}

/// The value of a hexadecimal number: one digit or more, a plus sign allowed in front.
pub open spec fn hex_number(s: Seq<char>) -> Option<nat> {
    let digits = if s.len() > 0 && s[0] == '+' {
        s.drop_first()
    } else {
        s
    };
    if digits.len() == 0 {
        None
    } else {
        hex_run(digits)
    }
}

/// The number in the up to four characters behind the first `key`.
pub open spec fn id_behind(s: Seq<char>, key: Seq<char>) -> Option<nat> {
    match found_from(s, key, 0) {
        None => None,
        Some(i) => {
            let start = i + key.len();
            let end = if start + 4 <= s.len() {
                start + 4
            } else {
                s.len() as int
            };
            hex_number(s.subrange(start, end))
        },
    }
}

/// A vendor or product number as a device path gives it.
pub open spec fn path_id(path: Seq<char>, key: Seq<char>) -> Option<nat> {
    id_behind(path.map_values(|c: char| upper(c)), key)
}

fn to_upper(c: char) -> (r: char)
    ensures
        r == upper(c),
{
    if c >= 'a' && c <= 'z' {
        let n: u8 = (c as u32 - 32) as u8;
        n as char
    } else {
        c
    }
}

fn uppercased(path: &str) -> (r: Vec<char>)
    ensures
        r@ == path@.map_values(|c: char| upper(c)),
{
    let chars = text::chars_of(path);
    let mut out: Vec<char> = Vec::new();
    let mut i: usize = 0;
    while i < chars.len()
        invariant
            i <= chars.len(),
            chars@ == path@,
            out@ == path@.map_values(|c: char| upper(c)).take(i as int),
        decreases chars.len() - i,
    {
        out.push(to_upper(chars[i]));
        i += 1;
    }
    out
}

fn matches_at(s: &Vec<char>, key: &Vec<char>, at: usize) -> (r: bool)
    requires
        at + key.len() <= s.len(),
    ensures
        r == stands_at(s@, key@, at as int),
{
    let mut k: usize = 0;
    while k < key.len()
        invariant
            k <= key.len(),
            at + key.len() <= s.len(),
            forall|j: int| 0 <= j < k ==> s@[at + j] == key@[j],
        decreases key.len() - k,
    {
        if s[at + k] != key[k] {
            assert(s@.subrange(at as int, at + key.len())[k as int] != key@[k as int]);
            return false;
        }
        k += 1;
    }
    assert(s@.subrange(at as int, at + key.len()) == key@);
    true
}

fn find(s: &Vec<char>, key: &Vec<char>) -> (r: Option<usize>)
    requires
        key.len() > 0,
    ensures
        found_from(s@, key@, 0) == match r {
            Some(i) => Some(i as int),
            None => None::<int>,
        },
        r matches Some(i) ==> i + key.len() <= s.len(),
{
    let mut i: usize = 0;
    while key.len() <= s.len() - i
        invariant
            key.len() > 0,
            i <= s.len(),
            found_from(s@, key@, 0) == found_from(s@, key@, i as int),
        decreases s.len() - i,
    {
        if matches_at(s, key, i) {
            return Some(i);
        }
        i += 1;
    }
    None
}

fn digit_value(c: char) -> (r: Option<u16>)
    ensures
        hex_digit(c) == wide(r),
        r matches Some(d) ==> d < 16,
{
    if c >= '0' && c <= '9' {
        Some((c as u32 - '0' as u32) as u16)
    } else if c >= 'A' && c <= 'F' {
        Some((c as u32 - 'A' as u32 + 10) as u16)
    } else {
        None
    }
}

/// Four digits at most leave no room for an overflow.
proof fn lemma_hex_run_bound(s: Seq<char>)
    ensures
        s.len() <= 4 ==> (hex_run(s) matches Some(v) ==> v < 0x1_0000),
        s.len() <= 3 ==> (hex_run(s) matches Some(v) ==> v < 0x1000),
        s.len() <= 2 ==> (hex_run(s) matches Some(v) ==> v < 0x100),
        s.len() <= 1 ==> (hex_run(s) matches Some(v) ==> v < 0x10),
        s.len() == 0 ==> hex_run(s) == Some(0nat),
    decreases s.len(),
{
    if s.len() > 0 {
        lemma_hex_run_bound(s.drop_last());
    }
}

proof fn lemma_hex_run_prefix(s: Seq<char>, n: int)
    requires
        0 <= n <= s.len(),
        hex_run(s.take(n)) is None,
    ensures
        hex_run(s) is None,
    decreases s.len(),
{
    if n < s.len() {
        assert(s.drop_last().take(n) == s.take(n));
        lemma_hex_run_prefix(s.drop_last(), n);
    } else {
        assert(s.take(n) == s);
    }
}

fn hex_value(s: &Vec<char>, start: usize, end: usize) -> (r: Option<u16>)
    requires
        start <= end <= s.len(),
        end - start <= 4,
    ensures
        hex_number(s@.subrange(start as int, end as int)) == wide(r),
{
    let ghost all = s@.subrange(start as int, end as int);
    let from: usize = if start < end && s[start] == '+' {
        start + 1
    } else {
        start
    };
    let ghost digits = s@.subrange(from as int, end as int);
    assert(digits == if all.len() > 0 && all[0] == '+' {
        all.drop_first()
    } else {
        all
    });
    if from == end {
        return None;
    }
    let mut i: usize = from;
    let mut value: u16 = 0;
    while i < end
        invariant
            from <= i <= end <= s.len(),
            end - from <= 4,
            digits == s@.subrange(from as int, end as int),
            hex_number(s@.subrange(start as int, end as int)) == hex_run(digits),
            hex_run(digits.take(i - from)) == Some(value as nat),
        decreases end - i,
    {
        let ghost seen = digits.take(i - from);
        let ghost more = digits.take(i + 1 - from);
        assert(more.drop_last() == seen);
        assert(more.last() == s@[i as int]);
        proof {
            lemma_hex_run_bound(seen);
        }
        match digit_value(s[i]) {
            Some(d) => {
                value = value * 16 + d;
            },
            None => {
                proof {
                    lemma_hex_run_prefix(digits, i + 1 - from);
                }
                return None;
            },
        }
        i += 1;
    }
    assert(digits.take(end - from) == digits);
    Some(value)
}

fn id_at(s: &Vec<char>, key: &str) -> (r: Option<u16>)
    requires
        key@.len() > 0,
    ensures
        id_behind(s@, key@) == wide(r),
{
    let key = text::chars_of(key);
    match find(s, &key) {
        None => None,
        Some(i) => {
            let start: usize = i + key.len();
            let end: usize = if s.len() - start >= 4 {
                start + 4
            } else {
                s.len()
            };
            hex_value(s, start, end)
        },
    }
}

/// The vendor and product numbers in a device path, where it names them.
pub fn parse_vid_pid(path: &str) -> (r: (Option<u16>, Option<u16>))
    ensures
        path_id(path@, "VID_"@) == wide(r.0),
        path_id(path@, "PID_"@) == wide(r.1),
{
    proof {
        reveal_strlit("VID_");
        reveal_strlit("PID_");
    }
    let up = uppercased(path);
    (id_at(&up, "VID_"), id_at(&up, "PID_"))
}

proof fn lemma_found_at(s: Seq<char>, key: Seq<char>, from: int, at: int)
    requires
        0 <= from <= at,
        stands_at(s, key, at),
        at + key.len() <= s.len(),
        forall|i: int| from <= i < at ==> !stands_at(s, key, i),
    ensures
        found_from(s, key, from) == Some(at),
    decreases at - from,
{
    if from < at {
        lemma_found_at(s, key, from + 1, at);
    }
}

proof fn lemma_digits_read_back(n: nat, width: nat)
    requires
        width >= 1,
        width <= 1 ==> n < 0x10,
        width == 2 ==> n < 0x100,
        width == 3 ==> n < 0x1000,
        width == 4 ==> n < 0x1_0000,
        width <= 4,
    ensures
        hex_run(text::number(n, 16, width, true)) == Some(n),
        text::number(n, 16, width, true).len() == width,
        text::number(n, 16, width, true)[0] != '+',
    decreases width,
{
    let s = text::number(n, 16, width, true);
    let low = text::digit(n % 16, true);
    assert(hex_digit(low) == Some(n % 16));
    assert(low != '+');
    if width > 1 {
        lemma_digits_read_back(n / 16, (width - 1) as nat);
        assert(s.drop_last() == text::number(n / 16, 16, (width - 1) as nat, true));
    } else {
        assert(s.drop_last() == Seq::<char>::empty());
        assert(hex_run(s.drop_last()) == Some(0nat));
    }
}

/// A vendor or product number reads back from a path that holds it, in four digits of either case
/// behind the first occurrence of its key.
pub proof fn law_path_numbers_read_back(path: Seq<char>, key: Seq<char>, at: int, id: u16)
    requires
        ({
            let up = path.map_values(|c: char| upper(c));
            let start = at + key.len();
            &&& 0 <= at
            &&& start + 4 <= path.len()
            &&& stands_at(up, key, at)
            &&& up.subrange(start, start + 4) == text::number(id as nat, 16, 4, true)
            &&& forall|i: int| 0 <= i < at ==> !stands_at(up, key, i)
        }),
    ensures
        path_id(path, key) == Some(id as nat),
{
    let up = path.map_values(|c: char| upper(c));
    lemma_found_at(up, key, 0, at);
    lemma_digits_read_back(id as nat, 4);
}

/// What stands in front of the first zero.
pub open spec fn before_zero(u: Seq<u16>) -> Seq<u16>
    decreases u.len(),
{
    if u.len() == 0 || u[0] == 0 {
        Seq::empty()
    } else {
        seq![u[0]] + before_zero(u.drop_first())
    }
}

/// Units without a zero, up to one or to the end, are what stands in front of the first zero.
pub proof fn lemma_before_zero(u: Seq<u16>, n: int)
    requires
        0 <= n <= u.len(),
        forall|i: int| 0 <= i < n ==> u[i] != 0,
        n < u.len() ==> u[n] == 0,
    ensures
        before_zero(u) == u.take(n),
    decreases n,
{
    if n > 0 {
        lemma_before_zero(u.drop_first(), n - 1);
        assert(seq![u[0]] + u.drop_first().take(n - 1) == u.take(n));
    }
}

/// The device path in a buffer that a zero ends.
pub fn device_path(buf: &Vec<u16>) -> (r: String)
    ensures
        r@ == text::utf16_decoded(before_zero(buf@)),
{
    let mut end: usize = 0;
    let mut units: Vec<u16> = Vec::new();
    while end < buf.len() && buf[end] != 0
        invariant
            end <= buf.len(),
            units@ == buf@.take(end as int),
            forall|i: int| 0 <= i < end ==> buf@[i] != 0,
        decreases buf.len() - end,
    {
        units.push(buf[end]);
        end += 1;
    }
    proof {
        lemma_before_zero(buf@, end as int);
    }
    text::decode_utf16(units.as_slice())
}

impl Device {
    /// What the device is called: its sort and its numbers, where it has both.
    pub open spec fn title(self) -> Seq<char> {
        match (self.vid, self.pid) {
            (Some(v), Some(p)) => self.kind.title() + " "@ + text::number(v as nat, 16, 4, true)
                + ":"@ + text::number(p as nat, 16, 4, true),
            _ => self.kind.title() + " (built-in)"@,
        }
    }

    pub fn label(&self) -> (r: String)
        ensures
            r@ == self.title(),
    {
        let mut out = String::from_str(self.kind.name());
        match (self.vid, self.pid) {
            (Some(v), Some(p)) => {
                out.append(" ");
                text::push_number(&mut out, v as u64, 16, 4, true);
                out.append(":");
                text::push_number(&mut out, p as u64, 16, 4, true);
            },
            _ => {
                out.append(" (built-in)");
            },
        }
        out
    }

    /// What there is to say of a device besides its name: how many buttons or keys it has, or
    /// what sort of collection it is.
    pub open spec fn particulars(self) -> Seq<char> {
        match self.kind {
            Kind::Mouse => text::decimal(self.buttons as nat) + " buttons"@,
            Kind::Keyboard => text::decimal(self.buttons as nat) + " keys"@,
            Kind::Hid => "page "@ + text::hexed(self.usage_page as nat, 4) + " usage "@
                + text::hexed(self.usage as nat, 4),
        }
    }

    pub fn detail(&self) -> (r: String)
        ensures
            r@ == self.particulars(),
    {
        let mut out = String::new();
        match self.kind {
            Kind::Mouse => {
                text::push_decimal(&mut out, self.buttons as u64);
                out.append(" buttons");
            },
            Kind::Keyboard => {
                text::push_decimal(&mut out, self.buttons as u64);
                out.append(" keys");
            },
            Kind::Hid => {
                out.append("page ");
                text::push_hexed(&mut out, self.usage_page, 4);
                out.append(" usage ");
                text::push_hexed(&mut out, self.usage, 4);
            },
        }
        out
    }

    /// The sort that the system's number for it means.
    pub open spec fn sort(code: u32) -> Kind {
        if code == 0 {
            Kind::Mouse
        } else if code == 1 {
            Kind::Keyboard
        } else {
            Kind::Hid
        }
    }

    /// Buttons, usage page and usage of a device, by its sort.
    pub open spec fn particular(code: u32, info: Option<Info>) -> (u32, u16, u16) {
        match info {
            Some(i) => if code <= 1 {
                (i.buttons, 0, 0)
            } else {
                (0, i.usage_page, i.usage)
            },
            None => (0, 0, 0),
        }
    }

    /// A device from what the system lists and says of it. A mouse and a keyboard have buttons
    /// and no usage, any other device has a usage and no buttons, and one that the system says
    /// nothing of has neither.
    pub fn described(handle: i64, code: u32, path: String, info: Option<Info>) -> (r: Device)
        ensures
            r.handle == handle,
            r.kind == (if code == 0 {
                Kind::Mouse
            } else if code == 1 {
                Kind::Keyboard
            } else {
                Kind::Hid
            }),
            r.path == path,
            wide(r.vid) == path_id(path@, "VID_"@),
            wide(r.pid) == path_id(path@, "PID_"@),
            r.buttons == (match info {
                Some(i) if code <= 1 => i.buttons,
                _ => 0,
            }),
            (r.usage_page, r.usage) == (match info {
                Some(i) if code > 1 => (i.usage_page, i.usage),
                _ => (0, 0),
            }),
            r.kind == Device::sort(code),
            (r.buttons, r.usage_page, r.usage) == Device::particular(code, info),
    {
        let (vid, pid) = parse_vid_pid(path.as_str());
        let mut d = Device {
            handle,
            kind: Kind::of(code),
            path,
            vid,
            pid,
            buttons: 0,
            usage_page: 0,
            usage: 0,
        };
        if let Some(i) = info {
            if code <= 1 {
                d.buttons = i.buttons;
            } else {
                d.usage_page = i.usage_page;
                d.usage = i.usage;
            }
        }
        d
    }
}

/// The last device with this handle among the first `n`.
pub open spec fn device_at(devs: Seq<Device>, handle: i64, n: nat) -> Option<Device>
    decreases n,
{
    if n == 0 {
        None
    } else if devs[n - 1].handle == handle {
        Some(devs[n - 1])
    } else {
        device_at(devs, handle, (n - 1) as nat)
    }
}

/// What to call the device behind a handle: its name where it is listed, else the handle itself,
/// in hexadecimal.
pub fn name_of(devs: &Vec<Device>, handle: i64) -> (r: String)
    ensures
        r@ == (match device_at(devs@, handle, devs@.len()) {
            Some(d) => d.title(),
            None => "handle 0x"@ + text::number(handle as u64 as nat, 16, 1, false),
        }),
{
    let mut i: usize = devs.len();
    while i > 0
        invariant
            i <= devs.len(),
            device_at(devs@, handle, devs@.len()) == device_at(devs@, handle, i as nat),
        decreases i,
    {
        i -= 1;
        if devs[i].handle == handle {
            return devs[i].label();
        }
    }
    let mut out = String::from_str("handle 0x");
    text::push_number(&mut out, handle as u64, 16, 1, false);
    out
}

/// How long a buffer to offer for a device path of `n` units; nothing where the system reports
/// none, or more than a path can have.
pub fn path_room(n: u32) -> (r: Option<usize>)
    ensures
        r == if n == 0 || n > 4096 {
            None::<usize>
        } else {
            Some((n + 1) as usize)
        },
{
    if n == 0 || n > 4096 {
        None
    } else {
        Some(n as usize + 1)
    }
}

// ------------------------------------------------------------ registration

/// A usage that raw input is asked for, how, and which window gets it.
#[derive(Clone, Copy, PartialEq, Eq, Structural, Debug)]
pub struct Registration {
    pub page: u16,
    pub usage: u16,
    pub flags: u32,
    pub target: i64,
}

/// Ends a registration.
pub const REG_REMOVE: u32 = 0x0000_0001;

/// Delivers input also while another program is in front.
pub const REG_INPUT_SINK: u32 = 0x0000_0100;

/// Reports devices that come and go.
pub const REG_DEVICE_NOTIFY: u32 = 0x0000_2000;

/// The usages that are always asked for: mouse, keyboard, consumer controls.
pub open spec fn standard_usages() -> Seq<(u16, u16)> {
    seq![(0x01u16, 0x02u16), (0x01u16, 0x06u16), (0x0Cu16, 0x01u16)]
}

/// A collection that is worth asking for.
pub open spec fn collection(d: Device) -> bool {
    d.kind == Kind::Hid && d.usage_page != 0 && !noise_page(d.usage_page)
}

/// The usages to ask for: the standard ones, then each other collection once, in the order in
/// which the devices are listed.
pub open spec fn wanted_usages(devs: Seq<Device>) -> Seq<(u16, u16)>
    decreases devs.len(),
{
    if devs.len() == 0 {
        standard_usages()
    } else {
        let before = wanted_usages(devs.drop_last());
        let pair = (devs.last().usage_page, devs.last().usage);
        if collection(devs.last()) && !before.contains(pair) {
            before.push(pair)
        } else {
            before
        }
    }
}

/// The registration of one usage. To remove one the target has to be null.
pub open spec fn registration(pair: (u16, u16), hwnd: i64, remove: bool) -> Registration {
    Registration {
        page: pair.0,
        usage: pair.1,
        flags: if remove {
            REG_REMOVE
        } else {
            (REG_INPUT_SINK + REG_DEVICE_NOTIFY) as u32
        },
        target: if remove {
            0
        } else {
            hwnd
        },
    }
}

fn has_pair(pairs: &Vec<(u16, u16)>, pair: (u16, u16)) -> (r: bool)
    ensures
        r == pairs@.contains(pair),
{
    let mut i: usize = 0;
    while i < pairs.len()
        invariant
            i <= pairs.len(),
            forall|j: int| 0 <= j < i ==> pairs@[j] != pair,
        decreases pairs.len() - i,
    {
        if pairs[i].0 == pair.0 && pairs[i].1 == pair.1 {
            assert(pairs@[i as int] == pair);
            return true;
        }
        i += 1;
    }
    false
}

fn usage_pairs(devs: &Vec<Device>) -> (r: Vec<(u16, u16)>)
    ensures
        r@ == wanted_usages(devs@),
{
    let mut pairs: Vec<(u16, u16)> = Vec::new();
    pairs.push((0x01, 0x02));
    pairs.push((0x01, 0x06));
    pairs.push((0x0C, 0x01));
    let mut i: usize = 0;
    while i < devs.len()
        invariant
            i <= devs.len(),
            pairs@ == wanted_usages(devs@.take(i as int)),
        decreases devs.len() - i,
    {
        let d = &devs[i];
        assert(devs@.take(i + 1).drop_last() == devs@.take(i as int));
        if d.kind == Kind::Hid && d.usage_page != 0 && !page_is_noise(d.usage_page) {
            let pair: (u16, u16) = (d.usage_page, d.usage);
            if !has_pair(&pairs, pair) {
                pairs.push(pair);
            }
        }
        i += 1;
    }
    assert(devs@.take(i as int) == devs@);
    pairs
}

/// What to register, or to remove, for the devices that are attached.
pub fn registration_set(hwnd: i64, remove: bool, devs: &Vec<Device>) -> (r: Vec<Registration>)
    ensures
        r@ == wanted_usages(devs@).map_values(
            |pair: (u16, u16)| registration(pair, hwnd, remove),
        ),
{
    let pairs = usage_pairs(devs);
    let mut out: Vec<Registration> = Vec::new();
    let mut i: usize = 0;
    assert(0x100u32 | 0x2000u32 == 0x2100u32) by (bit_vector);
    while i < pairs.len()
        invariant
            i <= pairs.len(),
            pairs@ == wanted_usages(devs@),
            0x100u32 | 0x2000u32 == 0x2100u32,
            out@ == wanted_usages(devs@).map_values(
                |pair: (u16, u16)| registration(pair, hwnd, remove),
            ).take(i as int),
        decreases pairs.len() - i,
    {
        let (page, usage): (u16, u16) = pairs[i];
        out.push(
            Registration {
                page,
                usage,
                flags: if remove {
                    REG_REMOVE
                } else {
                    REG_INPUT_SINK | REG_DEVICE_NOTIFY
                },
                target: if remove {
                    0
                } else {
                    hwnd
                },
            },
        );
        i += 1;
    }
    out
}

/// No usage is asked for twice, the standard ones are always asked for, and so is each collection
/// that is attached; a digitizer never is.
pub proof fn law_wanted_usages(devs: Seq<Device>)
    ensures
        wanted_usages(devs).no_duplicates(),
        forall|p: (u16, u16)| standard_usages().contains(p) ==> #[trigger] wanted_usages(
            devs,
        ).contains(p),
        forall|i: int|
            0 <= i < devs.len() && collection(#[trigger] devs[i]) ==> wanted_usages(devs).contains(
                (devs[i].usage_page, devs[i].usage),
            ),
        forall|p: (u16, u16)| #[trigger]
            wanted_usages(devs).contains(p) ==> !noise_page(p.0) && (standard_usages().contains(p)
                || exists|i: int|
                0 <= i < devs.len() && collection(#[trigger] devs[i]) && p == (
                    devs[i].usage_page,
                    devs[i].usage,
                )),
    decreases devs.len(),
{
    if devs.len() > 0 {
        let init = devs.drop_last();
        let before = wanted_usages(init);
        let after = wanted_usages(devs);
        let pair = (devs.last().usage_page, devs.last().usage);
        law_wanted_usages(init);
        assert(forall|p: (u16, u16)| before.contains(p) ==> after.contains(p)) by {
            assert forall|p: (u16, u16)| before.contains(p) implies after.contains(p) by {
                let k = choose|k: int| 0 <= k < before.len() && before[k] == p;
                assert(after[k] == p);
            }
        }
        assert forall|i: int| 0 <= i < devs.len() && collection(#[trigger] devs[i]) implies after.contains(
            (devs[i].usage_page, devs[i].usage),
        ) by {
            if i < init.len() {
                assert(init[i] == devs[i]);
            } else if !before.contains(pair) {
                assert(after[before.len() as int] == pair);
            }
        }
        assert forall|p: (u16, u16)| #[trigger] after.contains(p) implies !noise_page(p.0) && (
        standard_usages().contains(p) || exists|i: int|
            0 <= i < devs.len() && collection(#[trigger] devs[i]) && p == (
                devs[i].usage_page,
                devs[i].usage,
            )) by {
            if before.contains(p) {
                if !standard_usages().contains(p) {
                    let i = choose|i: int|
                        0 <= i < init.len() && collection(#[trigger] init[i]) && p == (
                            init[i].usage_page,
                            init[i].usage,
                        );
                    assert(devs[i] == init[i]);
                }
            } else {
                assert(devs[devs.len() - 1] == devs.last());
            }
        }
    }
}

// -------------------------------------------------------------- fingerprint

/// The `n` low bytes of `x`, the lowest first.
pub open spec fn le_bytes(x: nat, n: nat) -> Seq<u8>
    decreases n,
{
    if n == 0 {
        Seq::empty()
    } else {
        seq![(x % 256) as u8] + le_bytes(x / 256, (n - 1) as nat)
    }
}

/// One step of 64-bit FNV-1a.
pub open spec fn hash_step(h: u64, b: u8) -> u64 {
    (((h ^ (b as u64)) as nat * 0x100_0000_01b3) % 0x1_0000_0000_0000_0000) as u64
}

/// 64-bit FNV-1a of `bytes`, started from `h`.
pub open spec fn hashed(h: u64, bytes: Seq<u8>) -> u64
    decreases bytes.len(),
{
    if bytes.len() == 0 {
        h
    } else {
        hash_step(hashed(h, bytes.drop_last()), bytes.last())
    }
}

/// The bytes that stand for a device in the fingerprint: its handle and its usage.
pub open spec fn device_bytes(d: Device) -> Seq<u8> {
    le_bytes((d.handle as u64) as nat, 8) + le_bytes(d.usage_page as nat, 2) + le_bytes(
        d.usage as nat,
        2,
    )
}

/// The bytes that stand for a list of devices.
pub open spec fn devices_bytes(devs: Seq<Device>) -> Seq<u8>
    decreases devs.len(),
{
    if devs.len() == 0 {
        Seq::empty()
    } else {
        devices_bytes(devs.drop_last()) + device_bytes(devs.last())
    }
}

/// The fingerprint of the devices that are attached.
pub open spec fn fingerprint(devs: Seq<Device>) -> u64 {
    hashed(0xcbf2_9ce4_8422_2325, devices_bytes(devs))
}

proof fn lemma_hashed_appends(h: u64, a: Seq<u8>, b: Seq<u8>)
    ensures
        hashed(h, a + b) == hashed(hashed(h, a), b),
    decreases b.len(),
{
    if b.len() == 0 {
        assert(a + b == a);
    } else {
        assert((a + b).drop_last() == a + b.drop_last());
        lemma_hashed_appends(h, a, b.drop_last());
    }
}

fn hash_bytes(h: u64, x: u64, n: u32) -> (r: u64)
    ensures
        r == hashed(h, le_bytes(x as nat, n as nat)),
    decreases n,
{
    if n == 0 {
        h
    } else {
        let low: u64 = x % 256;
        let next: u64 = (h ^ low).wrapping_mul(0x100_0000_01b3);
        proof {
            let first = seq![low as u8];
            assert(first.drop_last() == Seq::<u8>::empty());
            assert(hashed(h, Seq::<u8>::empty()) == h);
            assert(hashed(h, first) == next);
            lemma_hashed_appends(h, first, le_bytes((x / 256) as nat, (n - 1) as nat));
        }
        hash_bytes(next, x / 256, n - 1)
    }
}

/// A cheap fingerprint of the attached devices: while it stays the same there is nothing new to
/// register.
pub fn device_signature(devs: &Vec<Device>) -> (r: u64)
    ensures
        r == fingerprint(devs@),
{
    let mut h: u64 = 0xcbf2_9ce4_8422_2325;
    let mut i: usize = 0;
    while i < devs.len()
        invariant
            i <= devs.len(),
            h == fingerprint(devs@.take(i as int)),
        decreases devs.len() - i,
    {
        let d = &devs[i];
        proof {
            let seen = devs@.take(i as int);
            let more = devs@.take(i + 1);
            assert(more.drop_last() == seen);
            let handle = le_bytes((d.handle as u64) as nat, 8);
            let page = le_bytes(d.usage_page as nat, 2);
            let usage = le_bytes(d.usage as nat, 2);
            let start = 0xcbf2_9ce4_8422_2325u64;
            lemma_hashed_appends(start, devices_bytes(seen), device_bytes(*d));
            lemma_hashed_appends(h, handle + page, usage);
            lemma_hashed_appends(h, handle, page);
        }
        h = hash_bytes(h, d.handle as u64, 8);
        h = hash_bytes(h, d.usage_page as u64, 2);
        h = hash_bytes(h, d.usage as u64, 2);
        i += 1;
    }
    assert(devs@.take(i as int) == devs@);
    h
}

/// Two devices with the same handle and the same usage.
pub open spec fn same_registration(a: Device, b: Device) -> bool {
    a.handle == b.handle && a.usage_page == b.usage_page && a.usage == b.usage
}

/// The fingerprint looks at nothing but handles and usages, in their order.
pub proof fn law_fingerprint_of_same_devices(a: Seq<Device>, b: Seq<Device>)
    requires
        a.len() == b.len(),
        forall|i: int| 0 <= i < a.len() ==> same_registration(#[trigger] a[i], b[i]),
    ensures
        fingerprint(a) == fingerprint(b),
{
    lemma_bytes_of_same_devices(a, b);
}

proof fn lemma_bytes_of_same_devices(a: Seq<Device>, b: Seq<Device>)
    requires
        a.len() == b.len(),
        forall|i: int| 0 <= i < a.len() ==> same_registration(#[trigger] a[i], b[i]),
    ensures
        devices_bytes(a) == devices_bytes(b),
    decreases a.len(),
{
    if a.len() > 0 {
        lemma_bytes_of_same_devices(a.drop_last(), b.drop_last());
        assert(same_registration(a[a.len() - 1], b[a.len() - 1]));
    }
}

/// 256 to the power of `n`.
pub open spec fn pow256(n: nat) -> nat
    decreases n,
{
    if n == 0 {
        1
    } else {
        256 * pow256((n - 1) as nat)
    }
}

proof fn lemma_le_bytes_len(x: nat, n: nat)
    ensures
        le_bytes(x, n).len() == n,
    decreases n,
{
    if n > 0 {
        lemma_le_bytes_len(x / 256, (n - 1) as nat);
    }
}

proof fn lemma_le_bytes_distinct(x: nat, y: nat, n: nat)
    requires
        x < pow256(n),
        y < pow256(n),
        le_bytes(x, n) == le_bytes(y, n),
    ensures
        x == y,
    decreases n,
{
    if n > 0 {
        let m = (n - 1) as nat;
        let a = seq![(x % 256) as u8] + le_bytes(x / 256, m);
        let b = seq![(y % 256) as u8] + le_bytes(y / 256, m);
        assert(a[0] == b[0]);
        assert(a.drop_first() == le_bytes(x / 256, m));
        assert(b.drop_first() == le_bytes(y / 256, m));
        lemma_le_bytes_distinct(x / 256, y / 256, m);
    }
}

/// Lists that differ in a handle, a usage or their length never give the hash the same bytes:
/// a change of devices can go unnoticed only by a collision of the hash itself.
pub proof fn law_fingerprint_covers_registration(a: Seq<Device>, b: Seq<Device>)
    requires
        devices_bytes(a) == devices_bytes(b),
    ensures
        a.len() == b.len(),
        forall|i: int| 0 <= i < a.len() ==> same_registration(#[trigger] a[i], b[i]),
    decreases a.len(),
{
    lemma_devices_bytes_len(a);
    lemma_devices_bytes_len(b);
    if a.len() > 0 {
        let x = a.last();
        let y = b.last();
        let left = devices_bytes(a.drop_last());
        let right = devices_bytes(b.drop_last());
        lemma_devices_bytes_len(a.drop_last());
        lemma_devices_bytes_len(b.drop_last());
        lemma_device_bytes_parts(x);
        lemma_device_bytes_parts(y);
        let n = left.len() as int;
        assert((left + device_bytes(x)).take(n) == left);
        assert((right + device_bytes(y)).take(n) == right);
        assert((left + device_bytes(x)).skip(n) == device_bytes(x));
        assert((right + device_bytes(y)).skip(n) == device_bytes(y));
        law_fingerprint_covers_registration(a.drop_last(), b.drop_last());
        lemma_device_bytes_distinct(x, y);
        assert forall|i: int| 0 <= i < a.len() implies same_registration(#[trigger] a[i], b[i]) by {
            if i < a.len() - 1 {
                assert(same_registration(a.drop_last()[i], b.drop_last()[i]));
            }
        }
    }
}

proof fn lemma_device_bytes_parts(d: Device)
    ensures
        device_bytes(d).len() == 12,
        device_bytes(d).subrange(0, 8) == le_bytes((d.handle as u64) as nat, 8),
        device_bytes(d).subrange(8, 10) == le_bytes(d.usage_page as nat, 2),
        device_bytes(d).subrange(10, 12) == le_bytes(d.usage as nat, 2),
{
    lemma_le_bytes_len((d.handle as u64) as nat, 8);
    lemma_le_bytes_len(d.usage_page as nat, 2);
    lemma_le_bytes_len(d.usage as nat, 2);
}

proof fn lemma_devices_bytes_len(devs: Seq<Device>)
    ensures
        devices_bytes(devs).len() == 12 * devs.len(),
    decreases devs.len(),
{
    if devs.len() > 0 {
        lemma_devices_bytes_len(devs.drop_last());
        lemma_device_bytes_parts(devs.last());
    }
}

proof fn lemma_device_bytes_distinct(x: Device, y: Device)
    requires
        device_bytes(x) == device_bytes(y),
    ensures
        same_registration(x, y),
{
    lemma_device_bytes_parts(x);
    lemma_device_bytes_parts(y);
    reveal_with_fuel(pow256, 9);
    lemma_le_bytes_distinct((x.handle as u64) as nat, (y.handle as u64) as nat, 8);
    lemma_le_bytes_distinct(x.usage_page as nat, y.usage_page as nat, 2);
    lemma_le_bytes_distinct(x.usage as nat, y.usage as nat, 2);
    let a = x.handle;
    let b = y.handle;
    assert(a as u64 == b as u64 ==> a == b) by (bit_vector);
}

/// One step of the hash merges nothing, neither two states nor two bytes.
proof fn lemma_hash_step_distinct(h: u64, g: u64, b: u8, c: u8)
    requires
        (h == g && b != c) || (h != g && b == c),
    ensures
        hash_step(h, b) != hash_step(g, c),
{
    let (x, y) = (h ^ (b as u64), g ^ (c as u64));
    assert(x != y) by {
        assert(h == g && b != c ==> h ^ (b as u64) != g ^ (c as u64)) by (bit_vector);
        assert(h != g && b == c ==> h ^ (b as u64) != g ^ (c as u64)) by (bit_vector);
    }
    clock::lemma_product_undone(
        x as int,
        0x100_0000_01b3,
        0xce96_5057_aff6_957b,
        0x1_0000_0000_0000_0000,
    );
    clock::lemma_product_undone(
        y as int,
        0x100_0000_01b3,
        0xce96_5057_aff6_957b,
        0x1_0000_0000_0000_0000,
    );
}

proof fn lemma_hashes_stay_distinct(h: u64, g: u64, bytes: Seq<u8>)
    requires
        h != g,
    ensures
        hashed(h, bytes) != hashed(g, bytes),
    decreases bytes.len(),
{
    if bytes.len() > 0 {
        lemma_hashes_stay_distinct(h, g, bytes.drop_last());
        lemma_hash_step_distinct(
            hashed(h, bytes.drop_last()),
            hashed(g, bytes.drop_last()),
            bytes.last(),
            bytes.last(),
        );
    }
}

proof fn lemma_one_byte_changes_the_hash(h: u64, a: Seq<u8>, b: Seq<u8>, at: int)
    requires
        a.len() == b.len(),
        0 <= at < a.len(),
        a[at] != b[at],
        forall|i: int| 0 <= i < a.len() && i != at ==> a[i] == b[i],
    ensures
        hashed(h, a) != hashed(h, b),
    decreases a.len(),
{
    let (p, q) = (a.drop_last(), b.drop_last());
    if at == a.len() - 1 {
        assert(p == q);
        lemma_hash_step_distinct(hashed(h, p), hashed(h, q), a.last(), b.last());
    } else {
        lemma_one_byte_changes_the_hash(h, p, q, at);
        lemma_hash_step_distinct(hashed(h, p), hashed(h, q), a.last(), b.last());
    }
}

/// A change of one byte of one device's handle or usage changes the fingerprint. No devices have
/// the one that the hash starts from.
pub proof fn law_one_byte_changes_the_fingerprint(
    a: Seq<Device>,
    b: Seq<Device>,
    device: int,
    byte: int,
)
    requires
        a.len() == b.len(),
        0 <= device < a.len(),
        forall|i: int|
            0 <= i < a.len() && i != device ==> same_registration(#[trigger] a[i], b[i]),
        0 <= byte < 12,
        device_bytes(a[device])[byte] != device_bytes(b[device])[byte],
        forall|i: int|
            0 <= i < 12 && i != byte ==> device_bytes(a[device])[i] == device_bytes(b[device])[i],
    ensures
        fingerprint(a) != fingerprint(b),
        fingerprint(Seq::empty()) == 0xcbf2_9ce4_8422_2325,
    decreases a.len(),
{
    let (p, q) = (a.drop_last(), b.drop_last());
    let n = a.len() - 1;
    let start: u64 = 0xcbf2_9ce4_8422_2325;
    lemma_hashed_appends(start, devices_bytes(p), device_bytes(a.last()));
    lemma_hashed_appends(start, devices_bytes(q), device_bytes(b.last()));
    assert(forall|i: int| 0 <= i < n ==> #[trigger] p[i] == a[i] && q[i] == b[i]);
    if device == n {
        assert forall|i: int| 0 <= i < p.len() implies same_registration(#[trigger] p[i], q[i]) by {
            assert(same_registration(a[i], b[i]));
        }
        lemma_bytes_of_same_devices(p, q);
        lemma_device_bytes_parts(a.last());
        lemma_device_bytes_parts(b.last());
        lemma_one_byte_changes_the_hash(
            fingerprint(p),
            device_bytes(a.last()),
            device_bytes(b.last()),
            byte,
        );
    } else {
        assert forall|i: int| 0 <= i < p.len() && i != device implies same_registration(
            #[trigger] p[i],
            q[i],
        ) by {
            assert(same_registration(a[i], b[i]));
        }
        law_one_byte_changes_the_fingerprint(p, q, device, byte);
        assert(same_registration(a[n], b[n]));
        lemma_hashes_stay_distinct(fingerprint(p), fingerprint(q), device_bytes(a.last()));
    }
}

// ------------------------------------------------------- names and numbers

/// Whether `key`, which is in upper case, stands in a path at `i`, in either case.
pub open spec fn written_at(path: Seq<char>, key: Seq<char>, i: int) -> bool {
    &&& 0 <= i
    &&& i + key.len() <= path.len()
    &&& forall|j: int|
        0 <= j < key.len() ==> (#[trigger] path[i + j] as int == key[j] as int || (97 <= path[i
            + j] as int <= 122 && path[i + j] as int - 32 == key[j] as int))
}

proof fn lemma_written(path: Seq<char>, key: Seq<char>, i: int)
    requires
        0 <= i,
        forall|j: int| 0 <= j < key.len() ==> !(97 <= #[trigger] key[j] as int <= 122),
    ensures
        stands_at(path.map_values(|c: char| upper(c)), key, i) <==> written_at(path, key, i),
{
    let up = path.map_values(|c: char| upper(c));
    if i + key.len() <= path.len() {
        let part = up.subrange(i, i + key.len());
        assert forall|j: int| 0 <= j < key.len() implies (part[j] == key[j]) == (#[trigger] path[i
            + j] as int == key[j] as int || (97 <= path[i + j] as int <= 122 && path[i + j] as int
            - 32 == key[j] as int)) by {
            assert(part[j] == upper(path[i + j]));
            text::lemma_char_range(path[i + j]);
            text::lemma_char_range(key[j]);
        }
        if stands_at(up, key, i) {
            assert forall|j: int| 0 <= j < key.len() implies (#[trigger] path[i + j] as int
                == key[j] as int || (97 <= path[i + j] as int <= 122 && path[i + j] as int - 32
                == key[j] as int)) by {
                assert(part[j] == key[j]);
            }
        }
        if written_at(path, key, i) {
            assert forall|j: int| 0 <= j < key.len() implies part[j] == key[j] by {
                let c = path[i + j];
                assert(c as int == key[j] as int || (97 <= c as int <= 122 && c as int - 32
                    == key[j] as int));
                assert(part[j] == upper(c));
            }
            assert(part == key);
        }
    }
}

proof fn lemma_never_found(s: Seq<char>, key: Seq<char>, from: int)
    requires
        0 <= from,
        forall|i: int| from <= i ==> !stands_at(s, key, i),
    ensures
        found_from(s, key, from) is None,
    decreases s.len() - from + 1,
{
    if from + key.len() <= s.len() {
        lemma_never_found(s, key, from + 1);
    }
}

proof fn lemma_digit_worth(c: char)
    ensures
        text::worth(c) < 16 ==> hex_digit(upper(c)) == Some(text::worth(c) as nat) && upper(c)
            != '+',
        text::worth(c) >= 16 ==> hex_digit(upper(c)) is None,
        c != '+' ==> upper(c) != '+',
{
    text::lemma_char_range(c);
}

/// A path names a vendor or a product by the four hexadecimal digits behind the first occurrence of
/// its key; upper or lower case makes no difference, neither to the key nor to the digits. A path
/// without the key names none, nor does one where something else stands behind it.
pub proof fn law_paths_name_their_numbers(path: Seq<char>, key: Seq<char>, at: int)
    requires
        key.len() > 0,
        forall|j: int| 0 <= j < key.len() ==> !(97 <= #[trigger] key[j] as int <= 122),
    ensures
        (forall|i: int| !(#[trigger] written_at(path, key, i))) ==> path_id(path, key) is None,
        written_at(path, key, at) && (forall|i: int|
            0 <= i < at ==> !(#[trigger] written_at(path, key, i))) ==> {
            let start = at + key.len();
            let d = |i: int| text::worth(path[start + i]);
            &&& start + 4 <= path.len() && d(0) < 16 && d(1) < 16 && d(2) < 16 && d(3) < 16
                ==> path_id(path, key) == Some(
                (4096 * d(0) + 256 * d(1) + 16 * d(2) + d(3)) as nat,
            )
            &&& start == path.len() ==> path_id(path, key) is None
            &&& start < path.len() && d(0) >= 16 && path[start] != '+' ==> path_id(path, key) is None
        },
{
    let up = path.map_values(|c: char| upper(c));
    assert forall|i: int| 0 <= i implies (#[trigger] stands_at(up, key, i) <==> written_at(
        path,
        key,
        i,
    )) by {
        lemma_written(path, key, i);
    }
    if forall|i: int| !(#[trigger] written_at(path, key, i)) {
        lemma_never_found(up, key, 0);
    }
    if written_at(path, key, at) && (forall|i: int|
        0 <= i < at ==> !(#[trigger] written_at(path, key, i))) {
        lemma_written(path, key, at);
        lemma_found_at(up, key, 0, at);
        let start = at + key.len();
        let end = if start + 4 <= up.len() {
            start + 4
        } else {
            up.len() as int
        };
        let s = up.subrange(start, end);
        if start < path.len() {
            lemma_digit_worth(path[start]);
            assert(s[0] == upper(path[start]));
            if text::worth(path[start]) >= 16 && path[start] != '+' {
                assert(s.take(1).drop_last() == Seq::<char>::empty());
                assert(s.take(1).last() == s[0]);
                assert(hex_run(s.take(1)) is None);
                lemma_hex_run_prefix(s, 1);
            }
        }
        if start + 4 <= path.len() && text::worth(path[start]) < 16 && text::worth(path[start + 1])
            < 16 && text::worth(path[start + 2]) < 16 && text::worth(path[start + 3]) < 16 {
            lemma_digit_worth(path[start + 1]);
            lemma_digit_worth(path[start + 2]);
            lemma_digit_worth(path[start + 3]);
            let (three, two, one, none) = (s.drop_last(), s.take(2), s.take(1), s.take(0));
            assert(three.drop_last() == two && two.drop_last() == one && one.drop_last() == none);
            assert(hex_run(none) == Some(0nat));
            assert(one.last() == upper(path[start]) && two.last() == upper(path[start + 1]));
            assert(three.last() == upper(path[start + 2]) && s.last() == upper(path[start + 3]));
            let (a, b, c) = (
                text::worth(path[start]),
                text::worth(path[start + 1]),
                text::worth(path[start + 2]),
            );
            assert(hex_run(one) == Some(a as nat));
            assert(hex_run(two) == Some((16 * a + b) as nat));
            assert(hex_run(three) == Some((256 * a + 16 * b + c) as nat));
        }
    }
}

/// A device with both numbers is called by its sort and by them, each in four digits; one without is
/// built in.
pub proof fn law_names_hold_the_numbers(d: Device)
    ensures
        ({
            let k = d.kind.title().len() as int;
            let name = d.title();
            &&& name.take(k) == d.kind.title()
            &&& d.vid is Some && d.pid is Some ==> {
                &&& name.len() == k + 10
                &&& name[k] as int == 32
                &&& text::read_in(name.subrange(k + 1, k + 5), 16) == d.vid->0
                &&& name[k + 5] as int == 58
                &&& text::read_in(name.subrange(k + 6, k + 10), 16) == d.pid->0
            }
            &&& d.vid is None || d.pid is None ==> name == d.kind.title() + " (built-in)"@
        }),
{
    reveal_strlit(" ");
    reveal_strlit(":");
    let k = d.kind.title().len() as int;
    let name = d.title();
    if d.vid is Some && d.pid is Some {
        let a = text::number(d.vid->0 as nat, 16, 4, true);
        let b = text::number(d.pid->0 as nat, 16, 4, true);
        lemma_digits_read_back(d.vid->0 as nat, 4);
        lemma_digits_read_back(d.pid->0 as nat, 4);
        text::law_numbers_read_back(d.vid->0 as nat, 16, 4, true);
        text::law_numbers_read_back(d.pid->0 as nat, 16, 4, true);
        assert(name.subrange(k + 1, k + 5) == a);
        assert(name.subrange(k + 6, k + 10) == b);
    }
    assert(name.take(k) == d.kind.title());
}

/// A handle stands for the device that is listed last under it, and for none where none is.
pub proof fn law_handles_stand_for_devices(devs: Seq<Device>, handle: i64, at: int)
    ensures
        0 <= at < devs.len() && devs[at].handle == handle && (forall|j: int|
            at < j < devs.len() ==> (#[trigger] devs[j]).handle != handle) ==> device_at(
            devs,
            handle,
            devs.len(),
        ) == Some(devs[at]),
        (forall|j: int| 0 <= j < devs.len() ==> (#[trigger] devs[j]).handle != handle)
            ==> device_at(devs, handle, devs.len()) is None,
{
    lemma_device_at(devs, handle, devs.len(), at);
}

proof fn lemma_device_at(devs: Seq<Device>, handle: i64, n: nat, at: int)
    requires
        n <= devs.len(),
    ensures
        0 <= at < n && devs[at].handle == handle && (forall|j: int|
            at < j < n ==> (#[trigger] devs[j]).handle != handle) ==> device_at(devs, handle, n)
            == Some(devs[at]),
        (forall|j: int| 0 <= j < n ==> (#[trigger] devs[j]).handle != handle) ==> device_at(
            devs,
            handle,
            n,
        ) is None,
    decreases n,
{
    if n > 0 {
        lemma_device_at(devs, handle, (n - 1) as nat, at);
    }
}

/// What is asked of the system: the mouse, the keyboard and the consumer controls always, and every
/// other collection that is attached, whatever its usage, but for digitizers and those without a
/// page; each once. It is asked for input while another program is in front and for word of devices
/// that come and go, all of it to the one window; and what is removed is removed from no window.
pub proof fn law_all_collections_are_asked_for(
    devs: Seq<Device>,
    hwnd: i64,
    remove: bool,
    page: u16,
    usage: u16,
)
    ensures
        ({
            let set = wanted_usages(devs).map_values(
                |pair: (u16, u16)| registration(pair, hwnd, remove),
            );
            let r = Registration {
                page,
                usage,
                flags: if remove {
                    1
                } else {
                    0x2100
                },
                target: if remove {
                    0
                } else {
                    hwnd
                },
            };
            let standard = (page == 1 && usage == 2) || (page == 1 && usage == 6) || (page == 12
                && usage == 1);
            let attached = exists|i: int|
                0 <= i < devs.len() && (#[trigger] devs[i]).kind == Kind::Hid && devs[i].usage_page
                    == page && devs[i].usage == usage;
            &&& set.contains(r) <==> standard || (attached && page != 0 && page != 13)
            &&& set.no_duplicates()
            &&& forall|i: int|
                0 <= i < set.len() ==> (#[trigger] set[i]).flags == r.flags && set[i].target
                    == r.target
        }),
{
    law_wanted_usages(devs);
    let pairs = wanted_usages(devs);
    let set = pairs.map_values(|pair: (u16, u16)| registration(pair, hwnd, remove));
    let r = registration((page, usage), hwnd, remove);
    let standard = standard_usages();
    assert(standard[0] == (1u16, 2u16) && standard[1] == (1u16, 6u16) && standard[2] == (
        12u16,
        1u16,
    ));
    if set.contains(r) {
        let k = choose|k: int| 0 <= k < set.len() && set[k] == r;
        assert(pairs[k] == (page, usage));
        assert(pairs.contains((page, usage)));
        if !standard.contains((page, usage)) {
            let i = choose|i: int|
                0 <= i < devs.len() && collection(#[trigger] devs[i]) && (page, usage) == (
                    devs[i].usage_page,
                    devs[i].usage,
                );
            assert(devs[i].kind == Kind::Hid);
        }
    }
    if pairs.contains((page, usage)) {
        let k = choose|k: int| 0 <= k < pairs.len() && pairs[k] == (page, usage);
        assert(set[k] == r);
    }
    if exists|i: int|
        0 <= i < devs.len() && (#[trigger] devs[i]).kind == Kind::Hid && devs[i].usage_page == page
            && devs[i].usage == usage {
        let i = choose|i: int|
            0 <= i < devs.len() && (#[trigger] devs[i]).kind == Kind::Hid && devs[i].usage_page
                == page && devs[i].usage == usage;
        if page != 0 && page != 13 {
            assert(collection(devs[i]));
        }
    }
    assert forall|x: int, y: int| 0 <= x < set.len() && 0 <= y < set.len() && x != y implies set[x]
        != set[y] by {
        assert(pairs[x] != pairs[y]);
    }
}

/// The digitizer page is the only one that is never listened to.
pub proof fn law_only_digitizers_are_noise(page: u16)
    ensures
        noise_page(page) <==> page == 13,
{
}

/// A mouse and a keyboard have as many buttons as the system says and no usage; any other device has
/// the usage that the system says and no buttons; and one that nothing is said of has neither.
pub proof fn law_devices_are_as_described(code: u32, info: Info)
    ensures
        code == 0 <==> Device::sort(code) == Kind::Mouse,
        code == 1 <==> Device::sort(code) == Kind::Keyboard,
        code >= 2 <==> Device::sort(code) == Kind::Hid,
        code == 0 || code == 1 ==> Device::particular(code, Some(info)) == (info.buttons, 0u16, 0u16),
        code >= 2 ==> Device::particular(code, Some(info)) == (0u32, info.usage_page, info.usage),
        Device::particular(code, None) == (0u32, 0u16, 0u16),
{
}

/// What is said of a device holds its numbers: the buttons of a mouse, the keys of a keyboard, and of
/// any other device its page and its usage, each in four digits or more.
pub proof fn law_particulars_hold_the_numbers(d: Device)
    ensures
        ({
            let said = d.particulars();
            let n = said.len() as int;
            let page = text::hexed(d.usage_page as nat, 4);
            match d.kind {
                Kind::Mouse => n > 8 && text::read_in(said.take(n - 8), 10) == d.buttons && said.skip(
                    n - 8,
                ) == " buttons"@,
                Kind::Keyboard => n > 5 && text::read_in(said.take(n - 5), 10) == d.buttons
                    && said.skip(n - 5) == " keys"@,
                Kind::Hid => said.subrange(5, 5 + page.len() as int) == page && said.skip(
                    12 + page.len() as int,
                ) == text::hexed(d.usage as nat, 4),
            }
        }),
{
    reveal_strlit(" buttons");
    reveal_strlit(" keys");
    reveal_strlit("page ");
    reveal_strlit(" usage ");
    let said = d.particulars();
    let n = said.len() as int;
    let page = text::hexed(d.usage_page as nat, 4);
    text::law_numbers_read_back(d.buttons as nat, 10, 1, false);
    match d.kind {
        Kind::Mouse => {
            assert(said.take(n - 8) == text::decimal(d.buttons as nat));
            assert(said.skip(n - 8) == " buttons"@);
        },
        Kind::Keyboard => {
            assert(said.take(n - 5) == text::decimal(d.buttons as nat));
            assert(said.skip(n - 5) == " keys"@);
        },
        Kind::Hid => {
            assert(said.subrange(5, 5 + page.len() as int) == page);
            assert(said.skip(12 + page.len() as int) == text::hexed(d.usage as nat, 4));
        },
    }
}

} // verus!
