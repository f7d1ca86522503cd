//! Input from the devices, from the system's reports to the events that the program hears.
use vstd::prelude::*;
use vstd::string::StringExecFns;
use crate::device;
use crate::device::Device;
use crate::report;
use crate::report::{Origin, Report};
use crate::signal::{Event, Signal};
use crate::text;

verus! {

/// Counters that tell a quiet pipeline from a dead one.
#[derive(Clone, Copy, PartialEq, Eq, Structural, Debug)]
pub struct Diag {
    pub window: bool,
    pub reg_ok: u64,
    pub reg_fail: u64,
    pub wm_input: u64,
    pub injected_dropped: u64,
    pub surfaced: u64,
}

/// A counter after `by` more; it wraps.
pub open spec fn counted(n: u64, by: nat) -> u64 {
    ((n + by) as nat % 0x1_0000_0000_0000_0000) as u64
}

fn count(n: u64, by: usize) -> (r: u64)
    ensures
        r == counted(n, by as nat),
{
    n.wrapping_add(by as u64)
}

impl Diag {
    /// The counters after one report, which told so many events.
    pub open spec fn after_input(self, device: i64, told: nat) -> Diag {
        Diag {
            wm_input: counted(self.wm_input, 1),
            injected_dropped: counted(
                self.injected_dropped,
                if device == 0 {
                    1
                } else {
                    0
                },
            ),
            surfaced: counted(self.surfaced, told),
            ..self
        }
    }
}

/// A bool in words.
pub open spec fn truth(b: bool) -> Seq<char> {
    if b {
        "true"@
    } else {
        "false"@
    }
}

/// The counters as one line.
pub open spec fn diag_line(d: Diag) -> Seq<char> {
    "window="@ + truth(d.window) + " reg_ok="@ + text::decimal(d.reg_ok as nat) + " reg_fail="@
        + text::decimal(d.reg_fail as nat) + " wm_input="@ + text::decimal(d.wm_input as nat)
        + " injected_dropped="@ + text::decimal(d.injected_dropped as nat) + " surfaced="@
        + text::decimal(d.surfaced as nat)
}

pub fn diag(d: &Diag) -> (r: String)
    ensures
        r@ == diag_line(*d),
{
    let mut out = String::from_str("window=");
    out.append(
        if d.window {
            "true"
        } else {
            "false"
        },
    );
    out.append(" reg_ok=");
    text::push_decimal(&mut out, d.reg_ok);
    out.append(" reg_fail=");
    text::push_decimal(&mut out, d.reg_fail);
    out.append(" wm_input=");
    text::push_decimal(&mut out, d.wm_input);
    out.append(" injected_dropped=");
    text::push_decimal(&mut out, d.injected_dropped);
    out.append(" surfaced=");
    text::push_decimal(&mut out, d.surfaced);
    out
}

/// What keeps track of the devices: their last reports, their usages, and what was registered.
pub struct Pump {
    pub last: std::collections::HashMap<i64, Vec<u8>>,
    pub pages: std::collections::HashMap<i64, (u16, u16)>,
    /// Fingerprint of the devices that were registered last.
    pub reg_sig: u64,
    /// Set while a registration is under way. Registering makes the system report devices, and
    /// without this the answer to those reports would register again.
    pub registering: bool,
    pub counters: Diag,
}

impl Pump {
    /// The last report of each device.
    pub open spec fn reports(self) -> Map<i64, Seq<u8>> {
        self.last@.map_values(|v: Vec<u8>| v@)
    }

    /// The usage of each device.
    pub open spec fn usages(self) -> Map<i64, (u16, u16)> {
        self.pages@
    }

    /// What a generic report is compared with and labelled by, where it says anything at all.
    pub open spec fn heard(self, device: i64, size: u32, count: u32) -> Option<(nat, (u16, u16))> {
        let usage = report::usage_of(self.usages(), device);
        match report::report_len(size, count) {
            Some(len) if device != 0 && !device::noise_page(usage.0) => Some((len, usage)),
            _ => None,
        }
    }

    /// The events in a report. Injected input has no device and says nothing.
    pub open spec fn events(self, device: i64, report: Report, now: i64) -> Seq<Event> {
        if device == 0 {
            Seq::empty()
        } else {
            match report {
                Report::Mouse { flags, data } => report::mouse_events(device, flags, data, now),
                Report::Key { make, flags, vk } => report::key_events(device, make, flags, vk, now),
                Report::Hid { size, count, data } => match self.heard(device, size, count) {
                    None => Seq::empty(),
                    Some((len, (page, usage))) => report::report_edges(
                        Origin { device, page, usage, now },
                        report::previous(self.reports(), device, len),
                        data@,
                        len,
                    ),
                },
            }
        }
    }

    /// The last reports once this one is in.
    pub open spec fn reports_after(self, device: i64, report: Report) -> Map<i64, Seq<u8>> {
        match report {
            Report::Hid { size, count, data } => match self.heard(device, size, count) {
                None => self.reports(),
                Some((len, _)) => self.reports().insert(device, data@.take(len as int)),
            },
            _ => self.reports(),
        }
    }

    pub fn new() -> (r: Self)
        ensures
            r.reports() == Map::<i64, Seq<u8>>::empty(),
            r.usages() == Map::<i64, (u16, u16)>::empty(),
            r.reg_sig == 0,
            !r.registering,
            r.counters == (Diag {
                window: false,
                reg_ok: 0,
                reg_fail: 0,
                wm_input: 0,
                injected_dropped: 0,
                surfaced: 0,
            }),
    {
        Pump {
            last: std::collections::HashMap::new(),
            pages: std::collections::HashMap::new(),
            reg_sig: 0,
            registering: false,
            counters: Diag {
                window: false,
                reg_ok: 0,
                reg_fail: 0,
                wm_input: 0,
                injected_dropped: 0,
                surfaced: 0,
            },
        }
    }
}

impl Pump {
    fn usage_for(&self, device: i64) -> (r: (u16, u16))
        ensures
            r == report::usage_of(self.usages(), device),
    {
        match self.pages.get(&device) {
            Some(pair) => *pair,
            None => (0, 0),
        }
    }

    fn diff_report(&self, o: Origin, data: &Vec<u8>, len: usize, out: &mut Vec<Event>)
        requires
            len <= data.len(),
            len <= 4096,
        ensures
            final(out)@ == old(out)@ + report::report_edges(
                o,
                report::previous(self.reports(), o.device, len as nat),
                data@,
                len as nat,
            ),
    {
        let prev = self.last.get(&o.device);
        let ghost before = report::previous(self.reports(), o.device, len as nat);
        let mut i: usize = 0;
        while i < len
            invariant
                i <= len <= data.len(),
                len <= 4096,
                before == report::previous(self.reports(), o.device, len as nat),
                prev == if self.last@.dom().contains(o.device) {
                    Some(&self.last@[o.device])
                } else {
                    None::<&Vec<u8>>
                },
                out@ == old(out)@ + report::report_edges(o, before, data@, i as nat),
            decreases len - i,
        {
            let was: u8 = match prev {
                Some(v) => if i < v.len() {
                    v[i]
                } else {
                    0
                },
                None => 0,
            };
            assert(was == before[i as int]);
            report::push_byte_edges(out, o, i as u16, was, data[i]);
            i += 1;
        }
    }

    /// Takes in one report and gives out what it says, in order.
    pub fn on_input(&mut self, device: i64, report: &Report, now: i64) -> (r: Vec<Event>)
        requires
            report.complete(),
        ensures
            r@ == old(self).events(device, *report, now),
            final(self).reports() == old(self).reports_after(device, *report),
            final(self).usages() == old(self).usages(),
            final(self).reg_sig == old(self).reg_sig,
            final(self).registering == old(self).registering,
            final(self).counters == (Diag {
                wm_input: counted(old(self).counters.wm_input, 1),
                injected_dropped: counted(
                    old(self).counters.injected_dropped,
                    if device == 0 {
                        1
                    } else {
                        0
                    },
                ),
                surfaced: counted(old(self).counters.surfaced, r@.len()),
                ..old(self).counters
            }),
            final(self).counters == old(self).counters.after_input(device, r@.len()),
    {
        self.counters.wm_input = count(self.counters.wm_input, 1);
        let mut out: Vec<Event> = Vec::new();
        if device == 0 {
            self.counters.injected_dropped = count(self.counters.injected_dropped, 1);
            return out;
        }
        match report {
            Report::Mouse { flags, data } => {
                report::push_mouse_events(&mut out, device, *flags, *data, now);
            },
            Report::Key { make, flags, vk } => {
                if *make != 0xFF {
                    out.push(
                        Event {
                            signal: Signal::Key { device, scancode: *make, vk: *vk },
                            down: *flags & 0x01 == 0,
                            qpc: now,
                        },
                    );
                }
            },
            Report::Hid { size, count, data } => {
                let (page, usage): (u16, u16) = self.usage_for(device);
                if device::page_is_noise(page) {
                    return out;
                }
                match report::report_length(*size, *count) {
                    None => {
                        return out;
                    },
                    Some(len) => {
                        let o = Origin { device, page, usage, now };
                        self.diff_report(o, data, len, &mut out);
                        let mut kept: Vec<u8> = Vec::new();
                        let mut i: usize = 0;
                        while i < len
                            invariant
                                i <= len <= data.len(),
                                kept@ == data@.take(i as int),
                            decreases len - i,
                        {
                            kept.push(data[i]);
                            i += 1;
                        }
                        self.last.insert(device, kept);
                    },
                }
            },
        }
        self.counters.surfaced = count(self.counters.surfaced, out.len());
        out
    }
}

/// The usage of each device in a list; where a handle is listed twice the later one counts.
pub open spec fn usages_in(devs: Seq<Device>) -> Map<i64, (u16, u16)>
    decreases devs.len(),
{
    if devs.len() == 0 {
        Map::empty()
    } else {
        usages_in(devs.drop_last()).insert(
            devs.last().handle,
            (devs.last().usage_page, devs.last().usage),
        )
    }
}

/// Whether a report of changed devices has to be answered by registering: only where they differ
/// from those that were registered, and never while a registration is under way. Registering
/// makes the system report devices, so an answer to every report would never end.
pub open spec fn must_register(reg_sig: u64, registering: bool, devs: Seq<Device>) -> bool {
    reg_sig != device::fingerprint(devs) && !registering
}

/// The fingerprint of what is registered once the report is answered.
pub open spec fn sig_after(reg_sig: u64, registering: bool, devs: Seq<Device>) -> u64 {
    if must_register(reg_sig, registering, devs) {
        device::fingerprint(devs)
    } else {
        reg_sig
    }
}

impl Pump {
    fn refresh_pages(&mut self, devs: &Vec<Device>)
        ensures
            final(self).usages() == usages_in(devs@),
            final(self).last == old(self).last,
            final(self).reg_sig == old(self).reg_sig,
            final(self).registering == old(self).registering,
            final(self).counters == old(self).counters,
    {
        self.pages.clear();
        let mut i: usize = 0;
        while i < devs.len()
            invariant
                i <= devs.len(),
                self.usages() == usages_in(devs@.take(i as int)),
                self.last == old(self).last,
                self.reg_sig == old(self).reg_sig,
                self.registering == old(self).registering,
                self.counters == old(self).counters,
            decreases devs.len() - i,
        {
            let d = &devs[i];
            assert(devs@.take(i + 1).drop_last() == devs@.take(i as int));
            self.pages.insert(d.handle, (d.usage_page, d.usage));
            i += 1;
        }
        assert(devs@.take(i as int) == devs@);
    }

    /// Claims the right to register; false where a registration is under way already.
    pub fn begin_register(&mut self) -> (r: bool)
        ensures
            r == !old(self).registering,
            *final(self) == (Pump { registering: true, ..*old(self) }),
    {
        let free: bool = !self.registering;
        self.registering = true;
        free
    }

    /// Gives the right to register back.
    pub fn end_register(&mut self)
        ensures
            *final(self) == (Pump { registering: false, ..*old(self) }),
    {
        self.registering = false;
    }

    /// Takes in whether the system took `n` usages in one call, and says whether to offer them one
    /// by one: where it refused them, so that one bad usage does not cost all the others.
    pub fn offered(&mut self, n: usize, taken: bool) -> (r: bool)
        ensures
            r == !taken,
            *final(self) == (Pump {
                counters: Diag {
                    reg_ok: counted(
                        old(self).counters.reg_ok,
                        if taken {
                            n as nat
                        } else {
                            0
                        },
                    ),
                    ..old(self).counters
                },
                ..*old(self)
            }),
    {
        if taken {
            self.counters.reg_ok = count(self.counters.reg_ok, n);
        }
        !taken
    }

    /// Takes in whether the system took one usage.
    pub fn offered_one(&mut self, taken: bool)
        ensures
            *final(self) == (Pump {
                counters: Diag {
                    reg_ok: counted(
                        old(self).counters.reg_ok,
                        if taken {
                            1
                        } else {
                            0
                        },
                    ),
                    reg_fail: counted(
                        old(self).counters.reg_fail,
                        if taken {
                            0
                        } else {
                            1
                        },
                    ),
                    ..old(self).counters
                },
                ..*old(self)
            }),
    {
        if taken {
            self.counters.reg_ok = count(self.counters.reg_ok, 1);
        } else {
            self.counters.reg_fail = count(self.counters.reg_fail, 1);
        }
    }

    /// Takes in the devices that are attached once capture was switched on or off.
    pub fn capture_set(&mut self, devs: &Vec<Device>)
        ensures
            final(self).usages() == usages_in(devs@),
            final(self).reg_sig == device::fingerprint(devs@),
            final(self).last == old(self).last,
            final(self).registering == old(self).registering,
            final(self).counters == old(self).counters,
    {
        self.reg_sig = device::device_signature(devs);
        self.refresh_pages(devs);
    }

    /// Takes in a report of changed devices, and says whether to register again. Where it says
    /// so the right to register is claimed.
    pub fn devices_changed(&mut self, devs: &Vec<Device>) -> (r: bool)
        ensures
            r == must_register(old(self).reg_sig, old(self).registering, devs@),
            final(self).usages() == usages_in(devs@),
            final(self).reg_sig == sig_after(old(self).reg_sig, old(self).registering, devs@),
            final(self).registering == (old(self).registering || r),
            final(self).last == old(self).last,
            final(self).counters == old(self).counters,
    {
        let sig: u64 = device::device_signature(devs);
        let changed: bool = self.reg_sig != sig;
        self.refresh_pages(devs);
        if changed && self.begin_register() {
            self.reg_sig = sig;
            true
        } else {
            false
        }
    }
}

/// Registering never feeds on itself: once a report of devices is answered, further reports of
/// the same devices are not, however many come.
pub proof fn law_no_registration_loop(
    reg_sig: u64,
    first: Seq<Device>,
    again: Seq<Device>,
    registering: bool,
)
    requires
        first.len() == again.len(),
        forall|i: int|
            0 <= i < first.len() ==> device::same_registration(#[trigger] first[i], again[i]),
    ensures
        !must_register(sig_after(reg_sig, false, first), registering, again),
        sig_after(sig_after(reg_sig, false, first), registering, again) == sig_after(
            reg_sig,
            false,
            first,
        ),
{
    device::law_fingerprint_of_same_devices(first, again);
}

/// Injected input, which comes without a device, never surfaces.
pub proof fn law_injected_never_surfaces(p: Pump, report: Report, now: i64)
    ensures
        p.events(0, report, now).len() == 0,
{
}

/// A digitizer never surfaces, whatever its reports hold.
pub proof fn law_noise_never_surfaces(
    p: Pump,
    device: i64,
    size: u32,
    count: u32,
    data: Vec<u8>,
    now: i64,
)
    requires
        device::noise_page(report::usage_of(p.usages(), device).0),
    ensures
        p.events(device, Report::Hid { size, count, data }, now).len() == 0,
{
}

// ------------------------------------------------------------------- front

/// What the thread that listens to the system passes on.
#[derive(Debug)]
pub enum Msg {
    Devices(Vec<Device>),
    Input(Event),
}

/// The events among messages, in order.
pub open spec fn inputs(msgs: Seq<Msg>) -> Seq<Event>
    decreases msgs.len(),
{
    if msgs.len() == 0 {
        Seq::empty()
    } else {
        match msgs.last() {
            Msg::Input(e) => inputs(msgs.drop_last()).push(e),
            Msg::Devices(_) => inputs(msgs.drop_last()),
        }
    }
}

/// The devices known after messages: the last list among them, else those known before.
pub open spec fn devices_after(known: Vec<Device>, msgs: Seq<Msg>) -> Vec<Device>
    decreases msgs.len(),
{
    if msgs.len() == 0 {
        known
    } else {
        match msgs.last() {
            Msg::Devices(d) => d,
            Msg::Input(_) => devices_after(known, msgs.drop_last()),
        }
    }
}

/// Whether the listening thread is told of a switch of capture, and whether it captures then.
pub open spec fn switched(hwnd: i64, capture: bool, on: bool) -> (bool, bool) {
    if hwnd == 0 || capture == on {
        (false, capture)
    } else {
        (true, on)
    }
}

/// The listening side as its user sees it. A window handle of zero means that there is none.
pub struct RawInput {
    pub hwnd: i64,
    pub devices: Vec<Device>,
    pub capture: bool,
}

impl RawInput {
    /// A listener that captures nothing yet.
    pub fn start(hwnd: i64, devices: Vec<Device>) -> (r: Self)
        ensures
            r.hwnd == hwnd,
            r.devices == devices,
            !r.capture,
    {
        RawInput { hwnd, devices, capture: false }
    }

    pub fn capturing(&self) -> (r: bool)
        ensures
            r == self.capture,
    {
        self.capture
    }

    /// Switches capture, and says whether the listening thread has to be told: only where
    /// something changes and there is a window to tell.
    pub fn set_capture(&mut self, on: bool) -> (r: bool)
        ensures
            r == (old(self).capture != on && old(self).hwnd != 0),
            *final(self) == (RawInput {
                capture: if r {
                    on
                } else {
                    old(self).capture
                },
                ..*old(self)
            }),
            (r, final(self).capture) == switched(old(self).hwnd, old(self).capture, on),
    {
        if self.capture == on || self.hwnd == 0 {
            return false;
        }
        self.capture = on;
        true
    }

    /// Takes in what has come: the events are handed out, the lists of devices are kept.
    pub fn drain(&mut self, msgs: Vec<Msg>) -> (r: Vec<Event>)
        ensures
            r@ == inputs(msgs@),
            *final(self) == (RawInput {
                devices: devices_after(old(self).devices, msgs@),
                ..*old(self)
            }),
    {
        let mut out: Vec<Event> = Vec::new();
        let ghost all = msgs@;
        for m in iter: msgs
            invariant
                iter.seq() == all,
                out@ == inputs(all.take(iter.index())),
                *self == (RawInput {
                    devices: devices_after(old(self).devices, all.take(iter.index())),
                    ..*old(self)
                }),
        {
            assert(all.take(iter.index() + 1).drop_last() == all.take(iter.index()));
            match m {
                Msg::Devices(d) => {
                    self.devices = d;
                },
                Msg::Input(e) => {
                    out.push(e);
                },
            }
        }
        assert(all.take(all.len() as int) == all);
        out
    }
}

// ----------------------------------------------------- what reports tell

proof fn lemma_in_sum(a: Seq<Event>, b: Seq<Event>, e: Event)
    ensures
        (a + b).contains(e) <==> a.contains(e) || b.contains(e),
{
    let s = a + b;
    if a.contains(e) {
        let k = choose|k: int| 0 <= k < a.len() && a[k] == e;
        assert(s[k] == e);
    }
    if b.contains(e) {
        let k = choose|k: int| 0 <= k < b.len() && b[k] == e;
        assert(s[a.len() + k] == e);
    }
    if s.contains(e) {
        let k = choose|k: int| 0 <= k < s.len() && s[k] == e;
        if k < a.len() {
            assert(a[k] == e);
        } else {
            assert(b[k - a.len()] == e);
        }
    }
}

/// Where an event of a mouse stands in a report: the buttons by their numbers, each press in front
/// of its release, then the wheel.
pub open spec fn mouse_place(e: Event) -> int {
    match e.signal {
        Signal::MouseButton { index, .. } => 2 * index + if e.down {
            0int
        } else {
            1
        },
        _ => if e.down {
            1000
        } else {
            1001
        },
    }
}

/// Events whose places rise, all of them from `from` on and below `to`.
spec fn rising(s: Seq<Event>, from: int, to: int) -> bool {
    &&& forall|i: int| 0 <= i < s.len() ==> from <= mouse_place(#[trigger] s[i]) < to
    &&& forall|i: int, j: int|
        0 <= i < j < s.len() ==> mouse_place(#[trigger] s[i]) < mouse_place(#[trigger] s[j])
}

proof fn lemma_rising_sum(a: Seq<Event>, b: Seq<Event>, from: int, mid: int, to: int)
    requires
        rising(a, from, mid),
        rising(b, mid, to),
        from <= mid <= to,
    ensures
        rising(a + b, from, to),
{
    let s = a + b;
    assert forall|i: int| 0 <= i < s.len() implies from <= mouse_place(#[trigger] s[i]) < to by {
        if i < a.len() {
            assert(s[i] == a[i]);
        } else {
            assert(s[i] == b[i - a.len()]);
        }
    }
    assert forall|i: int, j: int| 0 <= i < j < s.len() implies mouse_place(#[trigger] s[i])
        < mouse_place(#[trigger] s[j]) by {
        if j < a.len() {
            assert(s[i] == a[i] && s[j] == a[j]);
        } else if i >= a.len() {
            assert(s[i] == b[i - a.len()] && s[j] == b[j - a.len()]);
        } else {
            assert(s[i] == a[i] && s[j] == b[j - a.len()]);
        }
    }
}

/// What one button's part of a report holds.
spec fn tells_button(s: Seq<Event>, device: i64, index: u8, down: bool, up: bool, now: i64) -> bool {
    let signal = Signal::MouseButton { device, index };
    &&& s.contains(Event { signal, down: true, qpc: now }) <==> down
    &&& s.contains(Event { signal, down: false, qpc: now }) <==> up
    &&& forall|e: Event| #[trigger] s.contains(e) ==> e.signal == signal && e.qpc == now
    &&& rising(s, 2 * index, 2 * index + 2)
}

proof fn lemma_button_part(device: i64, flags: u16, down: u16, up: u16, index: u8, now: i64)
    ensures
        tells_button(
            report::button_edges(device, flags, down, up, index, now),
            device,
            index,
            flags & down != 0,
            flags & up != 0,
            now,
        ),
{
    let s = report::button_edges(device, flags, down, up, index, now);
    let signal = Signal::MouseButton { device, index };
    let p = Event { signal, down: true, qpc: now };
    let r = Event { signal, down: false, qpc: now };
    if flags & down != 0 {
        assert(s[0] == p);
    }
    if flags & up != 0 {
        assert(s[s.len() - 1] == r);
    }
    assert forall|e: Event| #[trigger] s.contains(e) implies e.signal == signal && e.qpc == now by {
        let k = choose|k: int| 0 <= k < s.len() && s[k] == e;
    }
}

proof fn lemma_mouse_sum(device: i64, flags: u16, data: u16, now: i64, e: Event)
    ensures
        report::mouse_events(device, flags, data, now).contains(e) <==> {
            ||| report::button_edges(device, flags, 0x0001, 0x0002, 1, now).contains(e)
            ||| report::button_edges(device, flags, 0x0004, 0x0008, 2, now).contains(e)
            ||| report::button_edges(device, flags, 0x0010, 0x0020, 3, now).contains(e)
            ||| report::button_edges(device, flags, 0x0040, 0x0080, 4, now).contains(e)
            ||| report::button_edges(device, flags, 0x0100, 0x0200, 5, now).contains(e)
            ||| report::wheel_edges(device, flags, data, now).contains(e)
        },
{
    let a = report::button_edges(device, flags, 0x0001, 0x0002, 1, now);
    let b = report::button_edges(device, flags, 0x0004, 0x0008, 2, now);
    let c = report::button_edges(device, flags, 0x0010, 0x0020, 3, now);
    let d = report::button_edges(device, flags, 0x0040, 0x0080, 4, now);
    let g = report::button_edges(device, flags, 0x0100, 0x0200, 5, now);
    let w = report::wheel_edges(device, flags, data, now);
    lemma_in_sum(a, b, e);
    lemma_in_sum(a + b, c, e);
    lemma_in_sum(a + b + c, d, e);
    lemma_in_sum(a + b + c + d, g, e);
    lemma_in_sum(a + b + c + d + g, w, e);
}

proof fn lemma_wheel_part(device: i64, flags: u16, data: u16, now: i64)
    ensures
        ({
            let w = report::wheel_edges(device, flags, data, now);
            &&& forall|up: bool, down: bool|
                #[trigger] w.contains(
                    Event { signal: Signal::Wheel { device, up }, down, qpc: now },
                ) <==> flags & 0x0400 != 0 && up == (0 < data <= 0x7fff)
            &&& forall|e: Event| #[trigger]
                w.contains(e) ==> e.qpc == now && e.signal is Wheel && e.signal.source() == device
            &&& rising(w, 12, 1002)
        }),
{
    let w = report::wheel_edges(device, flags, data, now);
    let up = 0 < data < 0x8000;
    if flags & 0x0400 != 0 {
        assert(w[0] == (Event { signal: Signal::Wheel { device, up }, down: true, qpc: now }));
        assert(w[1] == (Event { signal: Signal::Wheel { device, up }, down: false, qpc: now }));
    }
}

proof fn lemma_mouse_rising(device: i64, flags: u16, data: u16, now: i64)
    ensures
        rising(report::mouse_events(device, flags, data, now), 2, 1002),
{
    let a = report::button_edges(device, flags, 0x0001, 0x0002, 1, now);
    let b = report::button_edges(device, flags, 0x0004, 0x0008, 2, now);
    let c = report::button_edges(device, flags, 0x0010, 0x0020, 3, now);
    let d = report::button_edges(device, flags, 0x0040, 0x0080, 4, now);
    let g = report::button_edges(device, flags, 0x0100, 0x0200, 5, now);
    let w = report::wheel_edges(device, flags, data, now);
    lemma_button_part(device, flags, 0x0001, 0x0002, 1, now);
    lemma_button_part(device, flags, 0x0004, 0x0008, 2, now);
    lemma_button_part(device, flags, 0x0010, 0x0020, 3, now);
    lemma_button_part(device, flags, 0x0040, 0x0080, 4, now);
    lemma_button_part(device, flags, 0x0100, 0x0200, 5, now);
    lemma_wheel_part(device, flags, data, now);
    lemma_rising_sum(a, b, 2, 4, 6);
    lemma_rising_sum(a + b, c, 2, 6, 8);
    lemma_rising_sum(a + b + c, d, 2, 8, 10);
    lemma_rising_sum(a + b + c + d, g, 2, 10, 12);
    lemma_rising_sum(a + b + c + d + g, w, 2, 12, 1002);
}

proof fn lemma_mouse_told(device: i64, flags: u16, data: u16, now: i64, e: Event)
    ensures
        ({
            let told = report::mouse_events(device, flags, data, now).contains(e);
            &&& told ==> e.qpc == now && match e.signal {
                Signal::MouseButton { device: d, index } => d == device && 1 <= index <= 5,
                Signal::Wheel { device: d, .. } => d == device,
                _ => false,
            }
            &&& e.qpc == now ==> (e.signal matches Signal::MouseButton { device: d, index } ==> (d
                == device && 1 <= index <= 5 ==> (told <==> flags & (1u16 << ((2 * (index - 1)
                + if e.down {
                0int
            } else {
                1
            }) as u16)) != 0)))
            &&& e.qpc == now ==> (e.signal matches Signal::Wheel { device: d, up } ==> (d == device
                ==> (told <==> flags & (1u16 << 10u16) != 0 && up == (0 < data <= 0x7fff))))
        }),
{
    lemma_mouse_sum(device, flags, data, now, e);
    lemma_button_part(device, flags, 0x0001, 0x0002, 1, now);
    lemma_button_part(device, flags, 0x0004, 0x0008, 2, now);
    lemma_button_part(device, flags, 0x0010, 0x0020, 3, now);
    lemma_button_part(device, flags, 0x0040, 0x0080, 4, now);
    lemma_button_part(device, flags, 0x0100, 0x0200, 5, now);
    lemma_wheel_part(device, flags, data, now);
    assert(1u16 << 0u16 == 0x0001 && 1u16 << 1u16 == 0x0002 && 1u16 << 2u16 == 0x0004 && 1u16
        << 3u16 == 0x0008 && 1u16 << 4u16 == 0x0010 && 1u16 << 5u16 == 0x0020 && 1u16 << 6u16
        == 0x0040 && 1u16 << 7u16 == 0x0080 && 1u16 << 8u16 == 0x0100 && 1u16 << 9u16 == 0x0200
        && 1u16 << 10u16 == 0x0400) by (bit_vector);
    match e.signal {
        Signal::MouseButton { index, .. } => {
            assert(e == (Event { signal: e.signal, down: e.down, qpc: e.qpc }));
            if 1 <= index <= 5 {
                assert(index == 1 || index == 2 || index == 3 || index == 4 || index == 5);
            }
        },
        _ => {},
    }
}

/// A report of a mouse tells its buttons by their flags: button `i` was pressed exactly where bit
/// `2 (i - 1)` is set, and released exactly where the bit above it is; the wheel turned exactly
/// where bit 10 is set, away from the hand where its distance is positive, and then it is both
/// pressed and released. Each is told once, the buttons in their order and the wheel last, and
/// nothing else is told.
pub proof fn law_mouse_reports_tell_their_flags(
    p: Pump,
    device: i64,
    flags: u16,
    data: u16,
    now: i64,
)
    requires
        device != 0,
    ensures
        ({
            let events = p.events(device, Report::Mouse { flags, data }, now);
            &&& forall|i: u8|
                1 <= i <= 5 ==> (#[trigger] events.contains(
                    Event { signal: Signal::MouseButton { device, index: i }, down: true, qpc: now },
                ) <==> flags & (1u16 << ((2 * (i - 1)) as u16)) != 0)
            &&& forall|i: u8|
                1 <= i <= 5 ==> (#[trigger] events.contains(
                    Event {
                        signal: Signal::MouseButton { device, index: i },
                        down: false,
                        qpc: now,
                    },
                ) <==> flags & (1u16 << ((2 * (i - 1) + 1) as u16)) != 0)
            &&& forall|up: bool, down: bool|
                #[trigger] events.contains(
                    Event { signal: Signal::Wheel { device, up }, down, qpc: now },
                ) <==> flags & (1u16 << 10u16) != 0 && up == (0 < data <= 0x7fff)
            &&& forall|e: Event| #[trigger]
                events.contains(e) ==> e.qpc == now && match e.signal {
                    Signal::MouseButton { device: d, index } => d == device && 1 <= index <= 5,
                    Signal::Wheel { device: d, .. } => d == device,
                    _ => false,
                }
            &&& forall|x: int, y: int|
                0 <= x < y < events.len() ==> mouse_place(#[trigger] events[x]) < mouse_place(
                    #[trigger] events[y],
                )
        }),
{
    let events = p.events(device, Report::Mouse { flags, data }, now);
    lemma_mouse_rising(device, flags, data, now);
    assert forall|i: u8| 1 <= i <= 5 implies (#[trigger] events.contains(
        Event { signal: Signal::MouseButton { device, index: i }, down: true, qpc: now },
    ) <==> flags & (1u16 << ((2 * (i - 1)) as u16)) != 0) by {
        let e = Event { signal: Signal::MouseButton { device, index: i }, down: true, qpc: now };
        lemma_mouse_told(device, flags, data, now, e);
    }
    assert forall|i: u8| 1 <= i <= 5 implies (#[trigger] events.contains(
        Event { signal: Signal::MouseButton { device, index: i }, down: false, qpc: now },
    ) <==> flags & (1u16 << ((2 * (i - 1) + 1) as u16)) != 0) by {
        let e = Event { signal: Signal::MouseButton { device, index: i }, down: false, qpc: now };
        lemma_mouse_told(device, flags, data, now, e);
    }
    assert forall|up: bool, down: bool|
        #[trigger] events.contains(
            Event { signal: Signal::Wheel { device, up }, down, qpc: now },
        ) <==> flags & (1u16 << 10u16) != 0 && up == (0 < data <= 0x7fff) by {
        let e = Event { signal: Signal::Wheel { device, up }, down, qpc: now };
        lemma_mouse_told(device, flags, data, now, e);
    }
    assert forall|e: Event| #[trigger] events.contains(e) implies e.qpc == now && match e.signal {
        Signal::MouseButton { device: d, index } => d == device && 1 <= index <= 5,
        Signal::Wheel { device: d, .. } => d == device,
        _ => false,
    } by {
        lemma_mouse_told(device, flags, data, now, e);
    }
}

/// A report of a keyboard tells one key, as it came: down unless the lowest flag is set. Only make
/// code 0xFF is no key.
pub proof fn law_key_reports_tell_their_key(
    p: Pump,
    device: i64,
    make: u16,
    flags: u16,
    vk: u16,
    now: i64,
)
    requires
        device != 0,
    ensures
        ({
            let events = p.events(device, Report::Key { make, flags, vk }, now);
            &&& events.len() == 0 <==> make == 255
            &&& make != 255 ==> {
                &&& events.len() == 1
                &&& events[0].signal == (Signal::Key { device, scancode: make, vk })
                &&& events[0].down <==> flags % 2 == 0
                &&& events[0].qpc == now
            }
        }),
{
    assert((flags & 0x01 == 0) == (flags % 2 == 0)) by (bit_vector);
}

/// Where an event of a bit stands in a generic report.
pub open spec fn bit_place(e: Event) -> int {
    match e.signal {
        Signal::HidBit { byte, bit, .. } => 8 * byte + bit,
        _ => -1,
    }
}

proof fn lemma_byte_part(o: Origin, byte: int, prev: u8, cur: u8, bits: nat)
    requires
        0 <= byte < 0x1_0000,
        bits <= 8,
    ensures
        ({
            let s = report::byte_edges(o, byte, prev, cur, bits);
            &&& forall|i: int|
                0 <= i < s.len() ==> 8 * byte <= bit_place(#[trigger] s[i]) < 8 * byte + bits
            &&& forall|i: int, j: int|
                0 <= i < j < s.len() ==> bit_place(#[trigger] s[i]) < bit_place(#[trigger] s[j])
            &&& forall|e: Event| #[trigger]
                s.contains(e) <==> (e.qpc == o.now && (e.signal matches Signal::HidBit {
                    device,
                    page,
                    usage,
                    byte: at,
                    bit,
                } && {
                    &&& (device, page, usage) == (o.device, o.page, o.usage)
                    &&& at == byte
                    &&& bit < bits
                    &&& e.down == (cur & (1u8 << bit) != 0)
                    &&& e.down != (prev & (1u8 << bit) != 0)
                }))
        }),
    decreases bits,
{
    let s = report::byte_edges(o, byte, prev, cur, bits);
    if bits > 0 {
        let n = (bits - 1) as nat;
        let bit = n as u8;
        lemma_byte_part(o, byte, prev, cur, n);
        let before = report::byte_edges(o, byte, prev, cur, n);
        let new = o.edge(byte, bit, report::bit_set(cur, bit));
        if report::bit_set(prev, bit) != report::bit_set(cur, bit) {
            assert(s == before + seq![new]);
            assert(seq![new][0] == new);
            assert forall|e: Event| s.contains(e) <==> before.contains(e) || e == new by {
                lemma_in_sum(before, seq![new], e);
            }
        }
    }
}

proof fn lemma_report_part(o: Origin, prev: Seq<u8>, cur: Seq<u8>, bytes: nat)
    requires
        bytes <= 0x1_0000,
    ensures
        ({
            let s = report::report_edges(o, prev, cur, bytes);
            &&& forall|i: int| 0 <= i < s.len() ==> 0 <= bit_place(#[trigger] s[i]) < 8 * bytes
            &&& forall|i: int, j: int|
                0 <= i < j < s.len() ==> bit_place(#[trigger] s[i]) < bit_place(#[trigger] s[j])
            &&& forall|e: Event| #[trigger]
                s.contains(e) <==> (e.qpc == o.now && (e.signal matches Signal::HidBit {
                    device,
                    page,
                    usage,
                    byte: at,
                    bit,
                } && {
                    &&& (device, page, usage) == (o.device, o.page, o.usage)
                    &&& at < bytes
                    &&& bit < 8
                    &&& e.down == (cur[at as int] & (1u8 << bit) != 0)
                    &&& e.down != (prev[at as int] & (1u8 << bit) != 0)
                }))
        }),
    decreases bytes,
{
    let s = report::report_edges(o, prev, cur, bytes);
    if bytes > 0 {
        let n = (bytes - 1) as nat;
        lemma_report_part(o, prev, cur, n);
        lemma_byte_part(o, n as int, prev[n as int], cur[n as int], 8);
        let before = report::report_edges(o, prev, cur, n);
        let new = report::byte_edges(o, n as int, prev[n as int], cur[n as int], 8);
        assert forall|e: Event| s.contains(e) <==> before.contains(e) || new.contains(e) by {
            lemma_in_sum(before, new, e);
        }
        assert forall|i: int| 0 <= i < s.len() implies 0 <= bit_place(#[trigger] s[i]) < 8
            * bytes by {
            if i < before.len() {
                assert(s[i] == before[i]);
            } else {
                assert(s[i] == new[i - before.len()]);
            }
        }
        assert forall|i: int, j: int| 0 <= i < j < s.len() implies bit_place(#[trigger] s[i])
            < bit_place(#[trigger] s[j]) by {
            if j < before.len() {
                assert(s[i] == before[i] && s[j] == before[j]);
            } else if i >= before.len() {
                assert(s[i] == new[i - before.len()] && s[j] == new[j - before.len()]);
            } else {
                assert(s[i] == before[i] && s[j] == new[j - before.len()]);
            }
        }
    }
}

/// A generic report tells the bits that flipped since the last report of its device: a bit of it
/// is told exactly where it is not as it was, as it is now, with the device's own usage. What the
/// last report did not have counts as zero. Each is told once, in the order of the bits. The report
/// is kept to be compared with, and those of other devices stay as they are.
///
/// Only an empty report, one of more than 4096 bytes, or one of a digitizer says nothing, and is not
/// kept.
pub proof fn law_generic_reports_tell_flipped_bits(
    p: Pump,
    device: i64,
    size: u32,
    count: u32,
    data: Vec<u8>,
    now: i64,
)
    requires
        device != 0,
        size * count <= 4096 ==> size * count <= data@.len(),
    ensures
        ({
            let r = Report::Hid { size, count, data };
            let events = p.events(device, r, now);
            let after = p.reports_after(device, r);
            let old_bit = |i: int, bit: u8|
                p.reports().dom().contains(device) && i < p.reports()[device].len()
                    && p.reports()[device][i] & (1u8 << bit) != 0;
            let labelled = p.usages().dom().contains(device);
            let told = 0 < size * count <= 4096 && !(labelled && p.usages()[device].0 == 13);
            &&& r.complete()
            &&& forall|e: Event| #[trigger]
                events.contains(e) <==> told && e.qpc == now && (e.signal matches Signal::HidBit {
                    device: d,
                    page,
                    usage,
                    byte,
                    bit,
                } && {
                    &&& d == device
                    &&& labelled ==> (page, usage) == p.usages()[device]
                    &&& !labelled ==> page == 0 && usage == 0
                    &&& byte < size * count
                    &&& bit < 8
                    &&& e.down == (data@[byte as int] & (1u8 << bit) != 0)
                    &&& e.down != old_bit(byte as int, bit)
                })
            &&& forall|x: int, y: int|
                0 <= x < y < events.len() ==> bit_place(#[trigger] events[x]) < bit_place(
                    #[trigger] events[y],
                )
            &&& after == if told {
                p.reports().insert(device, data@.take(size * count))
            } else {
                p.reports()
            }
        }),
{
    let r = Report::Hid { size, count, data };
    assert(size as nat * count as nat == size * count);
    assert(size * count >= 0) by (nonlinear_arith)
        requires
            size >= 0,
            count >= 0,
    ;
    let (page, usage) = report::usage_of(p.usages(), device);
    if 0 < size * count <= 4096 {
        let len = (size * count) as nat;
        let o = Origin { device, page, usage, now };
        let prev = report::previous(p.reports(), device, len);
        lemma_report_part(o, prev, data@, len);
        assert forall|byte: int, bit: u8| 0 <= byte < len implies (#[trigger] (prev[byte] & (1u8
            << bit)) != 0) == (p.reports().dom().contains(device) && byte < p.reports()[device].len()
            && p.reports()[device][byte] & (1u8 << bit) != 0) by {
            assert(0u8 & (1u8 << bit) == 0) by (bit_vector);
        }
    }
}

/// A report that comes again tells nothing the second time.
pub proof fn law_a_repeated_report_tells_nothing(
    p: Pump,
    q: Pump,
    device: i64,
    size: u32,
    count: u32,
    data: Vec<u8>,
    now: i64,
)
    requires
        (Report::Hid { size, count, data }).complete(),
        q.reports() == p.reports_after(device, Report::Hid { size, count, data }),
        q.usages() == p.usages(),
    ensures
        q.events(device, Report::Hid { size, count, data }, now).len() == 0,
{
    match p.heard(device, size, count) {
        Some((len, (page, usage))) => {
            let o = Origin { device, page, usage, now };
            let prev = report::previous(q.reports(), device, len);
            lemma_report_part(o, prev, data@, len);
            let events = report::report_edges(o, prev, data@, len);
            if events.len() > 0 {
                assert(events.contains(events[0]));
                let byte = events[0].signal->HidBit_byte as int;
                assert(prev[byte] == data@[byte]);
            }
        },
        None => {},
    }
}

/// The usage that a device is known by is the one it is listed with, the last one where a handle is
/// listed twice; a device that is not listed has none.
pub proof fn law_usages_are_those_listed(devs: Seq<Device>, at: int)
    requires
        0 <= at < devs.len(),
        forall|j: int| at < j < devs.len() ==> (#[trigger] devs[j]).handle != devs[at].handle,
    ensures
        usages_in(devs).dom().contains(devs[at].handle),
        usages_in(devs)[devs[at].handle] == (devs[at].usage_page, devs[at].usage),
        forall|h: i64| #[trigger]
            usages_in(devs).dom().contains(h) ==> exists|i: int|
                0 <= i < devs.len() && (#[trigger] devs[i]).handle == h,
    decreases devs.len(),
{
    lemma_usages_listed(devs);
    if at < devs.len() - 1 {
        let init = devs.drop_last();
        assert forall|j: int| at < j < init.len() implies (#[trigger] init[j]).handle
            != init[at].handle by {
            assert(init[j] == devs[j]);
        }
        assert(devs[devs.len() - 1].handle != devs[at].handle);
        law_usages_are_those_listed(init, at);
    }
}

proof fn lemma_usages_listed(devs: Seq<Device>)
    ensures
        forall|h: i64| #[trigger]
            usages_in(devs).dom().contains(h) ==> exists|i: int|
                0 <= i < devs.len() && (#[trigger] devs[i]).handle == h,
    decreases devs.len(),
{
    if devs.len() > 0 {
        let init = devs.drop_last();
        lemma_usages_listed(init);
        assert forall|h: i64| #[trigger] usages_in(devs).dom().contains(h) implies exists|i: int|
            0 <= i < devs.len() && (#[trigger] devs[i]).handle == h by {
            if h == devs.last().handle {
                assert(devs[devs.len() - 1].handle == h);
            } else {
                assert(usages_in(init).dom().contains(h));
                let i = choose|i: int| 0 <= i < init.len() && (#[trigger] init[i]).handle == h;
                assert(devs[i].handle == h);
            }
        }
    }
}

/// A report of devices is answered by registering exactly where the registered ones have another
/// fingerprint and no registration is under way; what is registered is then known by the
/// fingerprint of the new ones, and otherwise stays.
pub proof fn law_new_devices_are_registered(reg_sig: u64, registering: bool, devs: Seq<Device>)
    ensures
        must_register(reg_sig, true, devs) == false,
        must_register(device::fingerprint(devs), registering, devs) == false,
        !registering && reg_sig != device::fingerprint(devs) ==> {
            &&& must_register(reg_sig, registering, devs)
            &&& sig_after(reg_sig, registering, devs) == device::fingerprint(devs)
        },
        registering ==> sig_after(reg_sig, registering, devs) == reg_sig,
{
}

/// Draining hands out every event of every message, in order and nothing else, however the messages
/// are split; of the lists of devices the last one stays.
pub proof fn law_draining_keeps_everything(known: Vec<Device>, a: Seq<Msg>, b: Seq<Msg>, e: Event)
    ensures
        inputs(a + b) == inputs(a) + inputs(b),
        devices_after(known, a + b) == devices_after(devices_after(known, a), b),
        inputs(a.push(Msg::Input(e))) == inputs(a).push(e),
        devices_after(known, a.push(Msg::Input(e))) == devices_after(known, a),
        inputs(a.push(Msg::Devices(known))) == inputs(a),
        forall|d: Vec<Device>| devices_after(known, #[trigger] a.push(Msg::Devices(d))) == d,
        inputs(Seq::empty()) == Seq::<Event>::empty(),
        devices_after(known, Seq::empty()) == known,
    decreases b.len(),
{
    assert(a.push(Msg::Input(e)).drop_last() == a);
    assert(a.push(Msg::Devices(known)).drop_last() == a);
    if b.len() == 0 {
        assert(a + b == a);
    } else {
        assert((a + b).drop_last() == a + b.drop_last());
        law_draining_keeps_everything(known, a, b.drop_last(), e);
    }
}

/// Counters count: each adds what came, and only past the largest number do they begin anew.
pub proof fn law_counters_count(n: u64, by: nat)
    ensures
        n + by <= u64::MAX ==> counted(n, by) == n + by,
        counted(u64::MAX, 1) == 0,
{
}

/// A report is refused only where bytes that it announces are not there.
pub proof fn law_reports_are_complete(size: u32, count: u32, data: Vec<u8>, a: u16, b: u16, c: u16)
    requires
        size * count <= data@.len() || size * count > 4096,
    ensures
        (Report::Mouse { flags: a, data: b }).complete(),
        (Report::Key { make: a, flags: b, vk: c }).complete(),
        (Report::Hid { size, count, data }).complete(),
{
    assert(size as nat * count as nat == size * count);
}

/// Every report is counted as it comes, one that was injected also as dropped, and every event that it
/// tells as surfaced: so a quiet pipeline is told from a dead one.
pub proof fn law_every_report_is_counted(d: Diag, device: i64, told: nat)
    requires
        d.wm_input < u64::MAX,
        d.injected_dropped < u64::MAX,
        d.surfaced + told <= u64::MAX,
    ensures
        ({
            let after = d.after_input(device, told);
            &&& after.wm_input == d.wm_input + 1
            &&& device == 0 ==> after.injected_dropped == d.injected_dropped + 1
            &&& device != 0 ==> after.injected_dropped == d.injected_dropped
            &&& after.surfaced == d.surfaced + told
            &&& (after.window, after.reg_ok, after.reg_fail) == (d.window, d.reg_ok, d.reg_fail)
        }),
{
}

/// The listening thread is told of capture exactly where it changes, so asking for the same again
/// costs nothing; and without a window nothing changes.
pub proof fn law_capture_is_switched_once(hwnd: i64, capture: bool, on: bool)
    ensures
        hwnd != 0 ==> switched(hwnd, capture, on).1 == on,
        hwnd != 0 ==> switched(hwnd, !on, on).0,
        !switched(hwnd, on, on).0,
        !switched(0, capture, on).0,
        switched(0, capture, on).1 == capture,
        !switched(hwnd, switched(hwnd, capture, on).1, on).0 || hwnd == 0,
{
}

} // verus!
