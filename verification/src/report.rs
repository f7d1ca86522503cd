//! What one report from a device says.
//!
//! Only the five standard mouse buttons have a fixed place in a report. Everything else arrives
//! on whatever channel the vendor chose, so a button is learned, not assumed: every bit that flips
//! against the previous report of its device is a candidate press.
use vstd::prelude::*;
use crate::signal::{Event, Signal};

verus! {

/// One report from the system, taken apart.
#[derive(Debug)]
pub enum Report {
    /// Button flags, and the wheel's distance where the flags say that it turned.
    Mouse { flags: u16, data: u16 },
    Key { make: u16, flags: u16, vk: u16 },
    /// `count` reports of `size` bytes each, in `data`.
    Hid { size: u32, count: u32, data: Vec<u8> },
}

impl Report {
    /// Whether the bytes that a generic report announces are there, where it is not too long.
    pub open spec fn complete(self) -> bool {
        match self {
            Report::Hid { size, count, data } => report_len(size, count) matches Some(len)
                ==> len <= data@.len(),
            _ => true,
        }
    }
}

/// The edges of one button: down where its first flag is set, then up where its second is.
pub open spec fn button_edges(
    device: i64,
    flags: u16,
    down: u16,
    up: u16,
    index: u8,
    now: i64,
) -> Seq<Event> {
    let signal = Signal::MouseButton { device, index };
    (if flags & down != 0 {
        seq![Event { signal, down: true, qpc: now }]
    } else {
        seq![]
    }) + (if flags & up != 0 {
        seq![Event { signal, down: false, qpc: now }]
    } else {
        seq![]
    })
}

/// A wheel notch. It has no release of its own, so it goes down and up at once; a trigger that it
/// arms would otherwise never be disarmed.
pub open spec fn wheel_edges(device: i64, flags: u16, data: u16, now: i64) -> Seq<Event> {
    let signal = Signal::Wheel { device, up: 0 < data < 0x8000 };
    if flags & 0x0400 != 0 {
        seq![Event { signal, down: true, qpc: now }, Event { signal, down: false, qpc: now }]
    } else {
        seq![]
    }
}

/// What a mouse report says: the five buttons in their order, then the wheel. Motion says nothing.
pub open spec fn mouse_events(device: i64, flags: u16, data: u16, now: i64) -> Seq<Event> {
    button_edges(device, flags, 0x0001, 0x0002, 1, now) + button_edges(
        device,
        flags,
        0x0004,
        0x0008,
        2,
        now,
    ) + button_edges(device, flags, 0x0010, 0x0020, 3, now) + button_edges(
        device,
        flags,
        0x0040,
        0x0080,
        4,
        now,
    ) + button_edges(device, flags, 0x0100, 0x0200, 5, now) + wheel_edges(device, flags, data, now)
}

/// What a key report says. Make code 0xFF marks an overrun and is no key.
pub open spec fn key_events(device: i64, make: u16, flags: u16, vk: u16, now: i64) -> Seq<Event> {
    if make == 0xFF {
        seq![]
    } else {
        seq![
            Event {
                signal: Signal::Key { device, scancode: make, vk },
                down: flags & 0x01 == 0,
                qpc: now,
            },
        ]
    }
}

/// Whether bit `bit` of `b` is set.
pub open spec fn bit_set(b: u8, bit: u8) -> bool {
    b & (1u8 << bit) != 0
}

/// The device and the usage that a bit is labelled with, and when it was read.
#[derive(Clone, Copy, PartialEq, Eq, Structural, Debug)]
pub struct Origin {
    pub device: i64,
    pub page: u16,
    pub usage: u16,
    pub now: i64,
}

impl Origin {
    /// The edge of one bit.
    pub open spec fn edge(self, byte: int, bit: u8, down: bool) -> Event {
        Event {
            signal: Signal::HidBit {
                device: self.device,
                page: self.page,
                usage: self.usage,
                byte: byte as u16,
                bit,
            },
            down,
            qpc: self.now,
        }
    }
}

/// The edges of the lower `bits` bits of one byte, the lowest first.
pub open spec fn byte_edges(o: Origin, byte: int, prev: u8, cur: u8, bits: nat) -> Seq<Event>
    decreases bits,
{
    if bits == 0 {
        Seq::empty()
    } else {
        let bit = (bits - 1) as u8;
        let before = byte_edges(o, byte, prev, cur, (bits - 1) as nat);
        if bit_set(prev, bit) != bit_set(cur, bit) {
            before.push(o.edge(byte, bit, bit_set(cur, bit)))
        } else {
            before
        }
    }
}

/// The edges of the first `bytes` bytes of a report against the one before.
pub open spec fn report_edges(o: Origin, prev: Seq<u8>, cur: Seq<u8>, bytes: nat) -> Seq<Event>
    decreases bytes,
{
    if bytes == 0 {
        Seq::empty()
    } else {
        let i = (bytes - 1) as nat;
        report_edges(o, prev, cur, i) + byte_edges(o, i as int, prev[i as int], cur[i as int], 8)
    }
}

/// The report before, brought to `len` bytes: cut, or filled up with zeros.
pub open spec fn previous(reports: Map<i64, Seq<u8>>, device: i64, len: nat) -> Seq<u8> {
    Seq::new(
        len,
        |i: int|
            if reports.dom().contains(device) && i < reports[device].len() {
                reports[device][i]
            } else {
                0u8
            },
    )
}

/// The usage that a device is known by; none where it is not listed.
pub open spec fn usage_of(usages: Map<i64, (u16, u16)>, device: i64) -> (u16, u16) {
    if usages.dom().contains(device) {
        usages[device]
    } else {
        (0, 0)
    }
}

/// The bytes of a generic report, unless there are none or more than 4096.
pub open spec fn report_len(size: u32, count: u32) -> Option<nat> {
    let len = size as nat * count as nat;
    if len == 0 || len > 4096 {
        None
    } else {
        Some(len)
    }
}

fn push_button_edges(
    out: &mut Vec<Event>,
    device: i64,
    flags: u16,
    down: u16,
    up: u16,
    index: u8,
    now: i64,
)
    ensures
        final(out)@ == old(out)@ + button_edges(device, flags, down, up, index, now),
{
    let signal = Signal::MouseButton { device, index };
    if flags & down != 0 {
        out.push(Event { signal, down: true, qpc: now });
    }
    if flags & up != 0 {
        out.push(Event { signal, down: false, qpc: now });
    }
}

fn push_wheel_edges(out: &mut Vec<Event>, device: i64, flags: u16, data: u16, now: i64)
    ensures
        final(out)@ == old(out)@ + wheel_edges(device, flags, data, now),
{
    if flags & 0x0400 != 0 {
        let signal = Signal::Wheel { device, up: 0 < data && data < 0x8000 };
        out.push(Event { signal, down: true, qpc: now });
        out.push(Event { signal, down: false, qpc: now });
    }
}

proof fn lemma_six_parts(
    s: Seq<Event>,
    a: Seq<Event>,
    b: Seq<Event>,
    c: Seq<Event>,
    d: Seq<Event>,
    e: Seq<Event>,
    f: Seq<Event>,
)
    ensures
        s + a + b + c + d + e + f == s + (a + b + c + d + e + f),
{
}

/// Appends what the flags of a mouse report say.
pub fn push_mouse_events(out: &mut Vec<Event>, device: i64, flags: u16, data: u16, now: i64)
    ensures
        final(out)@ == old(out)@ + mouse_events(device, flags, data, now),
{
    proof {
        lemma_six_parts(
            out@,
            button_edges(device, flags, 0x0001, 0x0002, 1, now),
            button_edges(device, flags, 0x0004, 0x0008, 2, now),
            button_edges(device, flags, 0x0010, 0x0020, 3, now),
            button_edges(device, flags, 0x0040, 0x0080, 4, now),
            button_edges(device, flags, 0x0100, 0x0200, 5, now),
            wheel_edges(device, flags, data, now),
        );
    }
    push_button_edges(out, device, flags, 0x0001, 0x0002, 1, now);
    push_button_edges(out, device, flags, 0x0004, 0x0008, 2, now);
    push_button_edges(out, device, flags, 0x0010, 0x0020, 3, now);
    push_button_edges(out, device, flags, 0x0040, 0x0080, 4, now);
    push_button_edges(out, device, flags, 0x0100, 0x0200, 5, now);
    push_wheel_edges(out, device, flags, data, now);
}

/// Appends the edges of one byte of a report.
pub fn push_byte_edges(out: &mut Vec<Event>, o: Origin, byte: u16, prev: u8, cur: u8)
    ensures
        final(out)@ == old(out)@ + byte_edges(o, byte as int, prev, cur, 8),
{
    let diff: u8 = prev ^ cur;
    let mut bit: u8 = 0;
    while bit < 8
        invariant
            bit <= 8,
            diff == prev ^ cur,
            out@ == old(out)@ + byte_edges(o, byte as int, prev, cur, bit as nat),
        decreases 8 - bit,
    {
        assert(bit < 8 ==> (((prev ^ cur) & (1u8 << bit) != 0) <==> ((prev & (1u8 << bit) != 0) != (
        cur & (1u8 << bit) != 0)))) by (bit_vector);
        if diff & (1u8 << bit) != 0 {
            let down: bool = cur & (1u8 << bit) != 0;
            out.push(
                Event {
                    signal: Signal::HidBit {
                        device: o.device,
                        page: o.page,
                        usage: o.usage,
                        byte,
                        bit,
                    },
                    down,
                    qpc: o.now,
                },
            );
        }
        bit += 1;
    }
}

/// How many bytes a generic report has, where it has any and not too many.
pub fn report_length(size: u32, count: u32) -> (r: Option<usize>)
    ensures
        report_len(size, count) == match r {
            Some(len) => Some(len as nat),
            None => None::<nat>,
        },
        r matches Some(len) ==> 0 < len <= 4096,
{
    assert(size as nat * count as nat <= 0xffff_ffff * 0xffff_ffff) by (nonlinear_arith)
        requires
            0 <= size <= 0xffff_ffff,
            0 <= count <= 0xffff_ffff,
    ;
    let len: u64 = size as u64 * count as u64;
    if len == 0 || len > 4096 {
        None
    } else {
        Some(len as usize)
    }
}

/// A wheel notch is pressed and released in one go, so that nothing it arms stays armed.
pub proof fn law_wheel_notch_is_released(device: i64, flags: u16, data: u16, now: i64)
    requires
        flags & 0x0400 != 0,
    ensures
        ({
            let events = mouse_events(device, flags, data, now);
            let n = events.len();
            &&& n >= 2
            &&& events[n - 2].signal is Wheel
            &&& events[n - 2].down
            &&& events[n - 1] == (Event { down: false, ..events[n - 2] })
        }),
{
    let wheel = wheel_edges(device, flags, data, now);
    let events = mouse_events(device, flags, data, now);
    assert(events[events.len() - 2] == wheel[0]);
    assert(events[events.len() - 1] == wheel[1]);
}

/// Motion alone, and wheel or button flags left out, say nothing.
pub proof fn law_motion_is_silent(device: i64, data: u16, now: i64)
    ensures
        mouse_events(device, 0, data, now).len() == 0,
{
    assert(0u16 & 0x0001 == 0 && 0u16 & 0x0002 == 0 && 0u16 & 0x0004 == 0 && 0u16 & 0x0008 == 0
        && 0u16 & 0x0010 == 0 && 0u16 & 0x0020 == 0 && 0u16 & 0x0040 == 0 && 0u16 & 0x0080 == 0
        && 0u16 & 0x0100 == 0 && 0u16 & 0x0200 == 0 && 0u16 & 0x0400 == 0) by (bit_vector);
}

proof fn lemma_byte_edges_exact(o: Origin, byte: int, prev: u8, cur: u8, bits: nat)
    requires
        bits <= 8,
    ensures
        forall|bit: u8, down: bool| #[trigger]
            byte_edges(o, byte, prev, cur, bits).contains(o.edge(byte, bit, down)) <==> (bit < bits
                && bit_set(prev, bit) != bit_set(cur, bit) && down == bit_set(cur, bit)),
        forall|e: Event| #[trigger]
            byte_edges(o, byte, prev, cur, bits).contains(e) ==> exists|bit: u8, down: bool|
                bit < bits && e == #[trigger] o.edge(byte, bit, down),
        byte_edges(o, byte, prev, cur, bits).no_duplicates(),
    decreases bits,
{
    if bits > 0 {
        let n = (bits - 1) as nat;
        let last = n as u8;
        let before = byte_edges(o, byte, prev, cur, n);
        let after = byte_edges(o, byte, prev, cur, bits);
        lemma_byte_edges_exact(o, byte, prev, cur, n);
        let new = o.edge(byte, last, bit_set(cur, last));
        if bit_set(prev, last) != bit_set(cur, last) {
            assert(after == before.push(new));
            assert(after[before.len() as int] == new);
            assert forall|e: Event| after.contains(e) <==> before.contains(e) || e == new by {
                if before.contains(e) {
                    let k = choose|k: int| 0 <= k < before.len() && before[k] == e;
                    assert(after[k] == e);
                }
            }
            assert(!before.contains(new));
        }
        assert forall|bit: u8, down: bool| #[trigger] after.contains(o.edge(byte, bit, down)) <==> (
        bit < bits && bit_set(prev, bit) != bit_set(cur, bit) && down == bit_set(cur, bit)) by {
            assert(before.contains(o.edge(byte, bit, down)) <==> (bit < n && bit_set(prev, bit)
                != bit_set(cur, bit) && down == bit_set(cur, bit)));
        }
    }
}

/// The bit-diff finds every button edge and nothing else: there is an edge for a bit exactly
/// where it flipped, it says which way, and there is only one.
pub proof fn law_edges_are_flipped_bits(o: Origin, prev: Seq<u8>, cur: Seq<u8>, bytes: nat)
    requires
        bytes <= 0x1_0000,
    ensures
        forall|i: int, bit: u8, down: bool|
            0 <= i < bytes ==> (#[trigger] report_edges(o, prev, cur, bytes).contains(
                o.edge(i, bit, down),
            ) <==> (bit < 8 && bit_set(prev[i], bit) != bit_set(cur[i], bit) && down == bit_set(
                cur[i],
                bit,
            ))),
        forall|e: Event| #[trigger]
            report_edges(o, prev, cur, bytes).contains(e) ==> exists|i: int, bit: u8, down: bool|
                0 <= i < bytes && bit < 8 && e == #[trigger] o.edge(i, bit, down),
        report_edges(o, prev, cur, bytes).no_duplicates(),
    decreases bytes,
{
    if bytes > 0 {
        let n = (bytes - 1) as nat;
        let before = report_edges(o, prev, cur, n);
        let new = byte_edges(o, n as int, prev[n as int], cur[n as int], 8);
        let after = report_edges(o, prev, cur, bytes);
        law_edges_are_flipped_bits(o, prev, cur, n);
        lemma_byte_edges_exact(o, n as int, prev[n as int], cur[n as int], 8);
        assert forall|e: Event| after.contains(e) <==> before.contains(e) || new.contains(e) by {
            if before.contains(e) {
                let k = choose|k: int| 0 <= k < before.len() && before[k] == e;
                assert(after[k] == e);
            } else if new.contains(e) {
                let k = choose|k: int| 0 <= k < new.len() && new[k] == e;
                assert(after[before.len() + k] == e);
            }
        }
        assert forall|i: int, bit: u8, down: bool| 0 <= i < bytes implies (
        #[trigger] after.contains(o.edge(i, bit, down)) <==> (bit < 8 && bit_set(prev[i], bit)
            != bit_set(cur[i], bit) && down == bit_set(cur[i], bit))) by {
            let e = o.edge(i, bit, down);
            if i < n {
                if new.contains(e) {
                    let (b, d) = choose|b: u8, d: bool| b < 8 && e == #[trigger] o.edge(n as int, b, d);
                    assert(false);
                }
                assert(before.contains(e) <==> (bit < 8 && bit_set(prev[i], bit) != bit_set(
                    cur[i],
                    bit,
                ) && down == bit_set(cur[i], bit)));
            } else {
                if before.contains(e) {
                    let (j, b, d) = choose|j: int, b: u8, d: bool|
                        0 <= j < n && b < 8 && e == #[trigger] o.edge(j, b, d);
                    assert(false);
                }
            }
        }
        assert forall|e: Event| #[trigger] after.contains(e) implies exists|i: int, bit: u8, down: bool|
            0 <= i < bytes && bit < 8 && e == #[trigger] o.edge(i, bit, down) by {
            if before.contains(e) {
                let (j, b, d) = choose|j: int, b: u8, d: bool|
                    0 <= j < n && b < 8 && e == #[trigger] o.edge(j, b, d);
                assert(e == o.edge(j, b, d));
            } else {
                let (b, d) = choose|b: u8, d: bool| b < 8 && e == #[trigger] o.edge(n as int, b, d);
                assert(e == o.edge(n as int, b, d));
            }
        }
        assert forall|x: int, y: int| 0 <= x < y < after.len() implies after[x] != after[y] by {
            if y < before.len() {
                assert(before[x] == after[x] && before[y] == after[y]);
            } else if x >= before.len() {
                assert(new[x - before.len()] == after[x] && new[y - before.len()] == after[y]);
            } else {
                assert(before.contains(after[x]));
                assert(new.contains(new[y - before.len()]));
                if after[x] == after[y] {
                    let (j, b, d) = choose|j: int, b: u8, d: bool|
                        0 <= j < n && b < 8 && after[x] == #[trigger] o.edge(j, b, d);
                    let (b2, d2) = choose|b2: u8, d2: bool|
                        b2 < 8 && after[y] == #[trigger] o.edge(n as int, b2, d2);
                    assert(false);
                }
            }
        }
    }
}

/// A report that repeats the one before says nothing.
pub proof fn law_repeated_report_is_silent(o: Origin, report: Seq<u8>, bytes: nat)
    ensures
        report_edges(o, report, report, bytes).len() == 0,
    decreases bytes,
{
    if bytes > 0 {
        let n = (bytes - 1) as nat;
        law_repeated_report_is_silent(o, report, n);
        lemma_same_byte_is_silent(o, n as int, report[n as int], 8);
    }
}

proof fn lemma_same_byte_is_silent(o: Origin, byte: int, b: u8, bits: nat)
    ensures
        byte_edges(o, byte, b, b, bits).len() == 0,
    decreases bits,
{
    if bits > 0 {
        lemma_same_byte_is_silent(o, byte, b, (bits - 1) as nat);
    }
}

/// Going back to the report before gives the same edges the other way round: whatever was
/// pressed is released.
pub proof fn law_edges_are_undone(o: Origin, a: Seq<u8>, b: Seq<u8>, bytes: nat)
    ensures
        report_edges(o, b, a, bytes) == report_edges(o, a, b, bytes).map_values(
            |e: Event| Event { down: !e.down, ..e },
        ),
    decreases bytes,
{
    let turned = |e: Event| Event { down: !e.down, ..e };
    if bytes > 0 {
        let n = (bytes - 1) as nat;
        law_edges_are_undone(o, a, b, n);
        lemma_byte_edges_undone(o, n as int, a[n as int], b[n as int], 8);
        let left = report_edges(o, a, b, n);
        let right = byte_edges(o, n as int, a[n as int], b[n as int], 8);
        assert((left + right).map_values(turned) == left.map_values(turned) + right.map_values(
            turned,
        ));
    }
}

proof fn lemma_byte_edges_undone(o: Origin, byte: int, a: u8, b: u8, bits: nat)
    ensures
        byte_edges(o, byte, b, a, bits) == byte_edges(o, byte, a, b, bits).map_values(
            |e: Event| Event { down: !e.down, ..e },
        ),
    decreases bits,
{
    if bits > 0 {
        lemma_byte_edges_undone(o, byte, a, b, (bits - 1) as nat);
    }
}

/// A report with the bit of one edge set as the edge says.
pub open spec fn applied(report: Seq<u8>, e: Event) -> Seq<u8> {
    match e.signal {
        Signal::HidBit { byte, bit, .. } => report.update(
            byte as int,
            if e.down {
                report[byte as int] | (1u8 << bit)
            } else {
                report[byte as int] & !(1u8 << bit)
            },
        ),
        _ => report,
    }
}

/// A report with all edges applied in order.
pub open spec fn replayed(report: Seq<u8>, events: Seq<Event>) -> Seq<u8>
    decreases events.len(),
{
    if events.len() == 0 {
        report
    } else {
        applied(replayed(report, events.drop_last()), events.last())
    }
}

proof fn lemma_replayed_appends(report: Seq<u8>, a: Seq<Event>, b: Seq<Event>)
    ensures
        replayed(report, a + b) == replayed(replayed(report, a), b),
    decreases b.len(),
{
    if b.len() == 0 {
        assert(a + b == a);
    } else {
        assert((a + b).drop_last() == a + b.drop_last());
        lemma_replayed_appends(report, a, b.drop_last());
    }
}

/// The low `bits` bits of `cur` with the other bits of `prev`.
spec fn mixed(prev: u8, cur: u8, bits: nat) -> u8 {
    let low = if bits >= 8 {
        0xffu8
    } else {
        ((1u8 << (bits as u8)) - 1) as u8
    };
    (cur & low) | (prev & !low)
}

proof fn lemma_mixed_step(prev: u8, cur: u8, bit: u8)
    requires
        bit < 8,
    ensures
        bit_set(prev, bit) == bit_set(cur, bit) ==> mixed(prev, cur, bit as nat + 1) == mixed(
            prev,
            cur,
            bit as nat,
        ),
        bit_set(prev, bit) != bit_set(cur, bit) ==> mixed(prev, cur, bit as nat + 1) == if bit_set(
            cur,
            bit,
        ) {
            mixed(prev, cur, bit as nat) | (1u8 << bit)
        } else {
            mixed(prev, cur, bit as nat) & !(1u8 << bit)
        },
{
    let next = (bit + 1) as u8;
    let low: u8 = ((1u8 << bit) - 1) as u8;
    let more: u8 = if next >= 8 {
        0xffu8
    } else {
        ((1u8 << next) - 1) as u8
    };
    assert(bit < 8 && next == bit + 1 && low == (((1u8 << bit) - 1) as u8) && more == (if next >= 8 {
        0xffu8
    } else {
        ((1u8 << next) - 1) as u8
    }) ==> ({
        let set_prev = prev & (1u8 << bit) != 0;
        let set_cur = cur & (1u8 << bit) != 0;
        let a = (cur & low) | (prev & !low);
        let b = (cur & more) | (prev & !more);
        (set_prev == set_cur ==> b == a) && (set_prev != set_cur ==> b == (if set_cur {
            a | (1u8 << bit)
        } else {
            a & !(1u8 << bit)
        }))
    })) by (bit_vector);
}

proof fn lemma_byte_replayed(o: Origin, report: Seq<u8>, byte: int, cur: u8, bits: nat)
    requires
        0 <= byte < report.len(),
        byte < 0x1_0000,
        bits <= 8,
    ensures
        replayed(report, byte_edges(o, byte, report[byte], cur, bits)) == report.update(
            byte,
            mixed(report[byte], cur, bits),
        ),
    decreases bits,
{
    let prev = report[byte];
    if bits == 0 {
        assert((cur & (((1u8 << 0u8) - 1) as u8)) | (prev & !(((1u8 << 0u8) - 1) as u8)) == prev)
            by (bit_vector);
        assert(report.update(byte, prev) == report);
    } else {
        let n = (bits - 1) as nat;
        let bit = n as u8;
        lemma_byte_replayed(o, report, byte, cur, n);
        lemma_mixed_step(prev, cur, bit);
        let before = byte_edges(o, byte, prev, cur, n);
        let after = byte_edges(o, byte, prev, cur, bits);
        if bit_set(prev, bit) != bit_set(cur, bit) {
            assert(after.drop_last() == before);
        }
    }
}

/// The edges carry the whole report: played onto the one before they give it back.
pub proof fn law_edges_rebuild_report(o: Origin, prev: Seq<u8>, cur: Seq<u8>)
    requires
        prev.len() == cur.len(),
        cur.len() <= 0x1_0000,
    ensures
        replayed(prev, report_edges(o, prev, cur, cur.len())) == cur,
{
    lemma_report_replayed(o, prev, cur, cur.len());
    assert(cur.take(cur.len() as int) + prev.skip(cur.len() as int) == cur);
}

proof fn lemma_report_replayed(o: Origin, prev: Seq<u8>, cur: Seq<u8>, bytes: nat)
    requires
        prev.len() == cur.len(),
        bytes <= cur.len() <= 0x1_0000,
    ensures
        replayed(prev, report_edges(o, prev, cur, bytes)) == cur.take(bytes as int) + prev.skip(
            bytes as int,
        ),
    decreases bytes,
{
    if bytes == 0 {
        assert(cur.take(0) + prev.skip(0) == prev);
    } else {
        let n = (bytes - 1) as nat;
        lemma_report_replayed(o, prev, cur, n);
        let half = cur.take(n as int) + prev.skip(n as int);
        let new = byte_edges(o, n as int, prev[n as int], cur[n as int], 8);
        assert(half[n as int] == prev[n as int]);
        lemma_replayed_appends(prev, report_edges(o, prev, cur, n), new);
        lemma_byte_replayed(o, half, n as int, cur[n as int], 8);
        let p = prev[n as int];
        let c = cur[n as int];
        assert((c & 0xffu8) | (p & !0xffu8) == c) by (bit_vector);
        assert(half.update(n as int, c) == cur.take(bytes as int) + prev.skip(bytes as int));
    }
}

} // verus!
