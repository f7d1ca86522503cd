use hidforge::device::{
    device_signature, name_of, page_is_noise, parse_vid_pid, path_room, registration_set, Device,
    Info, Kind, Registration,
};
use hidforge::rawinput::{diag, Diag, Msg, Pump, RawInput};
use hidforge::report::{report_length, Report};
use hidforge::signal::{Event, Signal};

fn hid(handle: i64, page: u16, usage: u16) -> Device {
    let info = Info { buttons: 9, usage_page: page, usage };
    Device::described(handle, 2, String::new(), Some(info))
}

fn bit(device: i64, byte: u16, bit: u8) -> Signal {
    Signal::HidBit { device, page: 0xFF00, usage: 1, byte, bit }
}

#[test]
fn signals_name_their_channel() {
    let name = |index: u8| Signal::MouseButton { device: 3, index }.label();
    assert_eq!(name(1), "Left click");
    assert_eq!(name(2), "Right click");
    assert_eq!(name(3), "Middle click");
    assert_eq!(name(4), "Side back (X1)");
    assert_eq!(name(5), "Side forward (X2)");
    assert_eq!(name(6), "Button 6");
    assert_eq!(Signal::Wheel { device: 0, up: true }.label(), "Wheel up");
    assert_eq!(Signal::Wheel { device: 0, up: false }.label(), "Wheel down");
    let key = Signal::Key { device: 0, scancode: 5, vk: 0x1B };
    assert_eq!(key.label(), "Key sc0x05 vk0x1b");
    let b = Signal::HidBit { device: 0, page: 0xFF00, usage: 1, byte: 12, bit: 7 };
    assert_eq!(b.label(), "HID 0xff00/0x01 byte12.bit7");
}

#[test]
fn signals_know_their_device() {
    assert_eq!(Signal::MouseButton { device: 1, index: 1 }.device(), 1);
    assert_eq!(Signal::Wheel { device: 2, up: true }.device(), 2);
    assert_eq!(Signal::Key { device: 3, scancode: 1, vk: 1 }.device(), 3);
    assert_eq!(bit(4, 0, 0).device(), 4);
}

#[test]
fn hooks_reach_mouse_buttons_and_wheel_only() {
    assert!(Signal::MouseButton { device: 1, index: 5 }.suppressible());
    assert!(Signal::Wheel { device: 1, up: false }.suppressible());
    assert!(!Signal::Key { device: 1, scancode: 1, vk: 1 }.suppressible());
    assert!(!bit(1, 0, 0).suppressible());
}

#[test]
fn paths_give_vendor_and_product() {
    let path = "\\\\?\\HID#VID_046D&PID_C08B&MI_00#7&1";
    assert_eq!(parse_vid_pid(path), (Some(0x046D), Some(0xC08B)));
    assert_eq!(parse_vid_pid("hid#vid_046d&pid_c08b"), (Some(0x046D), Some(0xC08B)));
    assert_eq!(parse_vid_pid("\\\\?\\ACPI#PNP0303"), (None, None));
    // Shorter and odd numbers.
    assert_eq!(parse_vid_pid("VID_4&PID_1"), (None, Some(1)));
    assert_eq!(parse_vid_pid("VID_+12F"), (Some(0x12F), None));
    assert_eq!(parse_vid_pid("VID_"), (None, None));
    assert_eq!(parse_vid_pid("VID_+PID_00ff"), (None, Some(0xFF)));
    // The first key counts, even where its number is broken.
    assert_eq!(parse_vid_pid("VID_zzzz VID_0001"), (None, None));
    assert_eq!(parse_vid_pid("VID_12345"), (Some(0x1234), None));
}

#[test]
fn every_vendor_number_reads_back() {
    for id in 0..=u16::MAX {
        assert_eq!(parse_vid_pid(&format!("x#vid_{id:04x}&Pid_{id:04X}")), (Some(id), Some(id)));
    }
}

#[test]
fn devices_are_described_by_their_sort() {
    let info = Some(Info { buttons: 5, usage_page: 0x0C, usage: 1 });
    let path = String::from("VID_046D&PID_C08B");
    let m = Device::described(11, 0, path.clone(), info);
    assert_eq!((m.kind, m.buttons, m.usage_page, m.usage), (Kind::Mouse, 5, 0, 0));
    assert_eq!(m.label(), "Mouse 046D:C08B");
    assert_eq!(m.detail(), "5 buttons");
    let k = Device::described(12, 1, String::new(), info);
    assert_eq!((k.kind, k.buttons), (Kind::Keyboard, 5));
    assert_eq!(k.label(), "Keyboard (built-in)");
    assert_eq!(k.detail(), "5 keys");
    let h = Device::described(13, 2, path, info);
    assert_eq!((h.kind, h.buttons, h.usage_page, h.usage), (Kind::Hid, 0, 0x0C, 1));
    assert_eq!(h.label(), "HID 046D:C08B");
    assert_eq!(h.detail(), "page 0x000c usage 0x0001");
    let silent = Device::described(14, 0, String::new(), None);
    assert_eq!(silent.buttons, 0);
    assert_eq!(Kind::of(7).name(), "HID");
}

#[test]
fn handles_have_names() {
    let devs = vec![
        Device::described(1, 0, String::from("VID_0001&PID_0002"), None),
        Device::described(2, 1, String::new(), None),
        Device::described(1, 2, String::new(), None),
    ];
    // The device listed last under a handle counts.
    assert_eq!(name_of(&devs, 1), "HID (built-in)");
    assert_eq!(name_of(&devs, 2), "Keyboard (built-in)");
    assert_eq!(name_of(&devs, 255), "handle 0xff");
    assert_eq!(name_of(&devs, -1), format!("handle {:#x}", -1i64));
    assert_eq!(name_of(&devs, 0), "handle 0x0");
}

#[test]
fn path_buffers_are_bounded() {
    assert_eq!(path_room(0), None);
    assert_eq!(path_room(1), Some(2));
    assert_eq!(path_room(4096), Some(4097));
    assert_eq!(path_room(4097), None);
}

#[test]
fn registration_asks_for_each_usage_once() {
    let devs = vec![
        hid(1, 0xFF00, 1),
        hid(2, 0x000D, 4),
        hid(3, 0xFF00, 1),
        hid(4, 0, 5),
        hid(5, 0x0C, 1),
        Device::described(6, 0, String::new(), Some(Info { buttons: 3, usage_page: 7, usage: 7 })),
        hid(7, 0xFF43, 2),
    ];
    let set = registration_set(77, false, &devs);
    let pairs: Vec<(u16, u16)> = set.iter().map(|r| (r.page, r.usage)).collect();
    assert_eq!(pairs, vec![(1, 2), (1, 6), (0x0C, 1), (0xFF00, 1), (0xFF43, 2)]);
    for r in &set {
        assert_eq!((r.flags, r.target), (0x2100, 77));
    }
    let gone = registration_set(77, true, &Vec::new());
    assert_eq!(gone.len(), 3);
    assert_eq!(gone[0], Registration { page: 1, usage: 2, flags: 1, target: 0 });
    assert!(page_is_noise(0x0D));
    assert!(!page_is_noise(0x0C));
}

#[test]
fn fingerprints_follow_the_registered_usages() {
    assert_eq!(device_signature(&Vec::new()), 0xcbf2_9ce4_8422_2325);
    let mut want: u64 = 0xcbf2_9ce4_8422_2325;
    let mut bytes: Vec<u8> = (-2i64).to_le_bytes().to_vec();
    bytes.extend(0xFF43u16.to_le_bytes());
    bytes.extend(0x0102u16.to_le_bytes());
    for b in bytes {
        want = (want ^ b as u64).wrapping_mul(0x100_0000_01b3);
    }
    assert_eq!(device_signature(&vec![hid(-2, 0xFF43, 0x0102)]), want);
    let a = vec![hid(1, 2, 3), hid(4, 5, 6)];
    let mut b = vec![hid(1, 2, 3), hid(4, 5, 6)];
    b[0].path = String::from("elsewhere");
    assert_eq!(device_signature(&a), device_signature(&b));
    assert_ne!(device_signature(&a), device_signature(&vec![hid(4, 5, 6), hid(1, 2, 3)]));
    assert_ne!(device_signature(&a), device_signature(&vec![hid(1, 2, 3)]));
}

#[test]
fn counters_make_one_line() {
    let d = Diag {
        window: true,
        reg_ok: 5,
        reg_fail: 1,
        wm_input: 1200,
        injected_dropped: 30,
        surfaced: 7,
    };
    assert_eq!(
        diag(&d),
        "window=true reg_ok=5 reg_fail=1 wm_input=1200 injected_dropped=30 surfaced=7"
    );
}

#[test]
fn mouse_reports_give_edges_in_order() {
    let mut p = Pump::new();
    let all = p.on_input(9, &Report::Mouse { flags: 0x03FF, data: 0 }, 5);
    assert_eq!(all.len(), 10);
    for (i, e) in all.iter().enumerate() {
        let signal = Signal::MouseButton { device: 9, index: (i / 2 + 1) as u8 };
        assert_eq!(*e, Event { signal, down: i % 2 == 0, qpc: 5 });
    }
    let x2_up = p.on_input(9, &Report::Mouse { flags: 0x0200, data: 0 }, 6);
    let x2 = Signal::MouseButton { device: 9, index: 5 };
    assert_eq!(x2_up, vec![Event { signal: x2, down: false, qpc: 6 }]);
    assert!(p.on_input(9, &Report::Mouse { flags: 0, data: 0 }, 7).is_empty());
    assert_eq!(p.counters.surfaced, 11);
    assert_eq!(p.counters.wm_input, 3);
}

#[test]
fn wheel_notches_are_released_at_once() {
    let mut p = Pump::new();
    let up = p.on_input(1, &Report::Mouse { flags: 0x0400, data: 120 }, 0);
    let signal = Signal::Wheel { device: 1, up: true };
    assert_eq!(
        up,
        vec![Event { signal, down: true, qpc: 0 }, Event { signal, down: false, qpc: 0 }]
    );
    let down = p.on_input(1, &Report::Mouse { flags: 0x0400, data: 0xFF88 }, 0);
    assert_eq!(down[0].signal, Signal::Wheel { device: 1, up: false });
    let still = p.on_input(1, &Report::Mouse { flags: 0x0400, data: 0 }, 0);
    assert_eq!(still[0].signal, Signal::Wheel { device: 1, up: false });
}

#[test]
fn keys_go_down_and_up() {
    let mut p = Pump::new();
    let down = p.on_input(2, &Report::Key { make: 0x1E, flags: 2, vk: 65 }, 3);
    let signal = Signal::Key { device: 2, scancode: 0x1E, vk: 65 };
    assert_eq!(down, vec![Event { signal, down: true, qpc: 3 }]);
    let up = p.on_input(2, &Report::Key { make: 0x1E, flags: 3, vk: 65 }, 4);
    assert_eq!(up, vec![Event { signal, down: false, qpc: 4 }]);
    assert!(p.on_input(2, &Report::Key { make: 0xFF, flags: 0, vk: 255 }, 5).is_empty());
}

#[test]
fn injected_input_never_surfaces() {
    let mut p = Pump::new();
    assert!(p.on_input(0, &Report::Mouse { flags: 1, data: 0 }, 0).is_empty());
    assert!(p.on_input(0, &Report::Key { make: 1, flags: 0, vk: 1 }, 0).is_empty());
    let r = Report::Hid { size: 1, count: 1, data: vec![255] };
    assert!(p.on_input(0, &r, 0).is_empty());
    assert_eq!(p.counters.injected_dropped, 3);
    assert_eq!(p.counters.wm_input, 3);
    assert_eq!(p.counters.surfaced, 0);
}

#[test]
fn flipped_bits_are_presses() {
    let mut p = Pump::new();
    p.capture_set(&vec![hid(8, 0xFF00, 1)]);
    let report = |data: Vec<u8>| Report::Hid { size: data.len() as u32, count: 1, data };
    let first = p.on_input(8, &report(vec![0b0000_0101, 0]), 1);
    assert_eq!(
        first,
        vec![
            Event { signal: bit(8, 0, 0), down: true, qpc: 1 },
            Event { signal: bit(8, 0, 2), down: true, qpc: 1 },
        ]
    );
    assert!(p.on_input(8, &report(vec![0b0000_0101, 0]), 2).is_empty());
    let second = p.on_input(8, &report(vec![0b0000_0100, 0x80]), 3);
    assert_eq!(
        second,
        vec![
            Event { signal: bit(8, 0, 0), down: false, qpc: 3 },
            Event { signal: bit(8, 1, 7), down: true, qpc: 3 },
        ]
    );
    // A report of another length: what is missing counts as zero.
    let shorter = p.on_input(8, &report(vec![0b0000_0100]), 4);
    assert!(shorter.is_empty());
    let longer = p.on_input(8, &report(vec![0b0000_0100, 0x80]), 5);
    assert_eq!(longer, vec![Event { signal: bit(8, 1, 7), down: true, qpc: 5 }]);
}

#[test]
fn edges_rebuild_the_report() {
    let mut p = Pump::new();
    let mut seen = vec![0u8; 3];
    for data in [vec![1u8, 2, 3], vec![255, 0, 170], vec![0, 0, 0], vec![7, 7, 7]] {
        let r = Report::Hid { size: 3, count: 1, data: data.clone() };
        for e in p.on_input(5, &r, 0) {
            if let Signal::HidBit { byte, bit, .. } = e.signal {
                let mask = 1u8 << bit;
                if e.down {
                    seen[byte as usize] |= mask;
                } else {
                    seen[byte as usize] &= !mask;
                }
            }
        }
        assert_eq!(seen, data);
    }
}

#[test]
fn devices_without_a_usage_are_labelled_with_zeros() {
    let mut p = Pump::new();
    let r = Report::Hid { size: 1, count: 1, data: vec![1] };
    let signal = Signal::HidBit { device: 5, page: 0, usage: 0, byte: 0, bit: 0 };
    assert_eq!(p.on_input(5, &r, 0), vec![Event { signal, down: true, qpc: 0 }]);
}

#[test]
fn digitizers_are_ignored() {
    let mut p = Pump::new();
    p.capture_set(&vec![hid(8, 0x000D, 4)]);
    let r = Report::Hid { size: 2, count: 1, data: vec![1, 2] };
    assert!(p.on_input(8, &r, 0).is_empty());
    assert!(p.last.is_empty());
}

#[test]
fn report_lengths_are_bounded() {
    assert_eq!(report_length(0, 5), None);
    assert_eq!(report_length(5, 0), None);
    assert_eq!(report_length(8, 2), Some(16));
    assert_eq!(report_length(4096, 1), Some(4096));
    assert_eq!(report_length(4097, 1), None);
    assert_eq!(report_length(u32::MAX, u32::MAX), None);
    let mut p = Pump::new();
    let r = Report::Hid { size: 5000, count: 1, data: Vec::new() };
    assert!(p.on_input(1, &r, 0).is_empty());
}

#[test]
fn registering_never_feeds_on_itself() {
    let mut p = Pump::new();
    let devs = || vec![hid(1, 0xFF00, 1)];
    assert!(p.devices_changed(&devs()));
    assert!(p.registering);
    // The system reports the devices while the registration is still under way.
    assert!(!p.devices_changed(&vec![hid(1, 0xFF00, 1), hid(2, 3, 4)]));
    assert!(!p.offered(3, true));
    p.offered_one(false);
    p.end_register();
    for _ in 0..1000 {
        assert!(!p.devices_changed(&devs()));
    }
    assert_eq!((p.counters.reg_ok, p.counters.reg_fail), (3, 1));
    assert!(p.devices_changed(&vec![hid(1, 0xFF00, 2)]));
    p.end_register();
    p.capture_set(&vec![hid(9, 9, 9)]);
    assert!(!p.devices_changed(&vec![hid(9, 9, 9)]));
}

#[test]
fn only_one_registration_at_a_time() {
    let mut p = Pump::new();
    assert!(p.begin_register());
    assert!(!p.begin_register());
    p.end_register();
    assert!(p.begin_register());
}

#[test]
fn capture_switches_only_when_it_changes() {
    let mut r = RawInput::start(7, Vec::new());
    assert!(!r.capturing());
    assert!(!r.set_capture(false));
    assert!(r.set_capture(true));
    assert!(r.capturing());
    assert!(!r.set_capture(true));
    let mut dead = RawInput::start(0, Vec::new());
    assert!(!dead.set_capture(true));
    assert!(!dead.capturing());
}

#[test]
fn draining_absorbs_device_lists() {
    let mut r = RawInput::start(7, vec![hid(1, 1, 1)]);
    let e = |qpc: i64| Event { signal: Signal::Wheel { device: 1, up: true }, down: true, qpc };
    let out = r.drain(vec![
        Msg::Input(e(1)),
        Msg::Devices(vec![hid(2, 2, 2), hid(3, 3, 3)]),
        Msg::Input(e(2)),
        Msg::Devices(vec![hid(4, 4, 4)]),
    ]);
    assert_eq!(out, vec![e(1), e(2)]);
    assert_eq!(r.devices.len(), 1);
    assert_eq!(r.devices[0].handle, 4);
    assert!(r.drain(Vec::new()).is_empty());
    assert_eq!(r.devices[0].handle, 4);
}

#[test]
fn going_back_undoes_every_edge() {
    let mut p = Pump::new();
    let (a, b) = (vec![0b1010_0000u8, 3], vec![0b0101_0000u8, 7]);
    let report = |data: &Vec<u8>| Report::Hid { size: 2, count: 1, data: data.clone() };
    p.on_input(4, &report(&a), 0);
    let there = p.on_input(4, &report(&b), 1);
    let back = p.on_input(4, &report(&a), 1);
    assert_eq!(there.len(), 5);
    assert_eq!(back.len(), 5);
    for (x, y) in there.iter().zip(&back) {
        assert_eq!((x.signal, x.down), (y.signal, !y.down));
    }
}

#[test]
fn refused_usages_are_offered_one_by_one() {
    let mut p = Pump::new();
    assert!(p.offered(4, false));
    assert_eq!((p.counters.reg_ok, p.counters.reg_fail), (0, 0));
    for taken in [true, true, false, true] {
        p.offered_one(taken);
    }
    assert_eq!((p.counters.reg_ok, p.counters.reg_fail), (3, 1));
}

#[test]
fn one_byte_changes_the_fingerprint() {
    let base = device_signature(&vec![hid(0x1234, 0xFF00, 1), hid(0x5678, 0x0C, 1)]);
    for byte in 0..8 {
        let other = vec![hid(0x1234 ^ (0x40i64 << (8 * byte)), 0xFF00, 1), hid(0x5678, 0x0C, 1)];
        assert_ne!(device_signature(&other), base);
    }
    assert_ne!(device_signature(&vec![hid(0x1234, 0xFF01, 1), hid(0x5678, 0x0C, 1)]), base);
    assert_ne!(device_signature(&vec![hid(0x1234, 0xFF00, 1), hid(0x5678, 0x0C, 0x101)]), base);
}

#[test]
fn labels_tell_channels_apart() {
    let mut all: Vec<Signal> = Vec::new();
    for index in 0..=255u8 {
        all.push(Signal::MouseButton { device: 1, index });
    }
    for n in [0u16, 1, 9, 10, 15, 16, 255, 256, 4096, 65_535] {
        all.push(Signal::Key { device: 1, scancode: n, vk: 1 });
        all.push(Signal::Key { device: 1, scancode: 2, vk: n });
        all.push(Signal::HidBit { device: 1, page: n, usage: 3, byte: 4, bit: 5 });
        all.push(Signal::HidBit { device: 1, page: 2, usage: n, byte: 4, bit: 5 });
        all.push(Signal::HidBit { device: 1, page: 2, usage: 3, byte: n, bit: 5 });
    }
    all.push(Signal::Wheel { device: 1, up: true });
    all.push(Signal::Wheel { device: 1, up: false });
    for a in &all {
        for b in &all {
            assert_eq!(a.label() == b.label(), a == b);
        }
    }
    assert_eq!(bit(1, 2, 3).label(), bit(9, 2, 3).label());
}
