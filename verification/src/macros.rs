//! Macros: the recorded steps, the recorder, and the profiles they are kept in.
//!
//! A macro is a flat list of steps with explicit delays. Recording takes in what the hardware
//! sends and turns the gaps into delays.
use vstd::prelude::*;
use vstd::string::StringExecFns;
use crate::inject::Btn;
use crate::signal::{Event, Signal};
use crate::text;

verus! {

/// A double, kept by its bit pattern: carried and handed on, never computed with.
#[derive(Clone, Copy, PartialEq, Eq, Structural, Debug)]
pub struct Real {
    pub bits: u64,
}

/// The bits of 0.0.
pub const ZERO: u64 = 0;

/// The bits of 1.0.
pub const ONE: u64 = 0x3FF0_0000_0000_0000;

/// The bits of 20.0.
pub const TWENTY: u64 = 0x4034_0000_0000_0000;

/// How long a delay is.
#[derive(Clone, Copy, PartialEq, Eq, Structural, Debug)]
pub enum Span {
    /// A number of milliseconds, as files hold it.
    Millis(Real),
    /// Ticks of a counter that makes `qpf` of them a second, as a recording holds it.
    Ticks { ticks: i64, qpf: i64 },
}

/// One step of a macro.
#[derive(Clone, Copy, PartialEq, Eq, Structural, Debug)]
pub enum Step {
    Button { btn: u8, down: bool },
    /// Played by its scancode where it has one: many programs ignore a virtual key alone.
    Key { vk: u16, scan: u16, down: bool },
    Wheel { delta: i32 },
    Move { dx: i32, dy: i32 },
    Delay { span: Span },
}

/// The button with this number; whatever is past the fourth is the fifth.
pub open spec fn numbered(i: u8) -> Btn {
    if i == 1 {
        Btn::Left
    } else if i == 2 {
        Btn::Right
    } else if i == 3 {
        Btn::Middle
    } else if i == 4 {
        Btn::X1
    } else {
        Btn::X2
    }
}

pub fn btn_of(i: u8) -> (r: Btn)
    ensures
        r == numbered(i),
{
    if i == 1 {
        Btn::Left
    } else if i == 2 {
        Btn::Right
    } else if i == 3 {
        Btn::Middle
    } else if i == 4 {
        Btn::X1
    } else {
        Btn::X2
    }
}

/// The numbers one to five name the five buttons, each once.
pub proof fn law_five_buttons(btn: Btn)
    ensures
        exists|i: u8| 1 <= i <= 5 && #[trigger] numbered(i) == btn,
        forall|i: u8, j: u8|
            1 <= i <= 5 && 1 <= j <= 5 && #[trigger] numbered(i) == #[trigger] numbered(j) ==> i
                == j,
{
    let i: u8 = match btn {
        Btn::Left => 1,
        Btn::Right => 2,
        Btn::Middle => 3,
        Btn::X1 => 4,
        Btn::X2 => 5,
    };
    assert(numbered(i) == btn);
}

impl Step {
    /// What the step is called, its delay written as `millis`.
    pub open spec fn title(self, millis: Seq<char>) -> Seq<char> {
        match self {
            Step::Button { btn, down } => numbered(btn).title() + " "@ + if down {
                "down"@
            } else {
                "up"@
            },
            Step::Key { vk, scan, down } => "key "@ + (if down {
                "down"@
            } else {
                "up  "@
            }) + " sc"@ + text::hexed(scan as nat, 2) + " vk"@ + text::hexed(vk as nat, 2),
            Step::Wheel { delta } => "wheel "@ + text::signed(delta as int),
            Step::Move { dx, dy } => "move "@ + text::signed(dx as int) + ","@ + text::signed(
                dy as int,
            ),
            Step::Delay { .. } => "delay "@ + millis + " ms"@,
        }
    }

    /// The step in words. `millis` is the length of a delay in milliseconds, to one decimal.
    pub fn label(&self, millis: &str) -> (r: String)
        ensures
            r@ == self.title(millis@),
    {
        match *self {
            Step::Button { btn, down } => {
                let mut out = String::from_str(btn_of(btn).name());
                out.append(" ");
                out.append(
                    if down {
                        "down"
                    } else {
                        "up"
                    },
                );
                out
            },
            Step::Key { vk, scan, down } => {
                let mut out = String::from_str("key ");
                out.append(
                    if down {
                        "down"
                    } else {
                        "up  "
                    },
                );
                out.append(" sc");
                text::push_hexed(&mut out, scan, 2);
                out.append(" vk");
                text::push_hexed(&mut out, vk, 2);
                out
            },
            Step::Wheel { delta } => {
                let mut out = String::from_str("wheel ");
                text::push_signed(&mut out, delta);
                out
            },
            Step::Move { dx, dy } => {
                let mut out = String::from_str("move ");
                text::push_signed(&mut out, dx);
                out.append(",");
                text::push_signed(&mut out, dy);
                out
            },
            Step::Delay { .. } => {
                let mut out = String::from_str("delay ");
                out.append(millis);
                out.append(" ms");
                out
            },
        }
    }
}

/// How often a macro runs once it is triggered.
#[derive(Clone, Copy, PartialEq, Eq, Structural, Debug)]
pub enum Cycle {
    UntilReleased,
    UntilClickedAgain,
    Times(u32),
}

impl Cycle {
    pub open spec fn title(self) -> Seq<char> {
        match self {
            Cycle::UntilReleased => "Cycle until the key is released"@,
            Cycle::UntilClickedAgain => "Cycle until the key is clicked again"@,
            Cycle::Times(_) => "Specified cycle times"@,
        }
    }

    pub fn label(self) -> (r: &'static str)
        ensures
            r@ == self.title(),
    {
        match self {
            Cycle::UntilReleased => "Cycle until the key is released",
            Cycle::UntilClickedAgain => "Cycle until the key is clicked again",
            Cycle::Times(_) => "Specified cycle times",
        }
    }
}

/// A named list of steps.
#[derive(Debug)]
pub struct Macro {
    pub name: String,
    pub steps: Vec<Step>,
    pub cycle: Cycle,
    /// Divides every delay.
    pub speed: Real,
}

/// What a macro holds.
#[verifier::ext_equal]
pub struct MacroModel {
    pub name: Seq<char>,
    pub steps: Seq<Step>,
    pub cycle: Cycle,
    pub speed: Real,
}

impl View for Macro {
    type V = MacroModel;

    open spec fn view(&self) -> MacroModel {
        MacroModel {
            name: self.name@,
            steps: self.steps@,
            cycle: self.cycle,
            speed: self.speed,
        }
    }
}

impl Clone for Macro {
    fn clone(&self) -> (r: Self)
        ensures
            r@ == self@,
    {
        let steps = self.steps.clone();
        assert(steps@ == self.steps@);
        Macro { name: self.name.clone(), steps, cycle: self.cycle, speed: self.speed }
    }
}

impl Macro {
    /// An empty macro that runs once, as recorded.
    pub fn new(name: String) -> (r: Self)
        ensures
            r@ == (MacroModel {
                name: name@,
                steps: seq![],
                cycle: Cycle::Times(1),
                speed: (Real { bits: ONE }),
            }),
    {
        Macro { name, steps: Vec::new(), cycle: Cycle::Times(1), speed: Real { bits: ONE } }
    }
}

/// What a learned button does.
#[derive(Clone, Copy, PartialEq, Eq, Structural, Debug)]
pub enum Action {
    Nothing,
    /// Fires a mouse button again and again.
    RapidFire { btn: u8 },
    /// Runs the macro at this place in the list.
    Macro { index: usize },
}

impl Action {
    /// The action in words; a macro that is not there is missing.
    pub open spec fn title(self, macros: Seq<MacroModel>) -> Seq<char> {
        match self {
            Action::Nothing => "— not assigned —"@,
            Action::RapidFire { btn } => "Rapid fire: "@ + numbered(btn).title(),
            Action::Macro { index } => if index < macros.len() {
                "Macro: "@ + macros[index as int].name
            } else {
                "Macro: <missing>"@
            },
        }
    }

    pub fn label(&self, macros: &Vec<Macro>) -> (r: String)
        ensures
            r@ == self.title(macro_models(macros@)),
    {
        match *self {
            Action::Nothing => String::from_str("— not assigned —"),
            Action::RapidFire { btn } => {
                let mut out = String::from_str("Rapid fire: ");
                out.append(btn_of(btn).name());
                out
            },
            Action::Macro { index } => {
                if index < macros.len() {
                    let mut out = String::from_str("Macro: ");
                    out.append(macros[index].name.as_str());
                    out
                } else {
                    String::from_str("Macro: <missing>")
                }
            },
        }
    }
}

/// A button that was learned, and what it does.
#[derive(Debug)]
pub struct Slot {
    pub name: String,
    pub signal: Signal,
    pub action: Action,
    /// How the trigger behaves. It describes the button, not the macro: one macro can be driven
    /// both ways.
    pub cycle: Cycle,
}

/// What a slot holds.
#[verifier::ext_equal]
pub struct SlotModel {
    pub name: Seq<char>,
    pub signal: Signal,
    pub action: Action,
    pub cycle: Cycle,
}

impl View for Slot {
    type V = SlotModel;

    open spec fn view(&self) -> SlotModel {
        SlotModel {
            name: self.name@,
            signal: self.signal,
            action: self.action,
            cycle: self.cycle,
        }
    }
}

impl Clone for Slot {
    fn clone(&self) -> (r: Self)
        ensures
            r@ == self@,
    {
        Slot {
            name: self.name.clone(),
            signal: self.signal,
            action: self.action,
            cycle: self.cycle,
        }
    }
}

/// How the trigger of a slot behaves where nothing is said about it.
pub fn default_cycle() -> (r: Cycle)
    ensures
        r == Cycle::UntilReleased,
{
    Cycle::UntilReleased
}

/// What a profile is called where nothing is said about it.
pub fn default_name() -> (r: String)
    ensures
        r@ == "Default"@,
{
    String::from_str("Default")
}

/// Clicks a second where nothing is said about them.
pub fn default_cps() -> (r: Real)
    ensures
        r == (Real { bits: TWENTY }),
{
    Real { bits: TWENTY }
}

/// Milliseconds a button is held where nothing is said about them.
pub fn default_hold() -> (r: Real)
    ensures
        r == (Real { bits: ONE }),
{
    Real { bits: ONE }
}

// ---------------------------------------------------------------- recorder

/// The step that plays a signal back. Only the five standard buttons have one, a wheel notch has
/// one when it goes down, and a bit of a generic report has none: that it flipped is known, not
/// what the device meant by it.
pub open spec fn playable(signal: Signal, down: bool) -> Option<Step> {
    match signal {
        Signal::MouseButton { index, .. } => if 1 <= index <= 5 {
            Some(Step::Button { btn: index, down })
        } else {
            None
        },
        Signal::Key { vk, scancode, .. } => Some(Step::Key { vk, scan: scancode, down }),
        Signal::Wheel { up, .. } => if down {
            Some(Step::Wheel { delta: if up { 120i32 } else { -120i32 } })
        } else {
            None
        },
        Signal::HidBit { .. } => None,
    }
}

fn step_of(signal: &Signal, down: bool) -> (r: Option<Step>)
    ensures
        r == playable(*signal, down),
{
    match *signal {
        Signal::MouseButton { index, .. } => {
            if 1 <= index && index <= 5 {
                Some(Step::Button { btn: index, down })
            } else {
                None
            }
        },
        Signal::Key { vk, scancode, .. } => Some(Step::Key { vk, scan: scancode, down }),
        Signal::Wheel { up, .. } => {
            if down {
                Some(
                    Step::Wheel {
                        delta: if up {
                            120
                        } else {
                            -120
                        },
                    },
                )
            } else {
                None
            }
        },
        Signal::HidBit { .. } => None,
    }
}

/// Whether a gap is long enough to be kept: a millisecond or more.
pub open spec fn worth_a_delay(gap: int, qpf: int) -> bool {
    1000 * gap >= qpf
}

/// What has been recorded so far.
#[derive(Debug)]
pub struct Recorder {
    pub steps: Vec<Step>,
    /// When the last step was recorded.
    pub last: Option<i64>,
    /// Set by the first press that is recorded. Until then everything is ignored, or a macro would
    /// start with the release of the click that started the recording.
    pub armed: bool,
}

/// What a recorder holds.
#[verifier::ext_equal]
pub struct RecorderModel {
    pub steps: Seq<Step>,
    pub last: Option<i64>,
    pub armed: bool,
}

impl View for Recorder {
    type V = RecorderModel;

    open spec fn view(&self) -> RecorderModel {
        RecorderModel { steps: self.steps@, last: self.last, armed: self.armed }
    }
}

impl RecorderModel {
    /// The recorder before anything was fed.
    pub open spec fn empty() -> RecorderModel {
        RecorderModel { steps: seq![], last: None, armed: false }
    }

    /// What an event is recorded as, if it is recorded.
    pub open spec fn takes(self, signal: Signal, down: bool) -> Option<Step> {
        if self.armed || down {
            playable(signal, down)
        } else {
            None
        }
    }

    /// The delay that goes in front of a step at `qpc`.
    pub open spec fn pause(self, qpc: int, qpf: int) -> Seq<Step> {
        match self.last {
            Some(prev) if worth_a_delay(qpc - prev, qpf) => seq![
                Step::Delay { span: Span::Ticks { ticks: (qpc - prev) as i64, qpf: qpf as i64 } },
            ],
            _ => seq![],
        }
    }

    /// The recorder after an event.
    pub open spec fn fed(self, signal: Signal, down: bool, qpc: i64, qpf: i64) -> RecorderModel {
        match self.takes(signal, down) {
            None => self,
            Some(step) => RecorderModel {
                steps: (self.steps + self.pause(qpc as int, qpf as int)).push(step),
                last: Some(qpc),
                armed: true,
            },
        }
    }

    /// The recorder after a run of events.
    pub open spec fn fed_all(self, events: Seq<Event>, qpf: i64) -> RecorderModel
        decreases events.len(),
    {
        if events.len() == 0 {
            self
        } else {
            let e = events.last();
            self.fed_all(events.drop_last(), qpf).fed(e.signal, e.down, e.qpc, qpf)
        }
    }
}

impl Recorder {
    pub fn new() -> (r: Self)
        ensures
            r@ == RecorderModel::empty(),
    {
        Recorder { steps: Vec::new(), last: None, armed: false }
    }

    /// Takes in an event at `qpc`, on a counter of `qpf` ticks a second, and says whether it was
    /// recorded.
    pub fn feed(&mut self, signal: &Signal, down: bool, qpc: i64, qpf: i64) -> (r: bool)
        requires
            old(self)@.takes(*signal, down) is Some ==> (old(self).last matches Some(prev)
                ==> i64::MIN <= qpc - prev <= i64::MAX),
        ensures
            r == (old(self)@.takes(*signal, down) is Some),
            final(self)@ == old(self)@.fed(*signal, down, qpc, qpf),
    {
        if !self.armed && !down {
            return false;
        }
        match step_of(signal, down) {
            None => false,
            Some(step) => {
                self.armed = true;
                if let Some(prev) = self.last {
                    let gap: i64 = qpc - prev;
                    if 1000 * gap as i128 >= qpf as i128 {
                        self.steps.push(Step::Delay { span: Span::Ticks { ticks: gap, qpf } });
                    }
                }
                self.last = Some(qpc);
                self.steps.push(step);
                true
            },
        }
    }
}

/// The ticks of all delays in a recording.
pub open spec fn delayed(steps: Seq<Step>) -> int
    decreases steps.len(),
{
    if steps.len() == 0 {
        0
    } else {
        delayed(steps.drop_last()) + match steps.last() {
            Step::Delay { span: Span::Ticks { ticks, .. } } => ticks as int,
            _ => 0,
        }
    }
}

/// Events in the order of time, none before `start`.
pub open spec fn in_order(start: int, events: Seq<Event>) -> bool {
    &&& forall|i: int| 0 <= i < events.len() ==> start <= #[trigger] events[i].qpc
    &&& forall|i: int, j: int|
        0 <= i <= j < events.len() ==> #[trigger] events[i].qpc <= #[trigger] events[j].qpc
}

proof fn lemma_delayed_push(steps: Seq<Step>, s: Step)
    ensures
        delayed(steps.push(s)) == delayed(steps) + match s {
            Step::Delay { span: Span::Ticks { ticks, .. } } => ticks as int,
            _ => 0,
        },
{
    assert(steps.push(s).drop_last() == steps);
}

/// A recording keeps time: between two recorded steps its delays add up to the time that went
/// by, short of less than a millisecond for each event in between.
pub proof fn law_recording_keeps_time(r: RecorderModel, start: i64, events: Seq<Event>, qpf: i64)
    requires
        qpf > 0,
        0 <= start,
        r.last == Some(start),
        in_order(start as int, events),
    ensures
        ({
            let after = r.fed_all(events, qpf);
            let kept = delayed(after.steps) - delayed(r.steps);
            &&& after.last matches Some(end) && {
                &&& start <= end
                &&& kept <= end - start
                &&& 1000 * (end - start - kept) <= events.len() * qpf
                &&& events.len() > 0 ==> end <= events.last().qpc
            }
        }),
    decreases events.len(),
{
    if events.len() > 0 {
        let init = events.drop_last();
        let e = events.last();
        assert(in_order(start as int, init)) by {
            assert(forall|i: int| 0 <= i < init.len() ==> init[i] == events[i]);
        }
        law_recording_keeps_time(r, start, init, qpf);
        let before = r.fed_all(init, qpf);
        if init.len() > 0 {
            assert(events[init.len() - 1].qpc <= events[events.len() - 1].qpc);
        } else {
            assert(start <= events[0].qpc);
        }
        assert((init.len() + 1) * qpf == init.len() * qpf + qpf) by (nonlinear_arith);
        if let Some(step) = before.takes(e.signal, e.down) {
            let prev = before.last->0;
            let pause = before.pause(e.qpc as int, qpf as int);
            lemma_delayed_push(before.steps + pause, step);
            if worth_a_delay(e.qpc - prev, qpf as int) {
                assert(before.steps + pause == before.steps.push(pause[0]));
                lemma_delayed_push(before.steps, pause[0]);
            } else {
                assert(before.steps + pause == before.steps);
            }
        }
    }
}

/// Where every event can be played and comes a millisecond or more after the one before, a
/// recording keeps time exactly.
pub proof fn law_unhurried_recording_is_exact(
    r: RecorderModel,
    start: i64,
    events: Seq<Event>,
    qpf: i64,
)
    requires
        0 <= start,
        r.armed,
        r.last == Some(start),
        in_order(start as int, events),
        forall|i: int|
            0 <= i < events.len() ==> playable(
                (#[trigger] events[i]).signal,
                events[i].down,
            ) is Some && worth_a_delay(
                events[i].qpc - if i == 0 {
                    start
                } else {
                    events[i - 1].qpc
                },
                qpf as int,
            ),
    ensures
        ({
            let after = r.fed_all(events, qpf);
            let end = if events.len() == 0 {
                start
            } else {
                events.last().qpc
            };
            &&& after.armed
            &&& after.last == Some(end)
            &&& delayed(after.steps) - delayed(r.steps) == end - start
        }),
    decreases events.len(),
{
    if events.len() > 0 {
        let init = events.drop_last();
        let e = events.last();
        assert(forall|i: int| 0 <= i < init.len() ==> init[i] == events[i]);
        law_unhurried_recording_is_exact(r, start, init, qpf);
        let before = r.fed_all(init, qpf);
        let n = events.len() as int;
        let prev = if n == 1 {
            start
        } else {
            events[n - 2].qpc
        };
        assert(events[n - 1] == e);
        assert(worth_a_delay(e.qpc - prev, qpf as int));
        assert(before.last == Some(prev));
        assert(prev <= e.qpc) by {
            if n > 1 {
                assert(events[n - 2].qpc <= events[n - 1].qpc);
            }
        }
        let pause = before.pause(e.qpc as int, qpf as int);
        let step = playable(e.signal, e.down)->0;
        assert(before.steps + pause == before.steps.push(pause[0]));
        lemma_delayed_push(before.steps, pause[0]);
        lemma_delayed_push(before.steps + pause, step);
    }
}

/// Whether an event can start a recording: a press that can be played.
pub open spec fn starts(e: Event) -> bool {
    e.down && playable(e.signal, true) is Some
}

/// A recording starts with the first press that can be played: never with the release of an
/// earlier click, never with a delay. Until then nothing is recorded.
pub proof fn law_recording_starts_with_press(events: Seq<Event>, qpf: i64)
    ensures
        ({
            let r = RecorderModel::empty().fed_all(events, qpf);
            &&& r.armed == (r.steps.len() > 0)
            &&& r.steps.len() == 0 <==> forall|i: int|
                0 <= i < events.len() ==> !#[trigger] starts(events[i])
            &&& forall|first: int|
                0 <= first < events.len() && #[trigger] starts(events[first]) && (forall|i: int|
                    0 <= i < first ==> !#[trigger] starts(events[i])) ==> Some(r.steps[0])
                    == playable(events[first].signal, true)
        }),
    decreases events.len(),
{
    if events.len() > 0 {
        let init = events.drop_last();
        let e = events.last();
        let n = init.len() as int;
        law_recording_starts_with_press(init, qpf);
        let before = RecorderModel::empty().fed_all(init, qpf);
        let after = RecorderModel::empty().fed_all(events, qpf);
        assert(forall|i: int| 0 <= i < n ==> init[i] == events[i]);
        lemma_recording_is_wf(init, qpf);
        if before.steps.len() == 0 {
            assert forall|i: int| 0 <= i < n implies !#[trigger] starts(events[i]) by {
                assert(!starts(init[i]));
            }
            assert(before.steps + before.pause(e.qpc as int, qpf as int) == Seq::<Step>::empty());
            assert(starts(events[n]) == (before.takes(e.signal, e.down) is Some));
        } else {
            assert(after.steps[0] == before.steps[0]);
            assert(exists|i: int| 0 <= i < n && #[trigger] starts(init[i]));
            let k = choose|i: int| 0 <= i < n && #[trigger] starts(init[i]);
            assert(starts(events[k]));
            assert forall|first: int|
                0 <= first < events.len() && #[trigger] starts(events[first]) && (forall|i: int|
                    0 <= i < first ==> !#[trigger] starts(events[i])) implies Some(after.steps[0])
                == playable(events[first].signal, true) by {
                assert(first <= k);
                assert(starts(init[first]));
                assert forall|i: int| 0 <= i < first implies !#[trigger] starts(init[i]) by {
                    assert(!starts(events[i]));
                }
            }
        }
    }
}

/// When the last event of a run was recorded that was recorded at all.
pub open spec fn last_recorded(events: Seq<Event>, qpf: i64) -> Option<i64>
    decreases events.len(),
{
    if events.len() == 0 {
        None
    } else {
        let e = events.last();
        let before = RecorderModel::empty().fed_all(events.drop_last(), qpf);
        if before.takes(e.signal, e.down) is Some {
            Some(e.qpc)
        } else {
            last_recorded(events.drop_last(), qpf)
        }
    }
}

proof fn lemma_recording_is_wf(events: Seq<Event>, qpf: i64)
    ensures
        ({
            let r = RecorderModel::empty().fed_all(events, qpf);
            &&& r.last == last_recorded(events, qpf)
            &&& r.last is Some <==> r.steps.len() > 0
            &&& r.steps.len() > 0 ==> !(r.steps[0] is Delay) && !(r.steps.last() is Delay)
        }),
    decreases events.len(),
{
    if events.len() > 0 {
        lemma_recording_is_wf(events.drop_last(), qpf);
        let before = RecorderModel::empty().fed_all(events.drop_last(), qpf);
        let e = events.last();
        let pause = before.pause(e.qpc as int, qpf as int);
        if before.steps.len() == 0 {
            assert(before.steps + pause == Seq::<Step>::empty());
        }
    }
}

/// Gaps count from the last event that was recorded: one that is not recorded changes nothing, one
/// that is goes in with the pause since the last one in front of it. So a recording neither starts
/// nor ends with a delay.
pub proof fn law_gaps_count_from_the_last_step(events: Seq<Event>, e: Event, qpf: i64)
    ensures
        ({
            let r = RecorderModel::empty().fed_all(events, qpf);
            let after = RecorderModel::empty().fed_all(events.push(e), qpf);
            let prev = last_recorded(events, qpf);
            &&& r.steps.len() > 0 ==> !(r.steps[0] is Delay) && !(r.steps.last() is Delay)
            &&& match r.takes(e.signal, e.down) {
                None => after == r && last_recorded(events.push(e), qpf) == prev,
                Some(step) => {
                    &&& !(step is Delay)
                    &&& last_recorded(events.push(e), qpf) == Some(e.qpc)
                    &&& after.steps == if prev is Some && worth_a_delay(
                        e.qpc - prev->0,
                        qpf as int,
                    ) {
                        r.steps + seq![
                            Step::Delay {
                                span: Span::Ticks { ticks: (e.qpc - prev->0) as i64, qpf },
                            },
                            step,
                        ]
                    } else {
                        r.steps.push(step)
                    }
                },
            }
        }),
{
    lemma_recording_is_wf(events, qpf);
    assert(events.push(e).drop_last() == events);
    assert(events.push(e).last() == e);
}

// ---------------------------------------------------------------- profiles

/// A complete set of buttons, macros and rates. Switching is by hand.
#[derive(Debug)]
pub struct Profile {
    pub name: String,
    pub macros: Vec<Macro>,
    pub slots: Vec<Slot>,
    pub cps: Real,
    pub hold_ms: Real,
    pub jitter_pct: Real,
}

/// What a profile holds.
#[verifier::ext_equal]
pub struct ProfileModel {
    pub name: Seq<char>,
    pub macros: Seq<MacroModel>,
    pub slots: Seq<SlotModel>,
    pub cps: Real,
    pub hold_ms: Real,
    pub jitter_pct: Real,
}

/// What a list of macros holds.
pub open spec fn macro_models(v: Seq<Macro>) -> Seq<MacroModel> {
    Seq::new(v.len(), |i: int| v[i]@)
}

/// What a list of slots holds.
pub open spec fn slot_models(v: Seq<Slot>) -> Seq<SlotModel> {
    Seq::new(v.len(), |i: int| v[i]@)
}

/// What a list of profiles holds.
pub open spec fn profile_models(v: Seq<Profile>) -> Seq<ProfileModel> {
    Seq::new(v.len(), |i: int| v[i]@)
}

impl View for Profile {
    type V = ProfileModel;

    open spec fn view(&self) -> ProfileModel {
        ProfileModel {
            name: self.name@,
            macros: macro_models(self.macros@),
            slots: slot_models(self.slots@),
            cps: self.cps,
            hold_ms: self.hold_ms,
            jitter_pct: self.jitter_pct,
        }
    }
}

impl ProfileModel {
    /// An empty profile: 20 clicks a second, held for a millisecond, no jitter.
    pub open spec fn named(name: Seq<char>) -> ProfileModel {
        ProfileModel {
            name,
            macros: seq![],
            slots: seq![],
            cps: Real { bits: TWENTY },
            hold_ms: Real { bits: ONE },
            jitter_pct: Real { bits: ZERO },
        }
    }
}

impl Clone for Profile {
    fn clone(&self) -> (r: Self)
        ensures
            r@ == self@,
    {
        let mut macros: Vec<Macro> = Vec::new();
        let mut i: usize = 0;
        while i < self.macros.len()
            invariant
                i <= self.macros.len(),
                macro_models(macros@) == macro_models(self.macros@).take(i as int),
            decreases self.macros.len() - i,
        {
            let ghost before = macros@;
            let copy = self.macros[i].clone();
            macros.push(copy);
            assert(macro_models(macros@) == macro_models(before).push(copy@));
            i += 1;
        }
        let mut slots: Vec<Slot> = Vec::new();
        let mut j: usize = 0;
        while j < self.slots.len()
            invariant
                j <= self.slots.len(),
                slot_models(slots@) == slot_models(self.slots@).take(j as int),
            decreases self.slots.len() - j,
        {
            let ghost before = slots@;
            let copy = self.slots[j].clone();
            slots.push(copy);
            assert(slot_models(slots@) == slot_models(before).push(copy@));
            j += 1;
        }
        Profile {
            name: self.name.clone(),
            macros,
            slots,
            cps: self.cps,
            hold_ms: self.hold_ms,
            jitter_pct: self.jitter_pct,
        }
    }
}

impl Default for Profile {
    fn default() -> (r: Self)
        ensures
            r@ == ProfileModel::named("Default"@),
    {
        Profile {
            name: default_name(),
            macros: Vec::new(),
            slots: Vec::new(),
            cps: default_cps(),
            hold_ms: default_hold(),
            jitter_pct: Real { bits: ZERO },
        }
    }
}

impl Profile {
    pub fn named(name: String) -> (r: Self)
        ensures
            r@ == ProfileModel::named(name@),
    {
        Profile {
            name,
            macros: Vec::new(),
            slots: Vec::new(),
            cps: default_cps(),
            hold_ms: default_hold(),
            jitter_pct: Real { bits: ZERO },
        }
    }
}

/// All profiles, and which one is in use.
#[derive(Debug)]
pub struct Store {
    pub profiles: Vec<Profile>,
    pub active: usize,
}

/// What a store holds.
#[verifier::ext_equal]
pub struct StoreModel {
    pub profiles: Seq<ProfileModel>,
    pub active: usize,
}

impl View for Store {
    type V = StoreModel;

    open spec fn view(&self) -> StoreModel {
        StoreModel { profiles: profile_models(self.profiles@), active: self.active }
    }
}

impl StoreModel {
    /// A store with one profile only.
    pub open spec fn of(profile: ProfileModel) -> StoreModel {
        StoreModel { profiles: seq![profile], active: 0 }
    }

    /// A store that has a profile in use.
    pub open spec fn wf(self) -> bool {
        self.active < self.profiles.len()
    }

    /// The store to start with, from what a file reads as.
    pub open spec fn loaded(
        current: Option<StoreModel>,
        single: Option<ProfileModel>,
    ) -> StoreModel {
        match (current, single) {
            (Some(s), _) => s.mended(),
            (None, Some(p)) => StoreModel::of(p),
            (None, None) => StoreModel::of(ProfileModel::named("Default"@)),
        }
    }

    /// The store with what a file may lack made good: a profile where there is none, and one in
    /// use that is there.
    pub open spec fn mended(self) -> StoreModel {
        if self.profiles.len() == 0 {
            StoreModel::of(ProfileModel::named("Default"@))
        } else {
            StoreModel {
                active: if self.active < self.profiles.len() {
                    self.active
                } else {
                    (self.profiles.len() - 1) as usize
                },
                ..self
            }
        }
    }
}

impl Clone for Store {
    fn clone(&self) -> (r: Self)
        ensures
            r@ == self@,
    {
        let mut profiles: Vec<Profile> = Vec::new();
        let mut i: usize = 0;
        while i < self.profiles.len()
            invariant
                i <= self.profiles.len(),
                profile_models(profiles@) == profile_models(self.profiles@).take(i as int),
            decreases self.profiles.len() - i,
        {
            let ghost before = profiles@;
            let copy = self.profiles[i].clone();
            profiles.push(copy);
            assert(profile_models(profiles@) == profile_models(before).push(copy@));
            i += 1;
        }
        Store { profiles, active: self.active }
    }
}

impl Default for Store {
    fn default() -> (r: Self)
        ensures
            r@ == StoreModel::of(ProfileModel::named("Default"@)),
    {
        let mut profiles: Vec<Profile> = Vec::new();
        profiles.push(Profile::named(String::from_str("Default")));
        Store { profiles, active: 0 }
    }
}

impl Store {
    /// The store to start with, from what a file reads as: the layout with profiles, else the
    /// older one with a single profile, so that an upgrade discards nothing, else a fresh one.
    pub fn load(current: Option<Store>, single: Option<Profile>) -> (r: Self)
        ensures
            r@ == (match (current, single) {
                (Some(s), _) => s@.mended(),
                (None, Some(p)) => StoreModel::of(p@),
                (None, None) => StoreModel::of(ProfileModel::named("Default"@)),
            }),
            r@ == StoreModel::loaded(
                match current {
                    Some(s) => Some(s@),
                    None => None,
                },
                match single {
                    Some(p) => Some(p@),
                    None => None,
                },
            ),
            r@.wf(),
    {
        match current {
            Some(s) => {
                let mut s = s;
                if s.profiles.len() == 0 {
                    s.profiles.push(Profile::named(String::from_str("Default")));
                }
                if s.active >= s.profiles.len() {
                    s.active = s.profiles.len() - 1;
                }
                s
            },
            None => match single {
                Some(p) => {
                    let mut profiles: Vec<Profile> = Vec::new();
                    profiles.push(p);
                    Store { profiles, active: 0 }
                },
                None => Store::default(),
            },
        }
    }
}

/// Loading what was loaded changes nothing more.
pub proof fn law_mended_once(s: StoreModel)
    ensures
        s.mended().wf(),
        s.mended().mended() == s.mended(),
        s.wf() ==> s.mended() == s,
{
}

/// No profile is lost by loading.
pub proof fn law_load_keeps_profiles(s: StoreModel)
    ensures
        s.profiles.len() > 0 ==> s.mended().profiles == s.profiles,
{
}

// --------------------------------------------------- what is kept, and how

/// All that a hand does is recorded: every press and every release of the five standard buttons
/// and of every key, each as what it was, and every notch of the wheel once, in its direction.
/// Only what has no meaning to play is left out: other buttons, and bits of generic reports.
pub proof fn law_all_that_can_be_played_is_recorded(
    r: RecorderModel,
    signal: Signal,
    down: bool,
    qpc: i64,
    qpf: i64,
)
    requires
        r.armed || down,
        r.last matches Some(prev) ==> i64::MIN <= qpc - prev <= i64::MAX,
    ensures
        ({
            let after = r.fed(signal, down, qpc, qpf);
            let played = match signal {
                Signal::MouseButton { index, .. } => index == 1 || index == 2 || index == 3 || index
                    == 4 || index == 5,
                Signal::Key { .. } => true,
                Signal::Wheel { .. } => down,
                Signal::HidBit { .. } => false,
            };
            &&& r.takes(signal, down) is Some <==> played
            &&& !played ==> after == r
            &&& played ==> {
                &&& after.armed
                &&& after.last == Some(qpc)
                &&& after.steps.len() > r.steps.len()
                &&& after.steps.last() == match signal {
                    Signal::MouseButton { index, .. } => Step::Button { btn: index, down },
                    Signal::Key { vk, scancode, .. } => Step::Key { vk, scan: scancode, down },
                    Signal::Wheel { up: true, .. } => Step::Wheel { delta: 120 },
                    _ => Step::Wheel { delta: -120i32 },
                }
                &&& after.steps.drop_last() == match r.last {
                    Some(prev) if 1000 * (qpc - prev) >= qpf => r.steps.push(
                        Step::Delay { span: Span::Ticks { ticks: (qpc - prev) as i64, qpf } },
                    ),
                    _ => r.steps,
                }
            }
        }),
{
    let after = r.fed(signal, down, qpc, qpf);
    if r.takes(signal, down) is Some {
        assert(after.steps.drop_last() == r.steps + r.pause(qpc as int, qpf as int));
        if r.pause(qpc as int, qpf as int).len() == 0 {
            assert(r.steps + r.pause(qpc as int, qpf as int) == r.steps);
        } else {
            let d = r.pause(qpc as int, qpf as int)[0];
            assert(r.steps + r.pause(qpc as int, qpf as int) == r.steps.push(d));
        }
    }
}

/// Nothing is recorded of a release before the first press, and nothing was recorded before
/// anything was fed.
pub proof fn law_releases_before_the_first_press_are_ignored(
    r: RecorderModel,
    signal: Signal,
    qpc: i64,
    qpf: i64,
)
    requires
        !r.armed,
    ensures
        r.fed(signal, false, qpc, qpf) == r,
        RecorderModel::empty().steps.len() == 0,
        RecorderModel::empty().last is None,
        !RecorderModel::empty().armed,
{
}

/// Buttons go by their numbers, from left to the side; whatever is past the fourth is the fifth.
pub proof fn law_buttons_go_by_number(i: u8)
    ensures
        1 <= i <= 5 ==> numbered(i) == Btn::ALL@[i - 1],
        i == 0 || i > 5 ==> numbered(i) == Btn::X2,
{
    let all = seq![Btn::Left, Btn::Right, Btn::Middle, Btn::X1, Btn::X2];
    assert(Btn::ALL@ == all);
}

/// What a file lacks is made good and nothing else is touched: a store without a profile gets one
/// that is called Default and has nothing in it, clicks twenty times a second and holds for a
/// millisecond without jitter; where the profile in use is not there the last one is used.
pub proof fn law_loading_mends_only_what_is_missing(s: StoreModel)
    ensures
        ({
            let after = s.mended();
            &&& s.profiles.len() == 0 ==> {
                &&& after.active == 0
                &&& after.profiles.len() == 1
                &&& after.profiles[0].name == "Default"@
                &&& after.profiles[0].macros.len() == 0
                &&& after.profiles[0].slots.len() == 0
                &&& after.profiles[0].cps.bits == 0x4034_0000_0000_0000
                &&& after.profiles[0].hold_ms.bits == 0x3FF0_0000_0000_0000
                &&& after.profiles[0].jitter_pct.bits == 0
            }
            &&& s.profiles.len() > 0 ==> after.profiles == s.profiles
            &&& s.profiles.len() > 0 && s.active < s.profiles.len() ==> after.active == s.active
            &&& 0 < s.profiles.len() <= s.active ==> after.active == s.profiles.len() - 1
        }),
{
}

/// A profile by name only has that name, and nothing else of its own.
pub proof fn law_a_new_profile_is_empty(name: Seq<char>, p: ProfileModel)
    ensures
        ProfileModel::named(name).name == name,
        ProfileModel::named(name).macros.len() == 0,
        ProfileModel::named(name).slots.len() == 0,
        ProfileModel::named(name).cps.bits == 0x4034_0000_0000_0000,
        ProfileModel::named(name).hold_ms.bits == 0x3FF0_0000_0000_0000,
        ProfileModel::named(name).jitter_pct.bits == 0,
        StoreModel::of(p).profiles == seq![p],
        StoreModel::of(p).active == 0,
{
}

/// Nothing that a file holds is lost by loading it. A store is loaded with all its profiles, each as
/// it was, and with the same one in use; the one profile of an older file becomes the only one, as it
/// was, and is in use. Only what can be read as neither gives a fresh store.
pub proof fn law_loading_loses_nothing(s: StoreModel, p: ProfileModel, single: Option<ProfileModel>)
    ensures
        s.profiles.len() > 0 ==> StoreModel::loaded(Some(s), single).profiles == s.profiles,
        s.active < s.profiles.len() ==> StoreModel::loaded(Some(s), single) == s,
        StoreModel::loaded(None, Some(p)).profiles == seq![p],
        StoreModel::loaded(None, Some(p)).active == 0,
        StoreModel::loaded(None, None).profiles.len() == 1,
        StoreModel::loaded(None, None).profiles[0].name == "Default"@,
        StoreModel::loaded(None, None).profiles[0].macros.len() == 0,
        StoreModel::loaded(None, None).profiles[0].slots.len() == 0,
        StoreModel::loaded(None, None).active == 0,
{
}

/// A step's name holds all that the step does: a wheel's distance and a move's with their signs, a
/// button's name, a key's scancode and virtual key, each with whether it goes down or up, and a
/// delay's length.
pub proof fn law_step_names_hold_their_numbers(step: Step, millis: Seq<char>)
    ensures
        ({
            let name = step.title(millis);
            match step {
                Step::Wheel { delta } => {
                    &&& name.len() > 7
                    &&& name[6] as int == if delta < 0 {
                        45int
                    } else {
                        43
                    }
                    &&& text::read_in(name.skip(7), 10) == if delta < 0 {
                        -delta
                    } else {
                        delta as int
                    }
                },
                Step::Move { dx, dy } => {
                    let x = text::signed(dx as int);
                    &&& name.subrange(5, 5 + x.len() as int) == x
                    &&& name.skip(6 + x.len() as int) == text::signed(dy as int)
                },
                Step::Button { btn, down } => {
                    let who = numbered(btn).title();
                    &&& name.take(who.len() as int) == who
                    &&& down ==> name.len() == who.len() + 5
                    &&& !down ==> name.len() == who.len() + 3
                },
                Step::Key { vk, scan, down } => {
                    let s = text::hexed(scan as nat, 2);
                    &&& name[4] as int == if down {
                        100int
                    } else {
                        117
                    }
                    &&& name.subrange(11, 11 + s.len() as int) == s
                    &&& name.skip(14 + s.len() as int) == text::hexed(vk as nat, 2)
                },
                Step::Delay { .. } => name.subrange(6, 6 + millis.len() as int) == millis,
            }
        }),
{
    reveal_strlit("wheel ");
    reveal_strlit("move ");
    reveal_strlit(",");
    reveal_strlit(" ");
    reveal_strlit("down");
    reveal_strlit("up");
    reveal_strlit("up  ");
    reveal_strlit("key ");
    reveal_strlit(" sc");
    reveal_strlit(" vk");
    reveal_strlit("delay ");
    reveal_strlit(" ms");
    let name = step.title(millis);
    match step {
        Step::Wheel { delta } => {
            text::law_signs_and_prefixes(delta as int, 0, 0);
            let s = text::signed(delta as int);
            text::lemma_number_is_numerals(
                if delta < 0 {
                    (-delta) as nat
                } else {
                    delta as nat
                },
                10,
                1,
                false,
            );
            assert(name[6] == s[0]);
            assert(name.skip(7) == s.skip(1));
        },
        Step::Move { dx, dy } => {
            let x = text::signed(dx as int);
            assert(name.subrange(5, 5 + x.len() as int) == x);
            assert(name.skip(6 + x.len() as int) == text::signed(dy as int));
        },
        Step::Button { btn, .. } => {
            let who = numbered(btn).title();
            assert(name.take(who.len() as int) == who);
        },
        Step::Key { vk, scan, .. } => {
            let s = text::hexed(scan as nat, 2);
            assert(name.subrange(11, 11 + s.len() as int) == s);
            assert(name.skip(14 + s.len() as int) == text::hexed(vk as nat, 2));
        },
        Step::Delay { .. } => {
            assert(name.subrange(6, 6 + millis.len() as int) == millis);
        },
    }
}

/// An action is called by what it does: by its button, or by the name of its macro; and a macro that
/// is not there is said to be missing, whatever else there is.
pub proof fn law_actions_are_called_by_what_they_do(
    action: Action,
    list: Seq<MacroModel>,
    other: Seq<MacroModel>,
)
    ensures
        action matches Action::Macro { index } ==> {
            &&& index < list.len() ==> action.title(list) == "Macro: "@ + list[index as int].name
            &&& index >= list.len() && index >= other.len() ==> action.title(list)
                == action.title(other)
        },
        action matches Action::RapidFire { btn } ==> action.title(list) == "Rapid fire: "@
            + numbered(btn).title(),
        !(action is Macro) ==> action.title(list) == action.title(other),
{
}

} // verus!
