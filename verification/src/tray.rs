//! What the tray icon asks for, and the texts that it hands to the system.
use vstd::prelude::*;
use crate::text;
use crate::device;

verus! {

/// What the tray can ask for.
#[derive(Clone, Copy, PartialEq, Eq, Structural, Debug)]
pub enum Ask {
    Nothing,
    /// Show the window.
    Show,
    /// Open the icon's menu.
    Menu,
    /// Stop everything.
    Stop,
    /// End the program.
    Quit,
}

/// The menu's entry that shows the window.
pub const ID_SHOW: usize = 1;

/// The menu's entry that stops everything.
pub const ID_STOP: usize = 2;

/// The menu's entry that ends the program.
pub const ID_QUIT: usize = 3;

/// What an event over the icon asks for, by its low word.
pub open spec fn icon_asks(param: int) -> Ask {
    if param % 0x1_0000 == 0x0202 {
        Ask::Show
    } else if param % 0x1_0000 == 0x0205 || param % 0x1_0000 == 0x0206 {
        Ask::Menu
    } else {
        Ask::Nothing
    }
}

/// What an entry of the menu asks for, by its low word.
pub open spec fn menu_asks(param: int) -> Ask {
    let id = param % 0x1_0000;
    if id == ID_SHOW {
        Ask::Show
    } else if id == ID_STOP {
        Ask::Stop
    } else if id == ID_QUIT {
        Ask::Quit
    } else {
        Ask::Nothing
    }
}

/// What a mouse event over the icon asks for. The event is in the low word: the left button going
/// up shows the window, the right one going up or clicking twice opens the menu.
pub fn icon_event(param: u32) -> (r: Ask)
    ensures
        r == (match param % 0x1_0000 {
            0x0202 => Ask::Show,
            0x0205 | 0x0206 => Ask::Menu,
            _ => Ask::Nothing,
        }),
        r == icon_asks(param as int),
{
    match param % 0x1_0000 {
        0x0202 => Ask::Show,
        0x0205 | 0x0206 => Ask::Menu,
        _ => Ask::Nothing,
    }
}

/// What an entry of the menu asks for. Its number is in the low word.
pub fn menu_command(param: usize) -> (r: Ask)
    ensures
        param % 0x1_0000 == ID_SHOW ==> r == Ask::Show,
        param % 0x1_0000 == ID_STOP ==> r == Ask::Stop,
        param % 0x1_0000 == ID_QUIT ==> r == Ask::Quit,
        !(ID_SHOW <= param % 0x1_0000 <= ID_QUIT) ==> r == Ask::Nothing,
        r == menu_asks(param as int),
{
    let id: usize = param % 0x1_0000;
    if id == ID_SHOW {
        Ask::Show
    } else if id == ID_STOP {
        Ask::Stop
    } else if id == ID_QUIT {
        Ask::Quit
    } else {
        Ask::Nothing
    }
}

/// A text as the system takes it: in UTF-16, with a zero at the end.
pub fn wide(s: &str) -> (r: Vec<u16>)
    ensures
        r@ == text::utf16(s@).push(0),
{
    let mut units = text::encode_utf16(s);
    units.push(0);
    units
}

/// The units of a tooltip: those of the text and a zero, as far as there is room.
pub open spec fn tip_units(s: Seq<char>) -> Seq<u16> {
    let units = text::utf16(s).push(0);
    if units.len() < 127 {
        units
    } else {
        units.take(127)
    }
}

/// The icon's tooltip: as much of the text as there is room for.
pub fn tip(s: &str) -> (r: Vec<u16>)
    ensures
        ({
            let units = text::utf16(s@).push(0);
            r@ == units.take(if units.len() < 127 { units.len() as int } else { 127 })
        }),
        r@ == tip_units(s@),
{
    let mut units = wide(s);
    if units.len() > 127 {
        units.truncate(127);
    }
    units
}

/// A text handed to the system is read back as it was, as long as no zero stands in it.
pub proof fn law_wide_text_reads_back(s: Seq<char>)
    requires
        forall|i: int| 0 <= i < s.len() ==> s[i] != '\0',
    ensures
        text::utf16_decoded(device::before_zero(text::utf16(s).push(0))) == s,
{
    let units = text::utf16(s);
    text::lemma_no_zero_units(s);
    device::lemma_before_zero(units.push(0), units.len() as int);
    assert(units.push(0).take(units.len() as int) == units);
    text::law_utf16_round_trip(s, Seq::empty());
}

/// Only the low word of what comes from the icon counts: the left button going up shows the window,
/// the right one going up or clicking twice opens the menu, and no other event asks for anything. Of
/// the menu's entries the first shows, the second stops and the third quits.
pub proof fn law_the_low_word_counts(high: int, event: int)
    requires
        0 <= event < 65536,
    ensures
        icon_asks(high * 65536 + event) == if event == 514 {
            Ask::Show
        } else if event == 517 || event == 518 {
            Ask::Menu
        } else {
            Ask::Nothing
        },
        menu_asks(high * 65536 + event) == if event == 1 {
            Ask::Show
        } else if event == 2 {
            Ask::Stop
        } else if event == 3 {
            Ask::Quit
        } else {
            Ask::Nothing
        },
{
    assert((high * 65536 + event) % 65536 == event);
}

/// A tooltip has room for 127 units and is cut there; a shorter one is the whole text with a zero
/// behind it.
pub proof fn law_tooltips_are_cut_to_fit(s: Seq<char>, i: int)
    ensures
        tip_units(s).len() <= 127,
        0 <= i < tip_units(s).len() && i < text::utf16(s).len() ==> tip_units(s)[i] == text::utf16(
            s,
        )[i],
        text::utf16(s).len() < 127 ==> tip_units(s).len() == text::utf16(s).len() + 1
            && tip_units(s).last() == 0,
        text::utf16(s).len() >= 127 ==> tip_units(s).len() == 127,
{
}

} // verus!
