//! Boot menu: the launcher's decisions and its screens.
//!
//! Five entries: play doom, system info, graphics test, reboot,
//! shutdown. Arrows or digits select, Enter or Space launches.

use vstd::prelude::*;
use crate::keyboard::{KeyCode, KeyEvent};

verus! {

/// Number of menu entries.
pub const ENTRY_COUNT: usize = 5;

/// What the launcher does with a key event after updating the
/// selection.
#[derive(Clone, Copy, PartialEq, Eq, Debug, Structural)]
pub enum MenuCommand {
    /// Nothing to do.
    Nothing,
    /// The selection moved: redraw.
    Select,
    /// The selection jumped to an entry: redraw, launch it, redraw.
    SelectAndLaunch,
    /// Launch the selected entry, then redraw.
    Launch,
}

/// What launching an entry does.
#[derive(Clone, Copy, PartialEq, Eq, Debug, Structural)]
pub enum Activation {
    /// The entry is parked: doom without a WAD.
    Nothing,
    /// Hand the machine to doom.
    Doom,
    SystemInfo,
    GraphicsTest,
    Reboot,
    Shutdown,
}

/// The launcher's response to a key event with entry `sel` selected:
/// only presses count; the arrows move the selection round the list,
/// digits 1 to 5 jump to an entry and launch it, Enter and Space launch
/// the selected one.
pub open spec fn menu_step(sel: int, ev: KeyEvent) -> (int, MenuCommand) {
    if !ev.pressed {
        (sel, MenuCommand::Nothing)
    } else {
        match ev.code {
            KeyCode::Up => ((sel + ENTRY_COUNT - 1) % (ENTRY_COUNT as int), MenuCommand::Select),
            KeyCode::Down => ((sel + 1) % (ENTRY_COUNT as int), MenuCommand::Select),
            KeyCode::Char(c) => if 0x31 <= c <= 0x35 {
                (c - 0x31, MenuCommand::SelectAndLaunch)
            } else {
                (sel, MenuCommand::Nothing)
            },
            KeyCode::Enter => (sel, MenuCommand::Launch),
            KeyCode::Space => (sel, MenuCommand::Launch),
            _ => (sel, MenuCommand::Nothing),
        }
    }
}

/// Update the selection for a key event and say what to do next.
pub fn step(sel: usize, ev: KeyEvent) -> (r: (usize, MenuCommand))
    requires
        sel < ENTRY_COUNT,
    ensures
        r.0 < ENTRY_COUNT,
        (r.0 as int, r.1) == menu_step(sel as int, ev),
{
    if !ev.pressed {
        return (sel, MenuCommand::Nothing);
    }
    match ev.code {
        KeyCode::Up => ((sel + ENTRY_COUNT - 1) % ENTRY_COUNT, MenuCommand::Select),
        KeyCode::Down => ((sel + 1) % ENTRY_COUNT, MenuCommand::Select),
        KeyCode::Char(c) => {
            if 0x31 <= c && c <= 0x35 {
                ((c - 0x31) as usize, MenuCommand::SelectAndLaunch)
            } else {
                (sel, MenuCommand::Nothing)
            }
        },
        KeyCode::Enter | KeyCode::Space => (sel, MenuCommand::Launch),
        _ => (sel, MenuCommand::Nothing),
    }
}

/// Whether a key event leaves a subscreen: Escape going down.
pub fn leaves_subscreen(ev: KeyEvent) -> (r: bool)
    ensures
        r <==> ev.pressed && ev.code == KeyCode::Escape,
{
    ev.pressed && matches!(ev.code, KeyCode::Escape)
}

/// What launching entry `sel` does; the doom entry is parked without a
/// WAD.
pub open spec fn entry_activation(sel: int, wad_loaded: bool) -> Activation {
    if sel == 0 {
        if wad_loaded {
            Activation::Doom
        } else {
            Activation::Nothing
        }
    } else if sel == 1 {
        Activation::SystemInfo
    } else if sel == 2 {
        Activation::GraphicsTest
    } else if sel == 3 {
        Activation::Reboot
    } else {
        Activation::Shutdown
    }
}

/// Fire the selected entry.
pub fn activation(sel: usize, wad_loaded: bool) -> (a: Activation)
    requires
        sel < ENTRY_COUNT,
    ensures
        a == entry_activation(sel as int, wad_loaded),
{
    match sel {
        0 => if wad_loaded {
            Activation::Doom
        } else {
            Activation::Nothing
        },
        1 => Activation::SystemInfo,
        2 => Activation::GraphicsTest,
        3 => Activation::Reboot,
        _ => Activation::Shutdown,
    }
}

} // verus!

verus! {

/// Up then Down, or Down then Up, comes back to the same entry.
pub proof fn lemma_up_down_inverse(sel: int)
    requires
        0 <= sel < ENTRY_COUNT,
    ensures
        menu_step(menu_step(sel, KeyEvent { code: KeyCode::Up, pressed: true }).0, KeyEvent { code: KeyCode::Down, pressed: true }).0 == sel,
        menu_step(menu_step(sel, KeyEvent { code: KeyCode::Down, pressed: true }).0, KeyEvent { code: KeyCode::Up, pressed: true }).0 == sel,
{
}

/// Releasing a key never changes the selection nor launches anything.
pub proof fn lemma_release_ignored(sel: int, code: KeyCode)
    ensures
        menu_step(sel, KeyEvent { code, pressed: false }) == (sel, MenuCommand::Nothing),
{
}

} // verus!

verus! {

/// The digits 1 to 5 jump straight to their entry and launch it, from
/// any selection.
pub proof fn lemma_digit_jumps(sel: int, k: int)
    requires
        0 <= k < ENTRY_COUNT,
    ensures
        menu_step(sel, KeyEvent { code: KeyCode::Char((0x31 + k) as u8), pressed: true }) == (
            k,
            MenuCommand::SelectAndLaunch,
        ),
{
}

/// The arrows step through the list: Down selects the next entry and
/// wraps from the last to the first, Up the previous one and wraps from
/// the first to the last; Enter and Space launch the selection as it is.
pub proof fn lemma_arrows_step(sel: int)
    requires
        0 <= sel < ENTRY_COUNT,
    ensures
        menu_step(sel, KeyEvent { code: KeyCode::Down, pressed: true }).0 == if sel == 4 {
            0
        } else {
            sel + 1
        },
        menu_step(sel, KeyEvent { code: KeyCode::Up, pressed: true }).0 == if sel == 0 {
            4
        } else {
            sel - 1
        },
        menu_step(sel, KeyEvent { code: KeyCode::Enter, pressed: true }) == (sel, MenuCommand::Launch),
        menu_step(sel, KeyEvent { code: KeyCode::Space, pressed: true }) == (sel, MenuCommand::Launch),
{
}

} // verus!
