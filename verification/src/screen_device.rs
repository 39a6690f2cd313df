//! A display-only device. Word writes carry a character code and a
//! terminal command; the device decodes them into rendering actions at
//! a 2-D cell position and queues them for whoever drives the terminal.
//! Reads are rejected; byte and half-word writes funnel into word
//! writes.

use crate::error::VmError;
use crate::memory_mapper::{DevView, MemoryMappable};
use vstd::prelude::*;

verus! {

/// The terminal effect selected by a word write's command byte.
#[allow(non_camel_case_types)]
#[derive(Clone, Copy, Debug, PartialEq, Eq, Structural)]
pub enum Command {
    ERASE_SCREEN,
    SET_BOLD,
    SET_REGULAR,
    NO_OP,
}

/// The command that a command byte selects, if any.
pub open spec fn spec_command_of(code: u8) -> Option<Command> {
    if code == 0xff {
        Some(Command::ERASE_SCREEN)
    } else if code == 0x01 {
        Some(Command::SET_BOLD)
    } else if code == 0x02 {
        Some(Command::SET_REGULAR)
    } else if code == 0x00 {
        Some(Command::NO_OP)
    } else {
        None
    }
}

pub fn command_of(code: u8) -> (r: Option<Command>)
    ensures
        r == spec_command_of(code),
{
    if code == 0xff {
        Some(Command::ERASE_SCREEN)
    } else if code == 0x01 {
        Some(Command::SET_BOLD)
    } else if code == 0x02 {
        Some(Command::SET_REGULAR)
    } else if code == 0x00 {
        Some(Command::NO_OP)
    } else {
        None
    }
}

/// The command byte that selects a command.
pub fn command_code(command: Command) -> (r: u8)
    ensures
        spec_command_of(r) == Some(command),
{
    match command {
        Command::ERASE_SCREEN => 0xff,
        Command::SET_BOLD => 0x01,
        Command::SET_REGULAR => 0x02,
        Command::NO_OP => 0x00,
    }
}

/// One decoded write: a character to place at a screen cell, preceded
/// by a terminal command.
#[derive(Clone, Copy, Debug, PartialEq, Eq, Structural)]
pub struct ScreenAction {
    /// Column of the cell, starting at 1.
    pub x: u32,
    /// Row of the cell, starting at 1.
    pub y: u32,
    /// The character code (the write's low byte).
    pub character: u8,
    /// The terminal effect to apply before placing the character.
    pub command: Command,
}

/// Column of the cell a device-local address maps to, with a fixed row
/// width of 32 cells.
pub open spec fn screen_x(address: u32) -> u32 {
    ((address % 32) + 1) as u32
}

/// Row of the cell a device-local address maps to.
pub open spec fn screen_y(address: u32) -> u32 {
    ((address / 32) + 1) as u32
}

/// What a word write does to the queued actions: an unknown command
/// byte is rejected, otherwise one action is appended.
pub open spec fn screen_write(
    actions: Seq<ScreenAction>,
    address: u32,
    command_code: u8,
    character: u8,
) -> Result<Seq<ScreenAction>, VmError> {
    match spec_command_of(command_code) {
        None => Err(VmError::UnsupportedOperation),
        Some(command) => Ok(
            actions.push(
                ScreenAction {
                    x: screen_x(address),
                    y: screen_y(address),
                    character,
                    command,
                },
            ),
        ),
    }
}

/// The display device: it holds the actions decoded from writes, in
/// the order they arrived, until they are taken for rendering.
pub struct ScreenDevice {
    actions: Vec<ScreenAction>,
}

impl View for ScreenDevice {
    type V = Seq<ScreenAction>;

    closed spec fn view(&self) -> Seq<ScreenAction> {
        self.actions@
    }
}

impl ScreenDevice {
    pub fn new() -> (r: Self)
        ensures
            r@ == Seq::<ScreenAction>::empty(),
    {
        let r = ScreenDevice { actions: Vec::new() };
        proof {
            assert(r@ =~= Seq::<ScreenAction>::empty());
        }
        r
    }

    /// Hand out the queued actions, oldest first, leaving the queue
    /// empty.
    pub fn take_actions(&mut self) -> (r: Vec<ScreenAction>)
        ensures
            r@ == old(self)@,
            final(self)@ == Seq::<ScreenAction>::empty(),
    {
        let mut taken: Vec<ScreenAction> = Vec::new();
        core::mem::swap(&mut taken, &mut self.actions);
        proof {
            assert(self@ =~= Seq::<ScreenAction>::empty());
        }
        taken
    }
}

impl MemoryMappable for ScreenDevice {
    open spec fn dev(&self) -> DevView {
        DevView::Screen { actions: self@ }
    }

    fn get_byte(&self, address: u32) -> (r: Result<[u8; 1], VmError>) {
        Err(VmError::UnsupportedOperation)
    }

    fn get_half_word(&self, address: u32) -> (r: Result<[u8; 2], VmError>) {
        Err(VmError::UnsupportedOperation)
    }

    fn get_word(&self, address: u32) -> (r: Result<[u8; 4], VmError>) {
        Err(VmError::UnsupportedOperation)
    }

    fn write_byte(&mut self, address: u32, value: [u8; 1]) -> (r: Result<(), VmError>) {
        self.write_half_word(address, [0u8, value[0]])
    }

    fn write_half_word(&mut self, address: u32, value: [u8; 2]) -> (r: Result<(), VmError>) {
        self.write_word(address, [0u8, 0u8, value[0], value[1]])
    }

    fn write_word(&mut self, address: u32, value: [u8; 4]) -> (r: Result<(), VmError>) {
        let command = match command_of(value[2]) {
            None => {
                return Err(VmError::UnsupportedOperation);
            },
            Some(command) => command,
        };
        let x = address % 32 + 1;
        let y = address / 32 + 1;
        self.actions.push(ScreenAction { x, y, character: value[3], command });
        Ok(())
    }
}

} // verus!
