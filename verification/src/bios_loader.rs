use crate::machine::{with_word_at, Machine, MachineView, MEMORY_BYTES};
use vstd::prelude::*;

verus! {

/// Physical address of the BIOS Data Area (start of segment 0x40).
pub const BIOS_START: u32 = 0x400;

/// Equipment word.
pub const BIOS_EQUIPMENT: u32 = 0x410;

/// Conventional memory size in KiB.
pub const BIOS_MEMORY_SIZE_KB: u32 = 0x413;

/// Current video mode index (byte).
pub const BIOS_VIDEO_MODE_INDEX: u32 = 0x449;

/// Text columns of the current video mode.
pub const BIOS_TEXT_COLUMN_COUNT: u32 = 0x44a;

/// Bytes per text page.
pub const BIOS_TEXT_PAGE_BYTES: u32 = 0x44c;

/// Cursor positions, one word per page: high byte row, low byte column.
pub const BIOS_CURSOR_POSITIONS: u32 = 0x450;

/// Active video page (byte).
pub const BIOS_ACTIVE_VIDEO_PAGE: u32 = 0x462;

/// Video I/O port base.
pub const BIOS_VIDEO_IO_PORT_ADDRESS: u32 = 0x463;

/// Low word of the 18.2 Hz timer counter.
pub const BIOS_SYSTEM_TIMER_COUNTER_LOW: u32 = 0x46c;

/// High word of the 18.2 Hz timer counter.
pub const BIOS_SYSTEM_TIMER_COUNTER_HIGH: u32 = 0x46e;

/// Text rows of the current video mode.
pub const BIOS_TEXT_ROW_COUNT: u32 = 0x484;

/// Character cell height in pixels.
pub const BIOS_CHAR_HEIGHT: u32 = 0x485;

/// Address of the cursor word of video page `page`.
pub open spec fn spec_cursor_position_addr(page: u8) -> u32 {
    (BIOS_CURSOR_POSITIONS + 2 * page) as u32
}

/// Address of the cursor word of video page `page` (pages 0 through 7).
pub fn cursor_position_addr(page: u8) -> (r: u32)
    requires
        page < 8,
    ensures
        r == spec_cursor_position_addr(page),
{
    BIOS_CURSOR_POSITIONS + 2 * page as u32
}

/// The BIOS data area after its fixed initialization: equipment word
/// 0x0061, 640 KiB of memory, 80 text columns, and the video I/O port
/// base.
pub open spec fn spec_initialised_bios_data_area(m: MachineView) -> MachineView {
    MachineView {
        mem: with_word_at(
            with_word_at(
                with_word_at(
                    with_word_at(m.mem, BIOS_EQUIPMENT as int, 0x0061),
                    BIOS_MEMORY_SIZE_KB as int,
                    640,
                ),
                BIOS_TEXT_COLUMN_COUNT as int,
                80,
            ),
            BIOS_VIDEO_IO_PORT_ADDRESS as int,
            0x3d4,
        ),
        ..m
    }
}

/// Writes the fixed BIOS data area cells a freshly loaded machine starts
/// with.
pub fn initialise_bios_data_area(machine: &mut Machine)
    requires
        old(machine).inv(),
    ensures
        final(machine).inv(),
        final(machine)@ == spec_initialised_bios_data_area(old(machine)@),
{
    machine.poke_u16(BIOS_EQUIPMENT, 0x0061);
    machine.poke_u16(BIOS_MEMORY_SIZE_KB, 640);
    machine.poke_u16(BIOS_TEXT_COLUMN_COUNT, 80);
    machine.poke_u16(BIOS_VIDEO_IO_PORT_ADDRESS, 0x3d4);
}

} // verus!
