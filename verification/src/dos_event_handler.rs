use crate::bios_loader::{
    BIOS_ACTIVE_VIDEO_PAGE, BIOS_CHAR_HEIGHT, BIOS_SYSTEM_TIMER_COUNTER_HIGH,
    BIOS_SYSTEM_TIMER_COUNTER_LOW, BIOS_TEXT_COLUMN_COUNT, BIOS_TEXT_PAGE_BYTES,
    BIOS_TEXT_ROW_COUNT, BIOS_VIDEO_IO_PORT_ADDRESS, BIOS_VIDEO_MODE_INDEX,
};
use crate::dos_file_system::StandardDosFileSystem;
use crate::machine::{
    hi_byte, lo_byte, with_byte_half, with_reg16, with_word_at, word_at, Flag, Machine,
    MachineView, Reg, RegHalf, MEMORY_BYTES,
};
use std::collections::VecDeque;
use vstd::prelude::*;
use vstd::string::StringExecFns;

verus! {

/// What the CPU driver must do after an interrupt was serviced: resume,
/// resume and yield to the host event pump, or hold the INT instruction
/// until a key arrives.
#[derive(Debug, Clone, Copy, PartialEq, Eq, Structural)]
pub enum DosInterruptResult {
    ShouldReturn,
    ShouldReturnAndWaitForEvents,
    ShouldBlockForKeypress,
}

/// The emulated display adapter family.
#[derive(Debug, Clone, Copy, PartialEq, Eq, Structural)]
pub enum MachineType {
    EGA,
}

/// Rendering class of a video mode.
#[derive(Debug, Clone, Copy, PartialEq, Eq, Structural)]
pub enum VGAMode {
    Text,
}

/// One video mode: its text grid, pixel geometry and text-memory layout.
#[derive(Debug, Clone, Copy, PartialEq)]
pub struct VideoMode {
    pub mode_index: u8,
    pub vga_mode: VGAMode,
    pub pixel_dims: (u32, u32),
    pub text_dims: (u32, u32),
    pub char_pixel_dims: (u32, u32),
    pub text_address: u32,
    pub text_page_count: u32,
    pub text_page_bytes: u32,
}

/// EGA text mode 3: 80x25 characters of 8x14 pixels, text memory at
/// 0xB8000 in eight pages of 0x1000 bytes.
pub open spec fn spec_ega_mode3() -> VideoMode {
    VideoMode {
        mode_index: 3,
        vga_mode: VGAMode::Text,
        pixel_dims: (640, 480),
        text_dims: (80, 25),
        char_pixel_dims: (8, 14),
        text_address: 0xb8000,
        text_page_count: 8,
        text_page_bytes: 0x1000,
    }
}

impl MachineType {
    /// The descriptor of video mode `mode_index`; only EGA text mode 3 is
    /// known.
    pub fn lookup_video_mode(&self, mode_index: u8) -> (r: Result<VideoMode, String>)
        ensures
            mode_index == 3 <==> r is Ok,
            r matches Ok(v) ==> v == spec_ega_mode3(),
    {
        if mode_index == 3 {
            Ok(
                VideoMode {
                    mode_index: 3,
                    vga_mode: VGAMode::Text,
                    pixel_dims: (640, 480),
                    text_dims: (80, 25),
                    char_pixel_dims: (8, 14),
                    text_address: 0xb8000,
                    text_page_count: 8,
                    text_page_bytes: 0x1000,
                },
            )
        } else {
            Err(String::from_str("no video mode descriptor for that index"))
        }
    }
}

/// Latched values of the I/O ports the guest polls.
#[derive(Debug, Clone, Copy, PartialEq, Eq, Structural)]
pub struct PortStates {
    pub port_61: u16,
    pub crt_index_register: u16,
    pub cga_status_register: u16,
    pub cga_palette_register: u16,
}

impl PortStates {
    /// All port latches start at zero.
    pub fn new() -> (r: PortStates)
        ensures
            r == (PortStates {
                port_61: 0,
                crt_index_register: 0,
                cga_status_register: 0,
                cga_palette_register: 0,
            }),
    {
        PortStates { port_61: 0, crt_index_register: 0, cga_status_register: 0, cga_palette_register: 0 }
    }
}

/// One keypress as INT 16h reports it: scan code in AH, ASCII in AL.
#[derive(Debug, Clone, Copy, PartialEq, Eq, Structural)]
pub struct KeyPressInfo {
    pub scan_code: u8,
    pub ascii_char: u8,
}

/// The DOS/BIOS service layer: video mode and port state, the file system
/// over the host directory, the key queue fed by the host, the wall clock
/// in hundredths of a second, and the verdict of the last interrupt.
#[derive(Debug)]
pub struct DosEventHandler {
    pub machine_type: MachineType,
    pub video_mode: VideoMode,
    pub port_states: PortStates,
    pub file_system: StandardDosFileSystem,
    pub centiseconds_since_start: u64,
    pub result: DosInterruptResult,
    pub key_press_queue: VecDeque<KeyPressInfo>,
}

/// The two handler states agree on everything but the port latches, the
/// file system, the key queue and the verdict.
pub open spec fn handler_statics_unchanged(a: &DosEventHandler, b: &DosEventHandler) -> bool {
    &&& a.machine_type == b.machine_type
    &&& a.video_mode == b.video_mode
    &&& a.centiseconds_since_start == b.centiseconds_since_start
}

/// The CGA status register after the retrace command: `true` sets the
/// vertical-retrace bit; `false` clears it and toggles the horizontal
/// retrace bit, which is how polling guests observe the beam cycling.
pub open spec fn spec_cga_status_after_retrace(status: u16, vertical_retrace: bool) -> u16 {
    if vertical_retrace {
        status | 0x8
    } else {
        (status & !0x8) ^ 0x1
    }
}

/// The BIOS data area cells `init_machine` writes from a video mode
/// descriptor.
pub open spec fn spec_init_machine(m: MachineView, vm: VideoMode) -> MachineView {
    MachineView {
        mem: with_word_at(
            with_word_at(
                with_word_at(
                    with_word_at(
                        with_word_at(
                            m.mem,
                            BIOS_TEXT_COLUMN_COUNT as int,
                            (vm.text_dims.0 % 0x10000) as u16,
                        ),
                        BIOS_TEXT_PAGE_BYTES as int,
                        (vm.text_page_bytes % 0x10000) as u16,
                    ),
                    BIOS_VIDEO_IO_PORT_ADDRESS as int,
                    0x3d4,
                ),
                BIOS_TEXT_ROW_COUNT as int,
                (vm.text_dims.1 % 0x10000) as u16,
            ),
            BIOS_CHAR_HEIGHT as int,
            (vm.char_pixel_dims.1 % 0x10000) as u16,
        ).update(BIOS_VIDEO_MODE_INDEX as int, vm.mode_index),
        ..m
    }
}

impl DosEventHandler {
    /// Seeds the BIOS data area from the current video mode.
    pub fn init_machine(&mut self, machine: &mut Machine)
        requires
            old(machine).inv(),
        ensures
            final(machine).inv(),
            final(machine)@ == spec_init_machine(old(machine)@, old(self).video_mode),
            *final(self) == *old(self),
    {
        machine.poke_u8(BIOS_VIDEO_MODE_INDEX, self.video_mode.mode_index);
        machine.poke_u16(BIOS_TEXT_COLUMN_COUNT, (self.video_mode.text_dims.0 % 0x10000) as u16);
        machine.poke_u16(BIOS_TEXT_PAGE_BYTES, (self.video_mode.text_page_bytes % 0x10000) as u16);
        machine.poke_u16(BIOS_VIDEO_IO_PORT_ADDRESS, 0x3d4);
        machine.poke_u16(BIOS_TEXT_ROW_COUNT, (self.video_mode.text_dims.1 % 0x10000) as u16);
        machine.poke_u16(BIOS_CHAR_HEIGHT, (self.video_mode.char_pixel_dims.1 % 0x10000) as u16);
        proof {
            assert(machine@.mem =~= spec_init_machine(old(machine)@, old(self).video_mode).mem);
        }
    }

    /// Latches the CGA vertical-retrace state the host frontend reports
    /// between step batches.
    pub fn set_cga_vertial_retrace(&mut self, vertical_retrace: bool)
        ensures
            final(self).port_states == (PortStates {
                cga_status_register: spec_cga_status_after_retrace(
                    old(self).port_states.cga_status_register,
                    vertical_retrace,
                ),
                ..old(self).port_states
            }),
            handler_statics_unchanged(final(self), old(self)),
            final(self).result == old(self).result,
            final(self).file_system@ == old(self).file_system@,
            final(self).key_press_queue@ == old(self).key_press_queue@,
    {
        if vertical_retrace {
            self.port_states.cga_status_register = self.port_states.cga_status_register | 0x8;
        } else {
            self.port_states.cga_status_register = self.port_states.cga_status_register & !0x8;
            self.port_states.cga_status_register = self.port_states.cga_status_register ^ 0x1;
        }
    }

    /// Whether a port is one the input dispatcher serves.
    pub open spec fn input_port_supported(port_index: u16) -> bool {
        port_index == 0x61 || port_index == 0x201 || port_index == 0x3da
    }

    /// Whether a port is one the output dispatcher serves.
    pub open spec fn output_port_supported(port_index: u16) -> bool {
        port_index == 0x61 || port_index == 0x201 || port_index == 0x3d4 || port_index == 0x3d5
            || port_index == 0x3d9
    }

    /// Serves a port read: the keyboard-controller latch, the unpopulated
    /// joystick, or the CGA status register, whose retrace bits cycle on
    /// every read.
    pub fn handle_port_input(&mut self, machine: &mut Machine, port_index: u16) -> (value: u16)
        requires
            Self::input_port_supported(port_index),
        ensures
            *final(machine) == *old(machine),
            handler_statics_unchanged(final(self), old(self)),
            final(self).result == old(self).result,
            final(self).file_system@ == old(self).file_system@,
            final(self).key_press_queue@ == old(self).key_press_queue@,
            port_index == 0x61 ==> value == old(self).port_states.port_61 && final(self).port_states
                == old(self).port_states,
            port_index == 0x201 ==> value == 0xf0 && final(self).port_states == old(self).port_states,
            port_index == 0x3da ==> value == old(self).port_states.cga_status_register
                && final(self).port_states == (PortStates {
                cga_status_register: spec_cga_status_after_retrace(
                    old(self).port_states.cga_status_register,
                    false,
                ),
                ..old(self).port_states
            }),
    {
        if port_index == 0x61 {
            self.port_states.port_61
        } else if port_index == 0x201 {
            0xf0
        } else {
            let status = self.port_states.cga_status_register;
            self.set_cga_vertial_retrace(false);
            status
        }
    }

    /// Serves a port write: stores the keyboard-controller, CRT index and
    /// CGA palette latches; joystick strobes and CRT data writes are
    /// absorbed.
    pub fn handle_port_output(&mut self, machine: &mut Machine, port_index: u16, value: u16)
        requires
            Self::output_port_supported(port_index),
        ensures
            *final(machine) == *old(machine),
            handler_statics_unchanged(final(self), old(self)),
            final(self).result == old(self).result,
            final(self).file_system@ == old(self).file_system@,
            final(self).key_press_queue@ == old(self).key_press_queue@,
            final(self).port_states == (match port_index {
                0x61 => PortStates { port_61: value, ..old(self).port_states },
                0x3d4 => PortStates { crt_index_register: value, ..old(self).port_states },
                0x3d9 => PortStates { cga_palette_register: value, ..old(self).port_states },
                _ => old(self).port_states,
            }),
    {
        if port_index == 0x61 {
            self.port_states.port_61 = value;
        } else if port_index == 0x3d4 {
            self.port_states.crt_index_register = value;
        } else if port_index == 0x3d9 {
            self.port_states.cga_palette_register = value;
        }
    }
}

// ---------------------------------------------------------------------------
// Register and BDA shorthands for contracts
// ---------------------------------------------------------------------------

pub open spec fn reg_ah(m: MachineView) -> u8 {
    hi_byte(m.ax)
}

pub open spec fn reg_al(m: MachineView) -> u8 {
    lo_byte(m.ax)
}

pub open spec fn reg_bh(m: MachineView) -> u8 {
    hi_byte(m.bx)
}

pub open spec fn reg_bl(m: MachineView) -> u8 {
    lo_byte(m.bx)
}

pub open spec fn reg_ch(m: MachineView) -> u8 {
    hi_byte(m.cx)
}

pub open spec fn reg_cl(m: MachineView) -> u8 {
    lo_byte(m.cx)
}

pub open spec fn reg_dh(m: MachineView) -> u8 {
    hi_byte(m.dx)
}

pub open spec fn reg_dl(m: MachineView) -> u8 {
    lo_byte(m.dx)
}

/// The active video page byte of the BIOS data area.
pub open spec fn bda_active_page(m: MachineView) -> u8 {
    m.mem[BIOS_ACTIVE_VIDEO_PAGE as int]
}

/// The text-column word of the BIOS data area.
pub open spec fn bda_columns(m: MachineView) -> u16 {
    word_at(m.mem, BIOS_TEXT_COLUMN_COUNT as int)
}

/// The bytes-per-page word of the BIOS data area.
pub open spec fn bda_page_bytes(m: MachineView) -> u16 {
    word_at(m.mem, BIOS_TEXT_PAGE_BYTES as int)
}

// ---------------------------------------------------------------------------
// Text rectangles
// ---------------------------------------------------------------------------

/// Address of the character byte of text cell `(x, y)` on the page at
/// `page_addr` with `cols` columns per row; the attribute byte follows it.
pub open spec fn cell_addr(page_addr: int, cols: int, x: int, y: int) -> int {
    page_addr + 2 * (y * cols + x)
}

/// Whether `(x, y)` lies in the inclusive rectangle.
pub open spec fn in_rect(l: int, r: int, t: int, b: int, x: int, y: int) -> bool {
    l <= x <= r && t <= y <= b
}

/// Whether address `a` belongs to some cell (character or attribute byte)
/// of the rectangle.
pub open spec fn rect_addr(pa: int, cols: int, l: int, r: int, t: int, b: int, a: int) -> bool {
    exists|x: int, y: int|
        in_rect(l, r, t, b, x, y) && (a == cell_addr(pa, cols, x, y) || a == cell_addr(
            pa,
            cols,
            x,
            y,
        ) + 1)
}

/// With a row stride wider than the rectangle, distinct cells of the
/// rectangle rows lie at distinct addresses.
proof fn lemma_cell_injective(
    pa: int,
    cols: int,
    l: int,
    r: int,
    t: int,
    b: int,
    x1: int,
    y1: int,
    x2: int,
    y2: int,
)
    requires
        cols > r - l,
        in_rect(l, r, t, b, x1, y1),
        in_rect(l, r, t, b, x2, y2),
        cell_addr(pa, cols, x1, y1) == cell_addr(pa, cols, x2, y2),
    ensures
        x1 == x2 && y1 == y2,
{
    assert((y1 - y2) * cols == x2 - x1) by (nonlinear_arith)
        requires
            pa + 2 * (y1 * cols + x1) == pa + 2 * (y2 * cols + x2),
    ;
    if y1 != y2 {
        assert((y1 - y2) * cols >= cols || (y1 - y2) * cols <= -cols) by (nonlinear_arith)
            requires
                y1 != y2,
                cols >= 0,
        ;
    }
}

/// Fills every cell of the rectangle with character 0 and attribute
/// `attr`, leaving all other memory untouched.
#[verifier::loop_isolation(false)]
fn clear_rect(
    machine: &mut Machine,
    page_addr: u32,
    cols: u16,
    left: u8,
    right: u8,
    top: u8,
    bottom: u8,
    attr: u8,
)
    requires
        old(machine).inv(),
        page_addr + 2 * (bottom * cols + right) + 1 < MEMORY_BYTES,
    ensures
        final(machine).inv(),
        crate::machine::same_except_mem(final(machine)@, old(machine)@),
        forall|x: int, y: int|
            in_rect(left as int, right as int, top as int, bottom as int, x, y) ==> final(machine)@.mem[cell_addr(page_addr as int, cols as int, x, y)] == 0 && final(machine)@.mem[cell_addr(page_addr as int, cols as int, x, y) + 1] == attr,
        forall|a: int|
            0 <= a < MEMORY_BYTES && !rect_addr(
                page_addr as int,
                cols as int,
                left as int,
                right as int,
                top as int,
                bottom as int,
                a,
            ) ==> final(machine)@.mem[a] == old(machine)@.mem[a],
{
    let ghost pa = page_addr as int;
    let ghost colsi = cols as int;
    let ghost l = left as int;
    let ghost r = right as int;
    let ghost t = top as int;
    let ghost b = bottom as int;
    let mut y: u16 = top as u16;
    while y <= bottom as u16
        invariant
            machine.inv(),
            crate::machine::same_except_mem(machine@, old(machine)@),
            top as u16 <= y,
            y <= bottom as u16 + 1 || y == top as u16,
            page_addr + 2 * (bottom * cols + right) + 1 < MEMORY_BYTES,
            forall|x: int, yd: int|
                in_rect(l, r, t, y - 1, x, yd) ==> machine@.mem[cell_addr(pa, colsi, x, yd)] == 0
                    && machine@.mem[cell_addr(pa, colsi, x, yd) + 1] == attr,
            forall|a: int|
                0 <= a < MEMORY_BYTES && !rect_addr(pa, colsi, l, r, t, y - 1, a)
                    ==> machine@.mem[a] == old(machine)@.mem[a],
        decreases bottom + 1 - y,
    {
        let mut x: u16 = left as u16;
        while x <= right as u16
            invariant
                machine.inv(),
                crate::machine::same_except_mem(machine@, old(machine)@),
                top as u16 <= y,
                y <= bottom as u16,
                left as u16 <= x,
                x <= right as u16 + 1 || x == left as u16,
                page_addr + 2 * (bottom * cols + right) + 1 < MEMORY_BYTES,
                forall|xd: int, yd: int|
                    in_rect(l, r, t, y - 1, xd, yd) ==> machine@.mem[cell_addr(pa, colsi, xd, yd)]
                        == 0 && machine@.mem[cell_addr(pa, colsi, xd, yd) + 1] == attr,
                forall|xd: int|
                    l <= xd < x ==> machine@.mem[cell_addr(pa, colsi, xd, y as int)] == 0
                        && machine@.mem[cell_addr(pa, colsi, xd, y as int) + 1] == attr,
                forall|a: int|
                    0 <= a < MEMORY_BYTES && !rect_addr(pa, colsi, l, r, t, y - 1, a) && !(exists|
                        xd: int,
                    |
                        l <= xd < x && (a == cell_addr(pa, colsi, xd, y as int) || a == cell_addr(
                            pa,
                            colsi,
                            xd,
                            y as int,
                        ) + 1)) ==> machine@.mem[a] == old(machine)@.mem[a],
            decreases right + 1 - x,
        {
            proof {
                assert(y * cols <= bottom * cols) by (nonlinear_arith)
                    requires
                        y <= bottom,
                        cols >= 0,
                ;
            }
            let prod: u32 = y as u32 * cols as u32;
            proof {
                assert(prod == y * cols);
                assert(prod + x <= bottom * cols + right);
            }
            let char_addr: u32 = page_addr + (prod + x as u32) * 2;
            proof {
                assert(char_addr == cell_addr(pa, colsi, x as int, y as int));
            }
            let ghost mem0 = machine@.mem;
            machine.poke_u8(char_addr, 0);
            machine.poke_u8(char_addr + 1, attr);
            proof {
                assert(machine@.mem == mem0.update(char_addr as int, 0u8).update(
                    char_addr as int + 1,
                    attr,
                ));
                // character and attribute bytes never alias across cells:
                // both kinds of address differ from pa by an even and an odd
                // amount respectively
                assert forall|xd: int, yd: int|
                    in_rect(l, r, t, y - 1, xd, yd) implies machine@.mem[cell_addr(
                    pa,
                    colsi,
                    xd,
                    yd,
                )] == 0 && machine@.mem[cell_addr(pa, colsi, xd, yd) + 1] == attr by {
                    assert(0 <= yd * colsi + xd && yd * colsi + xd <= bottom * colsi + right)
                        by (nonlinear_arith)
                        requires
                            0 <= xd <= right,
                            0 <= yd <= bottom,
                            colsi >= 0,
                    ;
                    assert(0 <= cell_addr(pa, colsi, xd, yd) && cell_addr(pa, colsi, xd, yd) + 1
                        < MEMORY_BYTES);
                    assert(mem0[cell_addr(pa, colsi, xd, yd)] == 0 && mem0[cell_addr(
                        pa,
                        colsi,
                        xd,
                        yd,
                    ) + 1] == attr);
                    assert(cell_addr(pa, colsi, xd, yd) != char_addr + 1);
                    assert(cell_addr(pa, colsi, xd, yd) + 1 != char_addr);
                }
            }
            x += 1;
        }
        y += 1;
        proof {
            assert forall|a: int|
                0 <= a < MEMORY_BYTES && !rect_addr(pa, colsi, l, r, t, y - 1, a) implies machine@.mem[a]
                == old(machine)@.mem[a] by {
                assert(!(exists|xd: int|
                    l <= xd <= r && (a == #[trigger] cell_addr(pa, colsi, xd, y - 1) || a
                        == cell_addr(pa, colsi, xd, y - 1) + 1)));
                assert(!rect_addr(pa, colsi, l, r, t, y - 2, a));
            }
        }
    }
}

/// Copies each row of the rectangle from the row below it, reading the
/// pre-call contents; used by the scroll service, whose row stride is wider
/// than the rectangle so that no two touched cells share an address.
#[verifier::loop_isolation(false)]
fn copy_rows_up(
    machine: &mut Machine,
    page_addr: u32,
    cols: u16,
    left: u8,
    right: u8,
    top: u8,
    bottom: u8,
)
    requires
        old(machine).inv(),
        page_addr + 2 * ((bottom + 1) * cols + right) + 1 < MEMORY_BYTES,
        cols > right - left,
    ensures
        final(machine).inv(),
        crate::machine::same_except_mem(final(machine)@, old(machine)@),
        forall|x: int, y: int|
            in_rect(left as int, right as int, top as int, bottom as int, x, y) ==> final(machine)@.mem[cell_addr(page_addr as int, cols as int, x, y)] == old(machine)@.mem[cell_addr(
                page_addr as int,
                cols as int,
                x,
                y,
            ) + 2 * cols] && final(machine)@.mem[cell_addr(page_addr as int, cols as int, x, y)
                + 1] == old(machine)@.mem[cell_addr(page_addr as int, cols as int, x, y) + 1 + 2
                * cols],
        forall|a: int|
            0 <= a < MEMORY_BYTES && !rect_addr(
                page_addr as int,
                cols as int,
                left as int,
                right as int,
                top as int,
                bottom as int,
                a,
            ) ==> final(machine)@.mem[a] == old(machine)@.mem[a],
{
    let ghost pa = page_addr as int;
    let ghost colsi = cols as int;
    let ghost l = left as int;
    let ghost r = right as int;
    let ghost t = top as int;
    let ghost b = bottom as int;
    let mut y: u16 = top as u16;
    while y <= bottom as u16
        invariant
            machine.inv(),
            crate::machine::same_except_mem(machine@, old(machine)@),
            top as u16 <= y,
            y <= bottom as u16 + 1 || y == top as u16,
            forall|xd: int, yd: int|
                in_rect(l, r, t, y - 1, xd, yd) ==> machine@.mem[cell_addr(pa, colsi, xd, yd)]
                    == old(machine)@.mem[cell_addr(pa, colsi, xd, yd) + 2 * colsi]
                    && machine@.mem[cell_addr(pa, colsi, xd, yd) + 1] == old(machine)@.mem[cell_addr(
                    pa,
                    colsi,
                    xd,
                    yd,
                ) + 1 + 2 * colsi],
            forall|a: int|
                0 <= a < MEMORY_BYTES && !rect_addr(pa, colsi, l, r, t, y - 1, a)
                    ==> machine@.mem[a] == old(machine)@.mem[a],
        decreases bottom + 1 - y,
    {
        let mut x: u16 = left as u16;
        while x <= right as u16
            invariant
                machine.inv(),
                crate::machine::same_except_mem(machine@, old(machine)@),
                top as u16 <= y,
                y <= bottom as u16,
                left as u16 <= x,
                x <= right as u16 + 1 || x == left as u16,
                forall|xd: int, yd: int|
                    in_rect(l, r, t, y - 1, xd, yd) ==> machine@.mem[cell_addr(pa, colsi, xd, yd)]
                        == old(machine)@.mem[cell_addr(pa, colsi, xd, yd) + 2 * colsi]
                        && machine@.mem[cell_addr(pa, colsi, xd, yd) + 1] == old(machine)@.mem[cell_addr(pa, colsi, xd, yd) + 1 + 2 * colsi],
                forall|xd: int|
                    l <= xd < x ==> machine@.mem[cell_addr(pa, colsi, xd, y as int)] == old(machine)@.mem[cell_addr(pa, colsi, xd, y as int) + 2 * colsi] && machine@.mem[cell_addr(
                        pa,
                        colsi,
                        xd,
                        y as int,
                    ) + 1] == old(machine)@.mem[cell_addr(pa, colsi, xd, y as int) + 1 + 2 * colsi],
                forall|a: int|
                    0 <= a < MEMORY_BYTES && !rect_addr(pa, colsi, l, r, t, y - 1, a) && !(exists|
                        xd: int,
                    |
                        l <= xd < x && (a == #[trigger] cell_addr(pa, colsi, xd, y as int) || a
                            == cell_addr(pa, colsi, xd, y as int) + 1)) ==> machine@.mem[a] == old(machine)@.mem[a],
            decreases right + 1 - x,
        {
            proof {
                assert((y + 1) * cols <= (bottom + 1) * cols && 0 <= y * cols && y * cols <= (y
                    + 1) * cols && (y + 1) * cols == y * cols + cols) by (nonlinear_arith)
                    requires
                        y <= bottom,
                        cols >= 0,
                ;
            }
            let prod: u32 = y as u32 * cols as u32;
            let to_addr: u32 = page_addr + (prod + x as u32) * 2;
            let from_addr: u32 = to_addr + 2 * cols as u32;
            proof {
                assert(to_addr == cell_addr(pa, colsi, x as int, y as int));
                assert(from_addr == cell_addr(pa, colsi, x as int, y as int + 1));
                // the source cell has not been written yet: every cell
                // written so far lies in a strictly earlier row position
                assert(!rect_addr(pa, colsi, l, r, t, y - 1, from_addr as int)) by {
                    if rect_addr(pa, colsi, l, r, t, y - 1, from_addr as int) {
                        let (x2, y2) = choose|x2: int, y2: int|
                            in_rect(l, r, t, y - 1, x2, y2) && (from_addr as int == cell_addr(
                                pa,
                                colsi,
                                x2,
                                y2,
                            ) || from_addr as int == cell_addr(pa, colsi, x2, y2) + 1);
                        if from_addr as int == cell_addr(pa, colsi, x2, y2) {
                            lemma_cell_injective(
                                pa,
                                colsi,
                                l,
                                r,
                                t,
                                b + 1,
                                x2,
                                y2,
                                x as int,
                                y as int + 1,
                            );
                        }
                    }
                }
                assert(!rect_addr(pa, colsi, l, r, t, y - 1, from_addr as int + 1)) by {
                    if rect_addr(pa, colsi, l, r, t, y - 1, from_addr as int + 1) {
                        let (x2, y2) = choose|x2: int, y2: int|
                            in_rect(l, r, t, y - 1, x2, y2) && (from_addr as int + 1 == cell_addr(
                                pa,
                                colsi,
                                x2,
                                y2,
                            ) || from_addr as int + 1 == cell_addr(pa, colsi, x2, y2) + 1);
                        if from_addr as int + 1 == cell_addr(pa, colsi, x2, y2) + 1 {
                            lemma_cell_injective(
                                pa,
                                colsi,
                                l,
                                r,
                                t,
                                b + 1,
                                x2,
                                y2,
                                x as int,
                                y as int + 1,
                            );
                        }
                    }
                }
                assert forall|xd: int|
                    l <= xd < x implies from_addr as int != cell_addr(pa, colsi, xd, y as int)
                    && from_addr as int != cell_addr(pa, colsi, xd, y as int) + 1 && from_addr as int
                    + 1 != cell_addr(pa, colsi, xd, y as int) && from_addr as int + 1 != cell_addr(
                    pa,
                    colsi,
                    xd,
                    y as int,
                ) + 1 by {
                    if from_addr as int == cell_addr(pa, colsi, xd, y as int) || from_addr as int + 1
                        == cell_addr(pa, colsi, xd, y as int) + 1 {
                        lemma_cell_injective(
                            pa,
                            colsi,
                            l,
                            r,
                            t,
                            b + 1,
                            xd,
                            y as int,
                            x as int,
                            y as int + 1,
                        );
                    }
                }
            }
            let lo = machine.peek_u8(from_addr);
            let hi = machine.peek_u8(from_addr + 1);
            proof {
                assert(lo == old(machine)@.mem[from_addr as int]);
                assert(hi == old(machine)@.mem[from_addr as int + 1]);
            }
            let ghost mem0 = machine@.mem;
            machine.poke_u8(to_addr, lo);
            machine.poke_u8(to_addr + 1, hi);
            proof {
                assert(machine@.mem == mem0.update(to_addr as int, lo).update(
                    to_addr as int + 1,
                    hi,
                ));
                assert forall|xd: int, yd: int|
                    in_rect(l, r, t, y - 1, xd, yd) implies machine@.mem[cell_addr(
                    pa,
                    colsi,
                    xd,
                    yd,
                )] == old(machine)@.mem[cell_addr(pa, colsi, xd, yd) + 2 * colsi]
                    && machine@.mem[cell_addr(pa, colsi, xd, yd) + 1] == old(machine)@.mem[cell_addr(
                    pa,
                    colsi,
                    xd,
                    yd,
                ) + 1 + 2 * colsi] by {
                    assert(0 <= yd * colsi + xd && yd * colsi + xd <= bottom * colsi + right
                        && bottom * colsi <= (bottom + 1) * colsi) by (nonlinear_arith)
                        requires
                            0 <= xd <= right,
                            0 <= yd <= bottom,
                            colsi >= 0,
                    ;
                    assert(0 <= cell_addr(pa, colsi, xd, yd) && cell_addr(pa, colsi, xd, yd) + 1
                        < MEMORY_BYTES);
                    assert(mem0[cell_addr(pa, colsi, xd, yd)] == old(machine)@.mem[cell_addr(
                        pa,
                        colsi,
                        xd,
                        yd,
                    ) + 2 * colsi] && mem0[cell_addr(pa, colsi, xd, yd) + 1] == old(machine)@.mem[cell_addr(pa, colsi, xd, yd) + 1 + 2 * colsi]);
                    if cell_addr(pa, colsi, xd, yd) == cell_addr(pa, colsi, x as int, y as int) {
                        lemma_cell_injective(pa, colsi, l, r, t, b + 1, xd, yd, x as int, y as int);
                    }
                }
                assert forall|xd: int|
                    l <= xd < x implies machine@.mem[cell_addr(pa, colsi, xd, y as int)] == old(machine)@.mem[cell_addr(pa, colsi, xd, y as int) + 2 * colsi] && machine@.mem[cell_addr(
                    pa,
                    colsi,
                    xd,
                    y as int,
                ) + 1] == old(machine)@.mem[cell_addr(pa, colsi, xd, y as int) + 1 + 2
                    * colsi] by {
                    assert(0 <= y * colsi + xd && y * colsi + xd <= bottom * colsi + right
                        && bottom * colsi <= (bottom + 1) * colsi) by (nonlinear_arith)
                        requires
                            0 <= xd <= right,
                            0 <= y <= bottom,
                            colsi >= 0,
                    ;
                    assert(0 <= cell_addr(pa, colsi, xd, y as int) && cell_addr(pa, colsi, xd, y as int)
                        + 1 < MEMORY_BYTES);
                    assert(mem0[cell_addr(pa, colsi, xd, y as int)] == old(machine)@.mem[cell_addr(
                        pa,
                        colsi,
                        xd,
                        y as int,
                    ) + 2 * colsi] && mem0[cell_addr(pa, colsi, xd, y as int) + 1] == old(machine)@.mem[cell_addr(pa, colsi, xd, y as int) + 1 + 2 * colsi]);
                    if cell_addr(pa, colsi, xd, y as int) == cell_addr(
                        pa,
                        colsi,
                        x as int,
                        y as int,
                    ) {
                        lemma_cell_injective(
                            pa,
                            colsi,
                            l,
                            r,
                            t,
                            b + 1,
                            xd,
                            y as int,
                            x as int,
                            y as int,
                        );
                    }
                }
            }
            x += 1;
        }
        y += 1;
        proof {
            assert forall|a: int|
                0 <= a < MEMORY_BYTES && !rect_addr(pa, colsi, l, r, t, y - 1, a) implies machine@.mem[a]
                == old(machine)@.mem[a] by {
                assert(!(exists|xd: int|
                    l <= xd <= r && (a == #[trigger] cell_addr(pa, colsi, xd, y - 1) || a
                        == cell_addr(pa, colsi, xd, y - 1) + 1)));
                assert(!rect_addr(pa, colsi, l, r, t, y - 2, a));
            }
        }
    }
}

/// Whether the scroll service (AH=06h) can run: the whole rectangle and,
/// when scrolling, the source row below it lie inside guest memory, the
/// line count does not exceed the rectangle, and the row stride is wider
/// than the rectangle, so distinct cells have distinct addresses.
pub open spec fn int10_scroll_ok(m: MachineView, vm: VideoMode) -> bool {
    let pa = vm.text_address + bda_active_page(m) * bda_page_bytes(m);
    let cols = bda_columns(m);
    &&& pa <= 0xffff_ffff
    &&& if reg_al(m) == 0 {
        pa + 2 * (reg_dh(m) * cols + reg_dl(m)) + 1 < MEMORY_BYTES
    } else {
        &&& pa + 2 * ((reg_dh(m) + 1) * cols + reg_dl(m)) + 1 < MEMORY_BYTES
        &&& reg_al(m) <= reg_dh(m)
        &&& cols > reg_dl(m) - reg_cl(m)
    }
}

/// The video services the INT 10h dispatcher accepts, with the register and
/// BIOS-data-area states under which each runs without faulting.
pub open spec fn int10_supported(m: MachineView, vm: VideoMode) -> bool {
    match reg_ah(m) {
        0x00 => true,
        0x01 => true,
        0x02 => (reg_bh(m) == 0xff ==> bda_active_page(m) < 8) && (reg_bh(m) != 0xff ==> reg_bh(m)
            < 8),
        0x06 => int10_scroll_ok(m, vm),
        0x08 => vm.text_address + (reg_bl(m) * 80 + reg_bh(m)) * 2 + 1 < MEMORY_BYTES,
        0x0f => true,
        0x11 => reg_al(m) == 0x30,
        0x12 => reg_bl(m) == 0x30,
        _ => false,
    }
}

/// What each INT 10h service does to the machine: set-mode, set-cursor-shape
/// and select-vertical-resolution change nothing; set-cursor writes the
/// page's cursor word; scroll clears or shifts the rectangle on the active
/// page; read-cell returns a character and attribute in AL and BH;
/// get-mode reports columns, mode 3 and the active page; font information
/// reports unimplemented by setting the carry flag.
pub open spec fn int10_rel(vm: VideoMode, pre: MachineView, post: MachineView) -> bool {
    match reg_ah(pre) {
        0x00 => post == pre,
        0x01 => post == pre,
        0x02 => {
            let page = if reg_bh(pre) == 0xff {
                bda_active_page(pre)
            } else {
                reg_bh(pre)
            };
            post == (MachineView {
                mem: with_word_at(
                    pre.mem,
                    crate::bios_loader::spec_cursor_position_addr(page) as int,
                    (reg_dh(pre) * 256 + reg_dl(pre)) as u16,
                ),
                ..pre
            })
        },
        0x06 => {
            let pa = (vm.text_address + bda_active_page(pre) * bda_page_bytes(pre)) as int;
            let cols = bda_columns(pre) as int;
            let lines = reg_al(pre) as int;
            let attr = reg_bh(pre);
            let t = reg_ch(pre) as int;
            let l = reg_cl(pre) as int;
            let b = reg_dh(pre) as int;
            let r = reg_dl(pre) as int;
            &&& crate::machine::same_except_mem(post, pre)
            &&& post.mem.len() == pre.mem.len()
            &&& if lines == 0 {
                &&& forall|x: int, y: int|
                    in_rect(l, r, t, b, x, y) ==> post.mem[cell_addr(pa, cols, x, y)] == 0
                        && post.mem[cell_addr(pa, cols, x, y) + 1] == attr
                &&& forall|a: int|
                    0 <= a < MEMORY_BYTES && !rect_addr(pa, cols, l, r, t, b, a) ==> post.mem[a]
                        == pre.mem[a]
            } else {
                &&& forall|x: int, y: int|
                    in_rect(l, r, t, b - lines, x, y) ==> post.mem[cell_addr(pa, cols, x, y)]
                        == pre.mem[cell_addr(pa, cols, x, y) + 2 * cols] && post.mem[cell_addr(
                        pa,
                        cols,
                        x,
                        y,
                    ) + 1] == pre.mem[cell_addr(pa, cols, x, y) + 1 + 2 * cols]
                &&& forall|x: int, y: int|
                    in_rect(l, r, b - lines + 1, b, x, y) ==> post.mem[cell_addr(pa, cols, x, y)]
                        == 0 && post.mem[cell_addr(pa, cols, x, y) + 1] == attr
                &&& forall|a: int|
                    0 <= a < MEMORY_BYTES && !rect_addr(pa, cols, l, r, t, b - lines, a)
                        && !rect_addr(pa, cols, l, r, b - lines + 1, b, a) ==> post.mem[a]
                        == pre.mem[a]
            }
        },
        0x08 => {
            let addr = (vm.text_address + (reg_bl(pre) * 80 + reg_bh(pre)) * 2) as int;
            post == with_reg16(
                with_reg16(
                    pre,
                    Reg::AX,
                    with_byte_half(
                        pre.ax,
                        RegHalf::Low,
                        pre.mem[addr],
                    ),
                ),
                Reg::BX,
                with_byte_half(
                    pre.bx,
                    RegHalf::High,
                    pre.mem[addr + 1],
                ),
            )
        },
        0x0f => post == with_reg16(
            with_reg16(
                with_reg16(
                    pre,
                    Reg::AX,
                    with_byte_half(
                        pre.ax,
                        RegHalf::High,
                        lo_byte(bda_columns(pre)),
                    ),
                ),
                Reg::AX,
                with_byte_half(
                    with_byte_half(
                        pre.ax,
                        RegHalf::High,
                        lo_byte(bda_columns(pre)),
                    ),
                    RegHalf::Low,
                    3,
                ),
            ),
            Reg::BX,
            with_byte_half(
                pre.bx,
                RegHalf::High,
                bda_active_page(pre),
            ),
        ),
        0x11 => post == (MachineView { carry: true, ..pre }),
        0x12 => post == pre,
        _ => false,
    }
}

impl DosEventHandler {
    /// Services an INT 10h video call as `int10_rel` describes.
    pub fn handle_interrupt_10h(&mut self, machine: &mut Machine)
        requires
            old(machine).inv(),
            int10_supported(old(machine)@, old(self).video_mode),
        ensures
            final(machine).inv(),
            *final(self) == *old(self),
            int10_rel(old(self).video_mode, old(machine)@, final(machine)@),
    {
        let video_int = machine.get_reg_u8(Reg::AX, RegHalf::High);
        if video_int == 0x00 {
            // set video mode: accepted without further state change
        } else if video_int == 0x01 {
            // set text-mode cursor shape: ignored
        } else if video_int == 0x02 {
            let bh = machine.get_reg_u8(Reg::BX, RegHalf::High);
            let video_page = if bh == 0xff {
                machine.peek_u8(BIOS_ACTIVE_VIDEO_PAGE)
            } else {
                bh
            };
            let dh = machine.get_reg_u8(Reg::DX, RegHalf::High);
            let dl = machine.get_reg_u8(Reg::DX, RegHalf::Low);
            let cursor_pos_data: u16 = (dh as u16) * 256 + dl as u16;
            let addr = crate::bios_loader::cursor_position_addr(video_page);
            machine.poke_u16(addr, cursor_pos_data);
        } else if video_int == 0x06 {
            self.scroll_up_window(machine);
        } else if video_int == 0x08 {
            let bh = machine.get_reg_u8(Reg::BX, RegHalf::High);
            let bl = machine.get_reg_u8(Reg::BX, RegHalf::Low);
            let addr: u32 = self.video_mode.text_address + ((bl as u32 * 80) + bh as u32) * 2;
            let ch = machine.peek_u8(addr);
            let at = machine.peek_u8(addr + 1);
            machine.set_reg_u8(Reg::AX, RegHalf::Low, ch);
            machine.set_reg_u8(Reg::BX, RegHalf::High, at);
        } else if video_int == 0x0f {
            let text_column_count = machine.peek_u16(BIOS_TEXT_COLUMN_COUNT);
            machine.set_reg_u8(
                Reg::AX,
                RegHalf::High,
                (text_column_count % 256) as u8,
            );
            machine.set_reg_u8(Reg::AX, RegHalf::Low, 3);
            let page = machine.peek_u8(BIOS_ACTIVE_VIDEO_PAGE);
            machine.set_reg_u8(Reg::BX, RegHalf::High, page);
        } else if video_int == 0x11 {
            // font information: report unimplemented through the carry flag
            machine.set_flag(Flag::Carry, true);
        } else {
            // 0x12, BL=0x30: select vertical resolution, ignored
        }
    }

    /// The scroll-up service: with AL=0 the rectangle is filled with blank
    /// cells; otherwise the rows shift up by one row and the bottom AL rows
    /// are blanked.
    fn scroll_up_window(&mut self, machine: &mut Machine)
        requires
            old(machine).inv(),
            reg_ah(old(machine)@) == 6,
            int10_scroll_ok(old(machine)@, old(self).video_mode),
        ensures
            final(machine).inv(),
            *final(self) == *old(self),
            int10_rel(old(self).video_mode, old(machine)@, final(machine)@),
    {
        let video_page = machine.peek_u8(BIOS_ACTIVE_VIDEO_PAGE);
        let num_lines = machine.get_reg_u8(Reg::AX, RegHalf::Low);
        let blank_char_attributes = machine.get_reg_u8(
            Reg::BX,
            RegHalf::High,
        );
        let rect_top = machine.get_reg_u8(Reg::CX, RegHalf::High);
        let rect_left = machine.get_reg_u8(Reg::CX, RegHalf::Low);
        let rect_bottom = machine.get_reg_u8(Reg::DX, RegHalf::High);
        let rect_right = machine.get_reg_u8(Reg::DX, RegHalf::Low);
        let page_bytes = machine.peek_u16(BIOS_TEXT_PAGE_BYTES);
        let cols = machine.peek_u16(BIOS_TEXT_COLUMN_COUNT);
        let page_addr: u32 = self.video_mode.text_address + video_page as u32 * page_bytes as u32;
        let ghost pre = old(machine)@;
        let ghost pa = page_addr as int;
        let ghost colsi = cols as int;
        let ghost l = rect_left as int;
        let ghost r = rect_right as int;
        let ghost t = rect_top as int;
        let ghost b = rect_bottom as int;
        if num_lines == 0 {
            clear_rect(
                machine,
                page_addr,
                cols,
                rect_left,
                rect_right,
                rect_top,
                rect_bottom,
                blank_char_attributes,
            );
        } else {
            let copy_bottom = rect_bottom - num_lines;
            proof {
                assert((copy_bottom + 1) * colsi <= (rect_bottom + 1) * colsi && rect_bottom * colsi
                    <= (rect_bottom + 1) * colsi) by (nonlinear_arith)
                    requires
                        copy_bottom + 1 <= rect_bottom + 1,
                        0 <= rect_bottom,
                        colsi >= 0,
                ;
            }
            copy_rows_up(machine, page_addr, cols, rect_left, rect_right, rect_top, copy_bottom);
            let ghost mid = machine@;
            clear_rect(
                machine,
                page_addr,
                cols,
                rect_left,
                rect_right,
                copy_bottom + 1,
                rect_bottom,
                blank_char_attributes,
            );
            proof {
                let lines = num_lines as int;
                // the copied rows are disjoint from the blanked rows, so the
                // blanking pass leaves them as the copy pass wrote them
                assert forall|x: int, y: int|
                    in_rect(l, r, t, b - lines, x, y) implies machine@.mem[cell_addr(
                    pa,
                    colsi,
                    x,
                    y,
                )] == pre.mem[cell_addr(pa, colsi, x, y) + 2 * colsi] && machine@.mem[cell_addr(
                    pa,
                    colsi,
                    x,
                    y,
                ) + 1] == pre.mem[cell_addr(pa, colsi, x, y) + 1 + 2 * colsi] by {
                    assert(!rect_addr(pa, colsi, l, r, b - lines + 1, b, cell_addr(pa, colsi, x, y)))
                        by {
                        if rect_addr(pa, colsi, l, r, b - lines + 1, b, cell_addr(pa, colsi, x, y)) {
                            let (x2, y2) = choose|x2: int, y2: int|
                                in_rect(l, r, b - lines + 1, b, x2, y2) && (cell_addr(
                                    pa,
                                    colsi,
                                    x,
                                    y,
                                ) == cell_addr(pa, colsi, x2, y2) || cell_addr(pa, colsi, x, y)
                                    == cell_addr(pa, colsi, x2, y2) + 1);
                            if cell_addr(pa, colsi, x, y) == cell_addr(pa, colsi, x2, y2) {
                                lemma_cell_injective(pa, colsi, l, r, t, b, x2, y2, x, y);
                            }
                        }
                    }
                    assert(!rect_addr(
                        pa,
                        colsi,
                        l,
                        r,
                        b - lines + 1,
                        b,
                        cell_addr(pa, colsi, x, y) + 1,
                    )) by {
                        if rect_addr(
                            pa,
                            colsi,
                            l,
                            r,
                            b - lines + 1,
                            b,
                            cell_addr(pa, colsi, x, y) + 1,
                        ) {
                            let (x2, y2) = choose|x2: int, y2: int|
                                in_rect(l, r, b - lines + 1, b, x2, y2) && (cell_addr(
                                    pa,
                                    colsi,
                                    x,
                                    y,
                                ) + 1 == cell_addr(pa, colsi, x2, y2) || cell_addr(pa, colsi, x, y)
                                    + 1 == cell_addr(pa, colsi, x2, y2) + 1);
                            if cell_addr(pa, colsi, x, y) + 1 == cell_addr(pa, colsi, x2, y2) + 1 {
                                lemma_cell_injective(pa, colsi, l, r, t, b, x2, y2, x, y);
                            }
                        }
                    }
                    assert(0 <= y * colsi + x && y * colsi + x <= b * colsi + r && b * colsi <= (b
                        + 1) * colsi) by (nonlinear_arith)
                        requires
                            0 <= x <= r,
                            0 <= y <= b,
                            colsi >= 0,
                    ;
                }
            }
        }
    }
}

// ---------------------------------------------------------------------------
// Timer, interrupt vector table, and system time
// ---------------------------------------------------------------------------

/// The 32-bit timer counter held in the BIOS data area.
pub open spec fn bda_timer(m: MachineView) -> u32 {
    (word_at(m.mem, BIOS_SYSTEM_TIMER_COUNTER_LOW as int) + 0x10000 * word_at(
        m.mem,
        BIOS_SYSTEM_TIMER_COUNTER_HIGH as int,
    )) as u32
}

/// One timer tick: the counter increments and wraps at 2^32.
pub open spec fn timer_step(t: u32) -> u32 {
    (((t + 1) as int) % 0x1_0000_0000) as u32
}

/// The counter after `n` timer ticks.
pub open spec fn timer_after_ticks(t: u32, n: nat) -> u32
    decreases n,
{
    if n == 0 {
        t
    } else {
        timer_after_ticks(timer_step(t), (n - 1) as nat)
    }
}

proof fn lemma_timer_after_ticks_mod(t: u32, n: nat)
    ensures
        timer_after_ticks(t, n) == ((t + n) % 0x1_0000_0000) as u32,
    decreases n,
{
    if n == 0 {
        assert(((t + 0) % 0x1_0000_0000) as u32 == t);
    } else {
        lemma_timer_after_ticks_mod(timer_step(t), (n - 1) as nat);
        assert((((t + 1) % 0x1_0000_0000) + (n - 1)) % 0x1_0000_0000 == (t + n) % 0x1_0000_0000)
            by (nonlinear_arith);
    }
}

/// After 2^32 timer ticks the counter is back at its pre-wrap value.
pub proof fn lemma_timer_wraps(t: u32)
    ensures
        timer_after_ticks(t, 0x1_0000_0000) == t,
{
    lemma_timer_after_ticks_mod(t, 0x1_0000_0000);
    assert((t + 0x1_0000_0000) % 0x1_0000_0000 == t as int % 0x1_0000_0000) by (nonlinear_arith);
}

/// The machine after the timer interrupt: the counter steps with wraparound
/// and the user timer tick, INT 1Ch, is requested for the next CPU step.
pub open spec fn int08_machine(m: MachineView) -> MachineView {
    let new_timer = timer_step(bda_timer(m));
    MachineView {
        mem: with_word_at(
            with_word_at(m.mem, BIOS_SYSTEM_TIMER_COUNTER_LOW as int, (new_timer % 0x10000) as u16),
            BIOS_SYSTEM_TIMER_COUNTER_HIGH as int,
            (new_timer / 0x10000) as u16,
        ),
        pending_interrupt: Some(0x1c),
        ..m
    }
}

/// Each timer interrupt advances the BIOS timer dword by exactly one
/// wrapping step; with `lemma_timer_wraps`, 2^32 timer interrupts bring it
/// back to its pre-wrap value.
pub proof fn lemma_int08_steps_timer(m: MachineView)
    requires
        m.mem.len() == MEMORY_BYTES,
    ensures
        bda_timer(int08_machine(m)) == timer_step(bda_timer(m)),
{
    let new_timer = timer_step(bda_timer(m));
    let m2 = int08_machine(m);
    assert(m2.mem[BIOS_SYSTEM_TIMER_COUNTER_LOW as int] == lo_byte((new_timer % 0x10000) as u16));
    assert(word_at(m2.mem, BIOS_SYSTEM_TIMER_COUNTER_LOW as int) == (new_timer % 0x10000) as u16);
    assert(word_at(m2.mem, BIOS_SYSTEM_TIMER_COUNTER_HIGH as int) == (new_timer / 0x10000) as u16);
}

/// Address of interrupt vector table entry `slot`: four bytes per entry, IP
/// word then CS word.
pub open spec fn ivt_entry_addr(slot: u8) -> int {
    slot * 4
}

/// Memory after INT 21h/25h stores `ip:cs` in vector `slot`.
pub open spec fn ivt_write(mem: Seq<u8>, slot: u8, ip: u16, cs: u16) -> Seq<u8> {
    with_word_at(with_word_at(mem, ivt_entry_addr(slot), ip), ivt_entry_addr(slot) + 2, cs)
}

/// Setting an interrupt vector with INT 21h/25h and reading it back with
/// INT 21h/35h round-trips: the stored DX:DS words come back as BX:ES.
pub proof fn lemma_ivt_round_trip(mem: Seq<u8>, slot: u8, ip: u16, cs: u16)
    requires
        mem.len() == MEMORY_BYTES,
    ensures
        word_at(ivt_write(mem, slot, ip, cs), ivt_entry_addr(slot)) == ip,
        word_at(ivt_write(mem, slot, ip, cs), ivt_entry_addr(slot) + 2) == cs,
{
    let e = ivt_entry_addr(slot);
    let m2 = ivt_write(mem, slot, ip, cs);
    assert(m2[e] == lo_byte(ip) && m2[e + 1] == hi_byte(ip));
    assert(m2[e + 2] == lo_byte(cs) && m2[e + 3] == hi_byte(cs));
    assert(lo_byte(ip) + 256 * hi_byte(ip) == ip);
    assert(lo_byte(cs) + 256 * hi_byte(cs) == cs);
}

/// Hour reported by INT 21h/2Ch for a wall clock in hundredths of a second.
pub open spec fn time_hour(cs: u64) -> u8 {
    (((cs / 360000) % 24) as u8)
}

/// Minute reported by INT 21h/2Ch.
pub open spec fn time_minute(cs: u64) -> u8 {
    (((cs / 6000) % 60) as u8)
}

/// Second reported by INT 21h/2Ch.
pub open spec fn time_second(cs: u64) -> u8 {
    (((cs / 100) % 60) as u8)
}

/// Hundredths of a second reported by INT 21h/2Ch.
pub open spec fn time_hundredths(cs: u64) -> u8 {
    ((cs % 100) as u8)
}

// ---------------------------------------------------------------------------
// The interrupt dispatcher
// ---------------------------------------------------------------------------

/// The DOS services the INT 21h dispatcher accepts, with the machine states
/// under which each runs without faulting: the file calls need their
/// guest-memory operands to lie inside memory, and a create/open path must
/// be NUL-terminated.
pub open spec fn int21_supported(m: MachineView) -> bool {
    match reg_ah(m) {
        0x25 => true,
        0x2c => true,
        0x33 => true,
        0x35 => true,
        0x3c | 0x3d => {
            let fl = crate::machine::flat_addr(m.ds, m.dx);
            fl < MEMORY_BYTES && crate::machine::has_nul_from(m.mem, fl as int)
        },
        0x3f => crate::machine::flat_addr(m.ds, m.dx) <= MEMORY_BYTES,
        0x42 => true,
        0x44 => true,
        _ => false,
    }
}

/// The interrupts the dispatcher services, with the states under which each
/// runs without faulting. INT 02h and INT 04h are fatal, and unknown
/// indices and subcodes abort the emulator; the host must not dispatch
/// them here.
pub open spec fn interrupt_supported(m: MachineView, vm: VideoMode, interrupt_index: u8) -> bool {
    match interrupt_index {
        0x08 => true,
        0x10 => int10_supported(m, vm),
        0x14 => true,
        0x16 => reg_ah(m) == 0 || reg_ah(m) == 1,
        0x1c => true,
        0x21 => int21_supported(m),
        0x33 => m.ax == 0,
        _ => false,
    }
}

/// Guest memory with `bytes` laid down at `at`.
pub open spec fn mem_with_bytes(mem: Seq<u8>, at: int, bytes: Seq<u8>) -> Seq<u8> {
    Seq::new(
        mem.len(),
        |i: int|
            if at <= i < at + bytes.len() {
                bytes[i - at]
            } else {
                mem[i]
            },
    )
}

/// What each INT 21h service does: vector set/get move DX:DS and BX:ES
/// through the interrupt vector table; get-time reports the wall clock in
/// CX:DX; the file services run the file-system transitions and report the
/// result through the carry flag and AX, with seek's position split over
/// DX:AX.
pub open spec fn int21_rel(
    f0: crate::dos_file_system::FsView,
    f1: crate::dos_file_system::FsView,
    centis: u64,
    pre: MachineView,
    post: MachineView,
) -> bool {
    match reg_ah(pre) {
        0x25 => f1 == f0 && post == (MachineView {
            mem: ivt_write(pre.mem, reg_al(pre), pre.dx, pre.ds),
            ..pre
        }),
        0x2c => f1 == f0 && post == with_reg16(
            with_reg16(
                pre,
                Reg::CX,
                (time_hour(centis) * 256 + time_minute(centis)) as u16,
            ),
            Reg::DX,
            (time_second(centis) * 256 + time_hundredths(centis)) as u16,
        ),
        0x33 => f1 == f0 && post == with_reg16(
            pre,
            Reg::DX,
            with_byte_half(pre.dx, RegHalf::Low, 0),
        ),
        0x35 => f1 == f0 && post == with_reg16(
            with_reg16(pre, Reg::BX, word_at(pre.mem, ivt_entry_addr(reg_al(pre)))),
            Reg::ES,
            word_at(pre.mem, ivt_entry_addr(reg_al(pre)) + 2),
        ),
        0x3c => {
            let name = crate::machine::nul_str_at(
                pre.mem,
                crate::machine::flat_addr(pre.ds, pre.dx) as int,
            );
            let step = crate::dos_file_system::create_spec(f0, name, pre.cx);
            &&& f1 == step.0
            &&& post == (match step.1 {
                Ok(handle) => with_reg16((MachineView { carry: false, ..pre }), Reg::AX, handle),
                Err(code) => with_reg16(
                    (MachineView { carry: true, ..pre }),
                    Reg::AX,
                    crate::dos_error_codes::spec_error_code(code),
                ),
            })
        },
        0x3d => {
            let al = reg_al(pre);
            if al <= 2 {
                let mode = if al == 0 {
                    crate::dos_file_system::DosFileAccessMode::ReadOnly
                } else if al == 1 {
                    crate::dos_file_system::DosFileAccessMode::WriteOnly
                } else {
                    crate::dos_file_system::DosFileAccessMode::ReadWrite
                };
                let name = crate::machine::nul_str_at(
                    pre.mem,
                    crate::machine::flat_addr(pre.ds, pre.dx) as int,
                );
                let step = crate::dos_file_system::open_spec(f0, name, mode);
                &&& f1 == step.0
                &&& post == (match step.1 {
                    Ok(handle) => with_reg16(
                        (MachineView { carry: false, ..pre }),
                        Reg::AX,
                        handle,
                    ),
                    Err(code) => with_reg16(
                        (MachineView { carry: true, ..pre }),
                        Reg::AX,
                        crate::dos_error_codes::spec_error_code(code),
                    ),
                })
            } else {
                f1 == f0 && post == with_reg16((MachineView { carry: true, ..pre }), Reg::AX, 0x0c)
            }
        },
        0x3f => {
            let fl = crate::machine::flat_addr(pre.ds, pre.dx);
            if MEMORY_BYTES - fl < pre.cx {
                f1 == f0 && post == with_reg16((MachineView { carry: true, ..pre }), Reg::AX, 0x08)
            } else {
                let step = crate::dos_file_system::read_spec(f0, pre.bx, pre.cx);
                &&& f1 == step.0
                &&& post == (match step.1 {
                    Ok(bytes) => with_reg16(
                        (MachineView {
                            mem: mem_with_bytes(pre.mem, fl as int, bytes),
                            carry: false,
                            ..pre
                        }),
                        Reg::AX,
                        bytes.len() as u16,
                    ),
                    Err(code) => with_reg16(
                        (MachineView { carry: true, ..pre }),
                        Reg::AX,
                        crate::dos_error_codes::spec_error_code(code),
                    ),
                })
            }
        },
        0x42 => {
            let al = reg_al(pre);
            if al <= 2 {
                let origin = if al == 0 {
                    crate::dos_file_system::DosFileSeekOrigin::Start
                } else if al == 1 {
                    crate::dos_file_system::DosFileSeekOrigin::Current
                } else {
                    crate::dos_file_system::DosFileSeekOrigin::End
                };
                let offset = (pre.cx * 0x10000 + pre.dx) as u32;
                let step = crate::dos_file_system::seek_spec(f0, pre.bx, offset, origin);
                &&& f1 == step.0
                &&& post == (match step.1 {
                    Ok(position) => with_reg16(
                        with_reg16(
                            (MachineView { carry: false, ..pre }),
                            Reg::AX,
                            (position % 0x10000) as u16,
                        ),
                        Reg::DX,
                        (position / 0x10000) as u16,
                    ),
                    Err(code) => with_reg16(
                        (MachineView { carry: true, ..pre }),
                        Reg::AX,
                        crate::dos_error_codes::spec_error_code(code),
                    ),
                })
            } else {
                f1 == f0 && post == with_reg16((MachineView { carry: true, ..pre }), Reg::AX, 0x0d)
            }
        },
        0x44 => f1 == f0 && post == (if reg_al(pre) == 0 {
            with_reg16((MachineView { carry: true, ..pre }), Reg::AX, 1)
        } else {
            pre
        }),
        _ => false,
    }
}

impl DosEventHandler {
    /// Services an INT 21h DOS call as `int21_rel` describes.
    fn handle_interrupt_21h(&mut self, machine: &mut Machine)
        requires
            old(machine).inv(),
            crate::dos_file_system::fs_wf(old(self).file_system@),
            int21_supported(old(machine)@),
            reg_ah(old(machine)@) == 0x3c || reg_ah(old(machine)@) == 0x3d ==> old(
                self,
            ).file_system@.cache.len() + old(self).file_system@.dir.len() + 2 <= 10000000,
        ensures
            final(machine).inv(),
            crate::dos_file_system::fs_wf(final(self).file_system@),
            handler_statics_unchanged(final(self), old(self)),
            final(self).port_states == old(self).port_states,
            final(self).key_press_queue@ == old(self).key_press_queue@,
            final(self).result == (if reg_ah(old(machine)@) == 0x2c {
                DosInterruptResult::ShouldReturnAndWaitForEvents
            } else {
                old(self).result
            }),
            int21_rel(
                old(self).file_system@,
                final(self).file_system@,
                old(self).centiseconds_since_start,
                old(machine)@,
                final(machine)@,
            ),
    {
        let dos_int = machine.get_reg_u8(Reg::AX, RegHalf::High);
        if dos_int == 0x25 {
            let slot = machine.get_reg_u8(Reg::AX, RegHalf::Low);
            let entry_addr: u32 = slot as u32 * 4;
            let interrupt_ip = machine.get_reg_u16(Reg::DX);
            let interrupt_cs = machine.get_reg_u16(Reg::DS);
            machine.poke_u16(entry_addr, interrupt_ip);
            machine.poke_u16(entry_addr + 2, interrupt_cs);
        } else if dos_int == 0x2c {
            let cs = self.centiseconds_since_start;
            let hour: u8 = ((cs / 360000) % 24) as u8;
            let minute: u8 = ((cs / 6000) % 60) as u8;
            let second: u8 = ((cs / 100) % 60) as u8;
            let hundredths: u8 = (cs % 100) as u8;
            machine.set_reg_u8(Reg::CX, RegHalf::High, hour);
            machine.set_reg_u8(Reg::CX, RegHalf::Low, minute);
            machine.set_reg_u8(Reg::DX, RegHalf::High, second);
            machine.set_reg_u8(Reg::DX, RegHalf::Low, hundredths);
            self.result = DosInterruptResult::ShouldReturnAndWaitForEvents;
            proof {
                assert(machine@ == with_reg16(
                    with_reg16(
                        old(machine)@,
                        Reg::CX,
                        (time_hour(cs) * 256 + time_minute(cs)) as u16,
                    ),
                    Reg::DX,
                    (time_second(cs) * 256 + time_hundredths(cs)) as u16,
                ));
            }
        } else if dos_int == 0x33 {
            machine.set_reg_u8(Reg::DX, RegHalf::Low, 0);
        } else if dos_int == 0x35 {
            let slot = machine.get_reg_u8(Reg::AX, RegHalf::Low);
            let entry_addr: u32 = slot as u32 * 4;
            let interrupt_ip = machine.peek_u16(entry_addr);
            let interrupt_cs = machine.peek_u16(entry_addr + 2);
            machine.set_reg_u16(Reg::BX, interrupt_ip);
            machine.set_reg_u16(Reg::ES, interrupt_cs);
        } else if dos_int == 0x3c {
            let filename_addr = machine.get_seg_reg(Reg::DS, Reg::DX);
            let filename = machine.read_null_terminated_string(filename_addr);
            let attributes = machine.get_reg_u16(Reg::CX);
            match self.file_system.create(filename.as_slice(), attributes) {
                Ok(handle) => {
                    machine.set_flag(Flag::Carry, false);
                    machine.set_reg_u16(Reg::AX, handle);
                },
                Err(error_code) => {
                    machine.set_flag(Flag::Carry, true);
                    machine.set_reg_u16(Reg::AX, error_code.code());
                },
            }
        } else if dos_int == 0x3d {
            let filename_addr = machine.get_seg_reg(Reg::DS, Reg::DX);
            let filename = machine.read_null_terminated_string(filename_addr);
            let al = machine.get_reg_u8(Reg::AX, RegHalf::Low);
            if al <= 2 {
                let access_mode = if al == 0 {
                    crate::dos_file_system::DosFileAccessMode::ReadOnly
                } else if al == 1 {
                    crate::dos_file_system::DosFileAccessMode::WriteOnly
                } else {
                    crate::dos_file_system::DosFileAccessMode::ReadWrite
                };
                match self.file_system.open(filename.as_slice(), access_mode) {
                    Ok(handle) => {
                        machine.set_flag(Flag::Carry, false);
                        machine.set_reg_u16(Reg::AX, handle);
                    },
                    Err(error_code) => {
                        machine.set_flag(Flag::Carry, true);
                        machine.set_reg_u16(Reg::AX, error_code.code());
                    },
                }
            } else {
                machine.set_flag(Flag::Carry, true);
                machine.set_reg_u16(
                    Reg::AX,
                    crate::dos_error_codes::DosErrorCode::InvalidFileAccessMode.code(),
                );
            }
        } else if dos_int == 0x3f {
            let handle = machine.get_reg_u16(Reg::BX);
            let count = machine.get_reg_u16(Reg::CX);
            let destination_addr = machine.get_seg_reg(Reg::DS, Reg::DX);
            if MEMORY_BYTES as u32 - destination_addr < count as u32 {
                machine.set_flag(Flag::Carry, true);
                machine.set_reg_u16(
                    Reg::AX,
                    crate::dos_error_codes::DosErrorCode::InsufficientMemory.code(),
                );
            } else {
                match self.file_system.read(handle, count) {
                    Ok(bytes) => {
                        let read_count = bytes.len() as u16;
                        machine.insert_contiguous_bytes(
                            bytes.as_slice(),
                            destination_addr as usize,
                        );
                        machine.set_flag(Flag::Carry, false);
                        machine.set_reg_u16(Reg::AX, read_count);
                        proof {
                            let fl = crate::machine::flat_addr(old(machine)@.ds, old(machine)@.dx);
                            assert(machine@.mem =~= mem_with_bytes(
                                old(machine)@.mem,
                                fl as int,
                                bytes@,
                            ));
                        }
                    },
                    Err(error_code) => {
                        machine.set_flag(Flag::Carry, true);
                        machine.set_reg_u16(Reg::AX, error_code.code());
                    },
                }
            }
        } else if dos_int == 0x42 {
            let handle = machine.get_reg_u16(Reg::BX);
            let offset: u32 = (machine.get_reg_u16(Reg::CX) as u32) * 0x10000 + machine.get_reg_u16(
                Reg::DX,
            ) as u32;
            let al = machine.get_reg_u8(Reg::AX, RegHalf::Low);
            if al <= 2 {
                let origin_mode = if al == 0 {
                    crate::dos_file_system::DosFileSeekOrigin::Start
                } else if al == 1 {
                    crate::dos_file_system::DosFileSeekOrigin::Current
                } else {
                    crate::dos_file_system::DosFileSeekOrigin::End
                };
                match self.file_system.seek(handle, offset, origin_mode) {
                    Ok(new_file_position) => {
                        machine.set_flag(Flag::Carry, false);
                        machine.set_reg_u16(Reg::AX, (new_file_position % 0x10000) as u16);
                        machine.set_reg_u16(Reg::DX, (new_file_position / 0x10000) as u16);
                    },
                    Err(error_code) => {
                        machine.set_flag(Flag::Carry, true);
                        machine.set_reg_u16(Reg::AX, error_code.code());
                    },
                }
            } else {
                machine.set_flag(Flag::Carry, true);
                machine.set_reg_u16(
                    Reg::AX,
                    crate::dos_error_codes::DosErrorCode::InvalidData.code(),
                );
            }
        } else {
            // 0x44: I/O control; only the get-device-information stub acts
            let io_func = machine.get_reg_u8(Reg::AX, RegHalf::Low);
            if io_func == 0 {
                machine.set_reg_u16(Reg::AX, 1);
                machine.set_flag(Flag::Carry, true);
            }
        }
    }

    /// Services a software interrupt the guest raised. The per-interrupt
    /// contract below fixes the registers, flags, guest memory, file-system
    /// state, key queue and verdict after each service.
    pub fn handle_interrupt(&mut self, machine: &mut Machine, interrupt_index: u8)
        requires
            old(machine).inv(),
            crate::dos_file_system::fs_wf(old(self).file_system@),
            interrupt_supported(old(machine)@, old(self).video_mode, interrupt_index),
            interrupt_index == 0x21 && (reg_ah(old(machine)@) == 0x3c || reg_ah(old(machine)@)
                == 0x3d) ==> old(self).file_system@.cache.len() + old(
                self,
            ).file_system@.dir.len() + 2 <= 10000000,
        ensures
            final(machine).inv(),
            crate::dos_file_system::fs_wf(final(self).file_system@),
            handler_statics_unchanged(final(self), old(self)),
            final(self).port_states == old(self).port_states,
            interrupt_index != 0x16 ==> final(self).key_press_queue@ == old(self).key_press_queue@,
            interrupt_index != 0x21 ==> final(self).file_system@ == old(self).file_system@,
            interrupt_index == 0x08 ==> final(machine)@ == int08_machine(old(machine)@) && final(self).result == DosInterruptResult::ShouldReturn,
            interrupt_index == 0x10 ==> int10_rel(old(self).video_mode, old(machine)@, final(machine)@)
                && final(self).result == DosInterruptResult::ShouldReturn,
            interrupt_index == 0x14 || interrupt_index == 0x1c || interrupt_index == 0x33
                ==> final(machine)@ == old(machine)@ && final(self).result
                == DosInterruptResult::ShouldReturn,
            interrupt_index == 0x16 && reg_ah(old(machine)@) == 0 ==> (if old(self).key_press_queue@.len() > 0 {
                let key = old(self).key_press_queue@[0];
                &&& final(machine)@ == with_reg16(
                    old(machine)@,
                    Reg::AX,
                    (key.scan_code * 256 + key.ascii_char) as u16,
                )
                &&& final(self).key_press_queue@ == old(self).key_press_queue@.drop_first()
                &&& final(self).result == DosInterruptResult::ShouldReturn
            } else {
                &&& final(machine)@ == old(machine)@
                &&& final(self).key_press_queue@ == old(self).key_press_queue@
                &&& final(self).result == DosInterruptResult::ShouldBlockForKeypress
            }),
            interrupt_index == 0x16 && reg_ah(old(machine)@) == 1 ==> final(machine)@ == with_reg16(
                (MachineView { zero: false, ..old(machine)@ }),
                Reg::AX,
                0,
            ) && final(self).result == DosInterruptResult::ShouldReturn && final(self).key_press_queue@ == old(self).key_press_queue@,
            interrupt_index == 0x21 ==> int21_rel(
                old(self).file_system@,
                final(self).file_system@,
                old(self).centiseconds_since_start,
                old(machine)@,
                final(machine)@,
            ) && final(self).result == (if reg_ah(old(machine)@) == 0x2c {
                DosInterruptResult::ShouldReturnAndWaitForEvents
            } else {
                DosInterruptResult::ShouldReturn
            }),
    {
        self.result = DosInterruptResult::ShouldReturn;
        if interrupt_index == 0x08 {
            let timer_low = machine.peek_u16(BIOS_SYSTEM_TIMER_COUNTER_LOW);
            let timer_high = machine.peek_u16(BIOS_SYSTEM_TIMER_COUNTER_HIGH);
            let timer: u32 = timer_low as u32 + 0x10000 * timer_high as u32;
            let new_timer: u32 = if timer == 0xffff_ffff {
                0
            } else {
                timer + 1
            };
            proof {
                assert(timer == bda_timer(old(machine)@));
                assert(new_timer == timer_step(timer));
            }
            let new_timer_low: u16 = (new_timer % 0x10000) as u16;
            let new_timer_high: u16 = (new_timer / 0x10000) as u16;
            machine.poke_u16(BIOS_SYSTEM_TIMER_COUNTER_LOW, new_timer_low);
            machine.poke_u16(BIOS_SYSTEM_TIMER_COUNTER_HIGH, new_timer_high);
            machine.interrupt_on_next_step(0x1c);
        } else if interrupt_index == 0x10 {
            self.handle_interrupt_10h(machine);
        } else if interrupt_index == 0x14 {
            // serial port services: recorded, no action
        } else if interrupt_index == 0x16 {
            let key_int = machine.get_reg_u8(Reg::AX, RegHalf::High);
            if key_int == 0x00 {
                match self.key_press_queue.pop_front() {
                    Some(key_press_info) => {
                        machine.set_reg_u8(Reg::AX, RegHalf::High, key_press_info.scan_code);
                        machine.set_reg_u8(Reg::AX, RegHalf::Low, key_press_info.ascii_char);
                        proof {
                            let key = old(self).key_press_queue@[0];
                            assert(final(self).key_press_queue@ =~= old(self).key_press_queue@.drop_first());
                            assert(machine@ == with_reg16(
                                old(machine)@,
                                Reg::AX,
                                (key.scan_code * 256 + key.ascii_char) as u16,
                            ));
                        }
                    },
                    None => {
                        self.result = DosInterruptResult::ShouldBlockForKeypress;
                    },
                }
            } else {
                machine.set_flag(Flag::Zero, false);
                machine.set_reg_u16(Reg::AX, 0);
            }
        } else if interrupt_index == 0x1c {
            // user timer tick: a placeholder real programs hook
        } else if interrupt_index == 0x21 {
            self.handle_interrupt_21h(machine);
        } else {
            // 0x33 with AX=0: mouse-installed query, treated as a no-op
        }
    }
}

} // verus!
