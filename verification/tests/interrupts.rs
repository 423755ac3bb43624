use libpseudos::bios_loader::{
    initialise_bios_data_area, BIOS_SYSTEM_TIMER_COUNTER_LOW, BIOS_TEXT_COLUMN_COUNT,
};
use libpseudos::dos_event_handler::{
    DosEventHandler, DosInterruptResult, KeyPressInfo, MachineType, PortStates,
};
use libpseudos::dos_file_system::StandardDosFileSystem;
use libpseudos::machine::{Machine, Reg, RegHalf};
use std::collections::VecDeque;

fn new_handler() -> DosEventHandler {
    DosEventHandler {
        machine_type: MachineType::EGA,
        video_mode: MachineType::EGA.lookup_video_mode(3).unwrap(),
        port_states: PortStates::new(),
        file_system: StandardDosFileSystem::new(),
        centiseconds_since_start: 0,
        result: DosInterruptResult::ShouldReturn,
        key_press_queue: VecDeque::new(),
    }
}

fn chars(s: &str) -> Vec<char> {
    s.chars().collect()
}

#[test]
fn test_timer_tick_increments_and_requests_user_tick() {
    let mut handler = new_handler();
    let mut machine = Machine::new();
    machine.poke_u16(BIOS_SYSTEM_TIMER_COUNTER_LOW, 0x0005);
    handler.handle_interrupt(&mut machine, 0x08);
    assert_eq!(machine.peek_u16(BIOS_SYSTEM_TIMER_COUNTER_LOW), 0x0006);
    assert_eq!(machine.pending_interrupt, Some(0x1c));
    assert_eq!(handler.result, DosInterruptResult::ShouldReturn);
}

#[test]
fn test_timer_tick_wraps_at_32_bits() {
    let mut handler = new_handler();
    let mut machine = Machine::new();
    machine.poke_u16(BIOS_SYSTEM_TIMER_COUNTER_LOW, 0xffff);
    machine.poke_u16(BIOS_SYSTEM_TIMER_COUNTER_LOW + 2, 0xffff);
    handler.handle_interrupt(&mut machine, 0x08);
    assert_eq!(machine.peek_u16(BIOS_SYSTEM_TIMER_COUNTER_LOW), 0);
    assert_eq!(machine.peek_u16(BIOS_SYSTEM_TIMER_COUNTER_LOW + 2), 0);
}

#[test]
fn test_int21_get_system_time() {
    let mut handler = new_handler();
    handler.centiseconds_since_start = (3725.5_f64 * 100.0) as u64;
    let mut machine = Machine::new();
    machine.ax = 0x2c00;
    handler.handle_interrupt(&mut machine, 0x21);
    assert_eq!(machine.get_reg_u8(Reg::CX, RegHalf::High), 1);
    assert_eq!(machine.get_reg_u8(Reg::CX, RegHalf::Low), 2);
    assert_eq!(machine.get_reg_u8(Reg::DX, RegHalf::High), 5);
    assert_eq!(machine.get_reg_u8(Reg::DX, RegHalf::Low), 50);
    assert_eq!(handler.result, DosInterruptResult::ShouldReturnAndWaitForEvents);
}

#[test]
fn test_int21_interrupt_vector_round_trip() {
    let mut handler = new_handler();
    let mut machine = Machine::new();
    machine.ax = 0x2540;
    machine.dx = 0x1234;
    machine.ds = 0x5678;
    handler.handle_interrupt(&mut machine, 0x21);
    machine.ax = 0x3540;
    machine.bx = 0;
    machine.es = 0;
    handler.handle_interrupt(&mut machine, 0x21);
    assert_eq!(machine.bx, 0x1234);
    assert_eq!(machine.es, 0x5678);
}

#[test]
fn test_int10_full_clear() {
    let mut handler = new_handler();
    let mut machine = Machine::new();
    handler.init_machine(&mut machine);
    machine.ax = 0x0600;
    machine.bx = 0x1700;
    machine.cx = 0x0000;
    machine.dx = 0x184f;
    handler.handle_interrupt(&mut machine, 0x10);
    for cell in 0..(2000 * 2) {
        let b = machine.memory[0xb8000 + cell];
        if cell % 2 == 0 {
            assert_eq!(b, 0);
        } else {
            assert_eq!(b, 0x17);
        }
    }
}

#[test]
fn test_int10_scroll_moves_rows_up_by_one() {
    let mut handler = new_handler();
    let mut machine = Machine::new();
    handler.init_machine(&mut machine);
    // two marked rows in a three-row window
    machine.poke_u8(0xb8000 + (1 * 80 + 2) * 2, b'X');
    machine.poke_u8(0xb8000 + (1 * 80 + 2) * 2 + 1, 0x07);
    machine.poke_u8(0xb8000 + (2 * 80 + 2) * 2, b'Y');
    machine.ax = 0x0602;
    machine.bx = 0x2000;
    machine.cx = 0x0000;
    machine.dx = 0x024f;
    handler.handle_interrupt(&mut machine, 0x10);
    // the row below the top row moved up, even though two lines were asked
    assert_eq!(machine.memory[0xb8000 + (0 * 80 + 2) * 2], b'X');
    assert_eq!(machine.memory[0xb8000 + (0 * 80 + 2) * 2 + 1], 0x07);
    // the blanked rows carry the requested attribute
    assert_eq!(machine.memory[0xb8000 + (1 * 80 + 2) * 2], 0);
    assert_eq!(machine.memory[0xb8000 + (1 * 80 + 2) * 2 + 1], 0x20);
    assert_eq!(machine.memory[0xb8000 + (2 * 80 + 2) * 2], 0);
    assert_eq!(machine.memory[0xb8000 + (2 * 80 + 2) * 2 + 1], 0x20);
}

#[test]
fn test_int10_set_and_read_cursor() {
    let mut handler = new_handler();
    let mut machine = Machine::new();
    handler.init_machine(&mut machine);
    machine.ax = 0x0200;
    machine.bx = 0x0000;
    machine.dx = 0x0510;
    handler.handle_interrupt(&mut machine, 0x10);
    assert_eq!(machine.peek_u16(0x450), 0x0510);
}

#[test]
fn test_int10_read_character_cell() {
    let mut handler = new_handler();
    let mut machine = Machine::new();
    handler.init_machine(&mut machine);
    // row 3, column 4 in the fixed 80-column layout of the read service
    machine.poke_u8(0xb8000 + (3 * 80 + 4) * 2, b'Z');
    machine.poke_u8(0xb8000 + (3 * 80 + 4) * 2 + 1, 0x1e);
    machine.ax = 0x0800;
    machine.bx = 0x0403;
    handler.handle_interrupt(&mut machine, 0x10);
    assert_eq!(machine.get_reg_u8(Reg::AX, RegHalf::Low), b'Z');
    assert_eq!(machine.get_reg_u8(Reg::BX, RegHalf::High), 0x1e);
}

#[test]
fn test_int10_get_video_mode() {
    let mut handler = new_handler();
    let mut machine = Machine::new();
    handler.init_machine(&mut machine);
    machine.ax = 0x0f00;
    handler.handle_interrupt(&mut machine, 0x10);
    assert_eq!(machine.get_reg_u8(Reg::AX, RegHalf::High), 80);
    assert_eq!(machine.get_reg_u8(Reg::AX, RegHalf::Low), 3);
    assert_eq!(machine.get_reg_u8(Reg::BX, RegHalf::High), 0);
}

#[test]
fn test_int16_keypress_queue() {
    let mut handler = new_handler();
    let mut machine = Machine::new();
    machine.ax = 0x0000;
    handler.handle_interrupt(&mut machine, 0x16);
    assert_eq!(handler.result, DosInterruptResult::ShouldBlockForKeypress);
    handler.key_press_queue.push_back(KeyPressInfo { scan_code: 0x1c, ascii_char: 0x0d });
    handler.handle_interrupt(&mut machine, 0x16);
    assert_eq!(handler.result, DosInterruptResult::ShouldReturn);
    assert_eq!(machine.get_reg_u8(Reg::AX, RegHalf::High), 0x1c);
    assert_eq!(machine.get_reg_u8(Reg::AX, RegHalf::Low), 0x0d);
    assert!(handler.key_press_queue.is_empty());
}

#[test]
fn test_int21_open_read_close_through_dispatcher() {
    let mut handler = new_handler();
    handler.file_system.add_host_file(chars("HELLO.TXT"), b"HELLO WORLD".to_vec());
    let mut machine = Machine::new();
    // the file name, NUL terminated, at DS:DX = 0x2000:0
    let name = b"HELLO.TXT\0";
    for (i, b) in name.iter().enumerate() {
        machine.poke_u8(0x20000 + i as u32, *b);
    }
    machine.ds = 0x2000;
    machine.dx = 0;
    machine.ax = 0x3d00;
    handler.handle_interrupt(&mut machine, 0x21);
    assert!(!machine.carry);
    let handle = machine.ax;
    assert_eq!(handle, 1);
    // read five bytes to 0x3000:0
    machine.bx = handle;
    machine.cx = 5;
    machine.ds = 0x3000;
    machine.dx = 0;
    machine.ax = 0x3f00;
    handler.handle_interrupt(&mut machine, 0x21);
    assert!(!machine.carry);
    assert_eq!(machine.ax, 5);
    assert_eq!(&machine.memory[0x30000..0x30005], b"HELLO");
    // seek to the end: DX:AX = 0:0x0b
    machine.bx = handle;
    machine.cx = 0;
    machine.dx = 0;
    machine.ax = 0x4202;
    handler.handle_interrupt(&mut machine, 0x21);
    assert!(!machine.carry);
    assert_eq!(machine.ax, 0x0b);
    assert_eq!(machine.dx, 0);
}

#[test]
fn test_int21_bad_access_mode() {
    let mut handler = new_handler();
    let mut machine = Machine::new();
    machine.poke_u8(0x20000, 0);
    machine.ds = 0x2000;
    machine.dx = 0;
    machine.ax = 0x3d05;
    handler.handle_interrupt(&mut machine, 0x21);
    assert!(machine.carry);
    assert_eq!(machine.ax, 0x0c);
}

#[test]
fn test_int21_bad_seek_origin() {
    let mut handler = new_handler();
    let mut machine = Machine::new();
    machine.ax = 0x4203;
    machine.bx = 1;
    handler.handle_interrupt(&mut machine, 0x21);
    assert!(machine.carry);
    assert_eq!(machine.ax, 0x0d);
}

#[test]
fn test_int21_read_beyond_memory() {
    let mut handler = new_handler();
    let mut machine = Machine::new();
    machine.ds = 0xffff;
    machine.dx = 0x0010;
    machine.bx = 1;
    machine.cx = 1;
    machine.ax = 0x3f00;
    handler.handle_interrupt(&mut machine, 0x21);
    assert!(machine.carry);
    assert_eq!(machine.ax, 0x08);
}

#[test]
fn test_int21_ctrl_break_stub() {
    let mut handler = new_handler();
    let mut machine = Machine::new();
    machine.ax = 0x3300;
    machine.dx = 0x1234;
    handler.handle_interrupt(&mut machine, 0x21);
    assert_eq!(machine.dx, 0x1200);
}

#[test]
fn test_port_io() {
    let mut handler = new_handler();
    let mut machine = Machine::new();
    handler.handle_port_output(&mut machine, 0x61, 0x4a);
    assert_eq!(handler.handle_port_input(&mut machine, 0x61), 0x4a);
    assert_eq!(handler.handle_port_input(&mut machine, 0x201), 0xf0);
    handler.handle_port_output(&mut machine, 0x3d4, 0x0e);
    assert_eq!(handler.port_states.crt_index_register, 0x0e);
    handler.handle_port_output(&mut machine, 0x3d9, 0x30);
    assert_eq!(handler.port_states.cga_palette_register, 0x30);
}

#[test]
fn test_cga_retrace_cycling() {
    let mut handler = new_handler();
    let mut machine = Machine::new();
    handler.set_cga_vertial_retrace(true);
    assert_eq!(handler.port_states.cga_status_register, 0x8);
    // a read reports the latched status, then drops the vertical-retrace
    // bit and toggles the horizontal one
    assert_eq!(handler.handle_port_input(&mut machine, 0x3da), 0x8);
    assert_eq!(handler.port_states.cga_status_register, 0x1);
    assert_eq!(handler.handle_port_input(&mut machine, 0x3da), 0x1);
    assert_eq!(handler.port_states.cga_status_register, 0x0);
}

#[test]
fn test_initialise_bios_data_area_cells() {
    let mut machine = Machine::new();
    initialise_bios_data_area(&mut machine);
    assert_eq!(machine.peek_u16(0x410), 0x0061);
    assert_eq!(machine.peek_u16(0x413), 640);
    assert_eq!(machine.peek_u16(BIOS_TEXT_COLUMN_COUNT), 80);
    assert_eq!(machine.peek_u16(0x463), 0x3d4);
}

#[test]
fn test_lookup_video_mode() {
    assert!(MachineType::EGA.lookup_video_mode(3).is_ok());
    assert!(MachineType::EGA.lookup_video_mode(0x13).is_err());
    let mode = MachineType::EGA.lookup_video_mode(3).unwrap();
    assert_eq!(mode.text_dims, (80, 25));
    assert_eq!(mode.text_address, 0xb8000);
    assert_eq!(mode.text_page_bytes, 0x1000);
}

#[test]
fn test_read_null_terminated_string() {
    let mut machine = Machine::new();
    for (i, b) in b"DOS\0".iter().enumerate() {
        machine.poke_u8(0x500 + i as u32, *b);
    }
    assert_eq!(machine.read_null_terminated_string(0x500), b"DOS".to_vec());
}
