use libpseudos::console::{get_ms_from_duration, scancode_to_key_info, vga_colour_to_rgb};
use libpseudos::exe_loader::{initialise_dos_program_segment_prefix, MzHeader};
use libpseudos::machine::Machine;

fn header_bytes() -> Vec<u8> {
    // signature "MZ", 16 bytes in the last block, 2 blocks, no relocations,
    // 2 header paragraphs, memory range, SS=1, SP=0x100, checksum 0, IP=5,
    // CS=2, relocation table at 0x1c, no overlay
    let words: [u16; 15] = [
        0x5a4d, 16, 2, 0, 2, 0, 0xffff, 1, 0x100, 0, 5, 2, 0x1c, 0, 0,
    ];
    let mut bytes = Vec::new();
    for w in words {
        bytes.push((w & 0xff) as u8);
        bytes.push((w >> 8) as u8);
    }
    bytes
}

#[test]
fn test_mz_header_parse() {
    let bytes = header_bytes();
    let header = MzHeader::parse(&bytes).unwrap();
    assert_eq!(header.signature, 0x5a4d);
    assert_eq!(header.last_block_bytes, 16);
    assert_eq!(header.file_block_count, 2);
    assert_eq!(header.header_paragraph_count, 2);
    assert_eq!(header.initial_ss, 1);
    assert_eq!(header.initial_sp, 0x100);
    assert_eq!(header.initial_ip, 5);
    assert_eq!(header.initial_cs, 2);
    assert_eq!(MzHeader::byte_size(), 28);
}

#[test]
fn test_mz_header_parse_too_short() {
    assert!(MzHeader::parse(&[0x4d, 0x5a, 0x00]).is_err());
}

#[test]
fn test_mz_data_bounds() {
    let header = MzHeader::parse(&header_bytes()).unwrap();
    // data runs from the end of the header paragraphs to the last block's
    // used bytes: 2 blocks of 512 less the 496 unused tail bytes
    assert_eq!(header.data_start(), 32);
    assert_eq!(header.data_end(), 2 * 512 - (512 - 16));
}

#[test]
fn test_mz_extract_data_zero_fills() {
    let header = MzHeader::parse(&header_bytes()).unwrap();
    let mut file = header_bytes();
    file.resize(40, 0xab);
    let data = header.extract_data(&file);
    assert_eq!(data.len(), 528 - 32);
    assert_eq!(data[0], 0xab);
    assert_eq!(data[7], 0xab);
    assert_eq!(data[8], 0);
    assert_eq!(data[data.len() - 1], 0);
}

#[test]
fn test_load_into_machine() {
    let header = MzHeader::parse(&header_bytes()).unwrap();
    let mut file = header_bytes();
    file.resize(40, 0xab);
    let mut machine = Machine::new();
    header.load_into_machine(&mut machine, &file);
    assert_eq!(machine.sp, 0x100);
    assert_eq!(machine.ip, 5);
    assert_eq!(machine.ss, 1 + 0x110);
    assert_eq!(machine.cs, 2 + 0x110);
    assert_eq!(machine.ds, 0x100);
    assert_eq!(machine.es, 0x100);
    // the image lands one PSP past the origin paragraph
    assert_eq!(machine.memory[0x1100], 0xab);
    // BIOS data area: 80 text columns
    assert_eq!(machine.peek_u16(0x44a), 80);
    // PSP: segment after the program, tail length 1, CR terminator
    assert_eq!(machine.peek_u16(0x1002), 0xa000);
    assert_eq!(machine.memory[0x1080], 1);
    assert_eq!(machine.memory[0x1081], 0x0d);
}

#[test]
fn test_psp_rejects_long_command_tail() {
    let mut machine = Machine::new();
    let tail = vec![b'x'; 255];
    assert!(initialise_dos_program_segment_prefix(&mut machine, 0, &tail).is_err());
    let short_tail = b"/a".to_vec();
    assert!(initialise_dos_program_segment_prefix(&mut machine, 0, &short_tail).is_ok());
    assert_eq!(machine.memory[0x1080], 3);
    assert_eq!(machine.memory[0x1081], b'/');
    assert_eq!(machine.memory[0x1082], b'a');
    assert_eq!(machine.memory[0x1083], 0x0d);
}

#[test]
fn test_vga_colour_table() {
    assert_eq!(vga_colour_to_rgb(0x0), (0x00, 0x00, 0x00));
    assert_eq!(vga_colour_to_rgb(0x1), (0x00, 0x00, 0xaa));
    assert_eq!(vga_colour_to_rgb(0x6), (0xaa, 0x55, 0x00));
    assert_eq!(vga_colour_to_rgb(0x7), (0xaa, 0xaa, 0xaa));
    assert_eq!(vga_colour_to_rgb(0xf), (0xff, 0xff, 0xff));
    assert_eq!(vga_colour_to_rgb(0x99), (0, 0, 0));
}

#[test]
fn test_scancode_translation() {
    let q = scancode_to_key_info('q' as u32, false).unwrap();
    assert_eq!((q.scan_code, q.ascii_char), (0x10, b'q'));
    let shifted_a = scancode_to_key_info('a' as u32, true).unwrap();
    assert_eq!((shifted_a.scan_code, shifted_a.ascii_char), (0x1a, 0x81));
    let ret = scancode_to_key_info(13, false).unwrap();
    assert_eq!((ret.scan_code, ret.ascii_char), (0x1c, 0x0d));
    let down = scancode_to_key_info(0x40000051, false).unwrap();
    assert_eq!((down.scan_code, down.ascii_char), (0x50, 0));
    let f1 = scancode_to_key_info(0x4000003a, false).unwrap();
    assert_eq!((f1.scan_code, f1.ascii_char), (0x3b, 0));
    assert!(scancode_to_key_info(0x40000039, false).is_none());
}

#[test]
fn test_get_ms_from_duration() {
    assert_eq!(get_ms_from_duration(2, 250), 2250);
    assert_eq!(get_ms_from_duration(0, 0), 0);
}
