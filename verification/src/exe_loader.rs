use crate::bios_loader::{initialise_bios_data_area, spec_initialised_bios_data_area};
use crate::dos_event_handler::mem_with_bytes;
use crate::machine::{
    with_reg16, with_word_at, word_at, Machine, MachineView, Reg, MEMORY_BYTES,
};
use vstd::prelude::*;
use vstd::string::StringExecFns;

verus! {

/// Bytes per paragraph.
pub const EXE_PARAGRAPH_BYTES: usize = 16;

/// The Program Segment Prefix is 256 bytes, sixteen paragraphs.
pub const EXE_PROGRAM_SEGMENT_PREFIX_PARAGRAPHS: usize = 16;

/// Bytes per MZ file block.
pub const EXE_BLOCK_BYTES: usize = 512;

/// The paragraph where the executable image is placed.
pub const EXE_ORIGIN_PARAGRAPH: usize = 0x100;

/// The 28-byte MZ executable header, fields in file order, little-endian.
#[derive(Debug, Clone, Copy, PartialEq, Eq, Structural)]
pub struct MzHeader {
    pub signature: u16,
    pub last_block_bytes: u16,
    pub file_block_count: u16,
    pub relocation_items: u16,
    pub header_paragraph_count: u16,
    pub minimum_memory_paragraphs: u16,
    pub maximum_memory_paragraphs: u16,
    pub initial_ss: u16,
    pub initial_sp: u16,
    pub checksum: u16,
    pub initial_ip: u16,
    pub initial_cs: u16,
    pub relocation_table: u16,
    pub overlay: u16,
    pub overlay_information: u16,
}

/// The header the first 28 bytes of an MZ file parse to.
pub open spec fn spec_parse_mz(d: Seq<u8>) -> MzHeader {
    MzHeader {
        signature: word_at(d, 0),
        last_block_bytes: word_at(d, 2),
        file_block_count: word_at(d, 4),
        relocation_items: word_at(d, 6),
        header_paragraph_count: word_at(d, 8),
        minimum_memory_paragraphs: word_at(d, 10),
        maximum_memory_paragraphs: word_at(d, 12),
        initial_ss: word_at(d, 14),
        initial_sp: word_at(d, 16),
        checksum: word_at(d, 18),
        initial_ip: word_at(d, 20),
        initial_cs: word_at(d, 22),
        relocation_table: word_at(d, 24),
        overlay: word_at(d, 26),
        overlay_information: word_at(d, 28),
    }
}

fn read_word(data: &[u8], off: usize) -> (r: u16)
    requires
        off + 1 < data@.len(),
    ensures
        r == word_at(data@, off as int),
{
    data[off] as u16 + 256 * data[off + 1] as u16
}

/// First byte of the image inside the file.
pub open spec fn spec_data_start(h: MzHeader) -> int {
    h.header_paragraph_count * 16
}

/// One past the last byte of the image inside the file.
pub open spec fn spec_data_end(h: MzHeader) -> int {
    (h.file_block_count * 512) - (if h.last_block_bytes > 0 {
        512 - h.last_block_bytes
    } else {
        0
    })
}

/// The image bytes of the file: the bytes from the data start to the data
/// end, zero-filled where the file is shorter.
pub open spec fn spec_extract_data(h: MzHeader, file: Seq<u8>) -> Seq<u8> {
    Seq::new(
        (spec_data_end(h) - spec_data_start(h)) as nat,
        |i: int|
            if spec_data_start(h) + i < file.len() {
                file[spec_data_start(h) + i]
            } else {
                0
            },
    )
}

impl MzHeader {
    /// The header's size in the file.
    pub fn byte_size() -> (r: usize)
        ensures
            r == 28,
    {
        28
    }

    /// Parses the header from the start of an MZ file's bytes; a file too
    /// short for every header field is refused.
    pub fn parse(data: &[u8]) -> (r: Result<MzHeader, String>)
        ensures
            data@.len() >= 30 <==> r is Ok,
            r matches Ok(h) ==> h == spec_parse_mz(data@),
    {
        if data.len() < 30 {
            return Err(String::from_str("too short for an MZ executable header"));
        }
        Ok(
            MzHeader {
                signature: read_word(data, 0),
                last_block_bytes: read_word(data, 2),
                file_block_count: read_word(data, 4),
                relocation_items: read_word(data, 6),
                header_paragraph_count: read_word(data, 8),
                minimum_memory_paragraphs: read_word(data, 10),
                maximum_memory_paragraphs: read_word(data, 12),
                initial_ss: read_word(data, 14),
                initial_sp: read_word(data, 16),
                checksum: read_word(data, 18),
                initial_ip: read_word(data, 20),
                initial_cs: read_word(data, 22),
                relocation_table: read_word(data, 24),
                overlay: read_word(data, 26),
                overlay_information: read_word(data, 28),
            },
        )
    }

    /// First byte of the image inside the file: the header paragraphs.
    pub fn data_start(&self) -> (r: usize)
        ensures
            r == spec_data_start(*self),
    {
        self.header_paragraph_count as usize * EXE_PARAGRAPH_BYTES
    }

    /// One past the last image byte: whole blocks, less the unused tail of
    /// the last block.
    pub fn data_end(&self) -> (r: usize)
        requires
            self.last_block_bytes <= 512,
            self.file_block_count > 0 || self.last_block_bytes == 0,
        ensures
            r == spec_data_end(*self),
    {
        let subtract_bytes: usize = if self.last_block_bytes > 0 {
            EXE_BLOCK_BYTES - self.last_block_bytes as usize
        } else {
            0
        };
        (self.file_block_count as usize * EXE_BLOCK_BYTES) - subtract_bytes
    }

    /// Copies the image bytes out of the file, zero-filling past its end.
    pub fn extract_data(&self, file: &[u8]) -> (r: Vec<u8>)
        requires
            self.last_block_bytes <= 512,
            self.file_block_count > 0 || self.last_block_bytes == 0,
            spec_data_start(*self) <= spec_data_end(*self),
        ensures
            r@ == spec_extract_data(*self, file@),
    {
        let start = self.data_start();
        let end = self.data_end();
        let mut result: Vec<u8> = Vec::new();
        let mut i: usize = 0;
        while i < end - start
            invariant
                i <= end - start,
                start == spec_data_start(*self),
                end == spec_data_end(*self),
                start <= end,
                result@.len() == i,
                forall|j: int|
                    0 <= j < i ==> result@[j] == (if start + j < file@.len() {
                        file@[start + j]
                    } else {
                        0u8
                    }),
            decreases end - start - i,
        {
            if start + i < file.len() {
                result.push(file[start + i]);
            } else {
                result.push(0);
            }
            i += 1;
        }
        proof {
            assert(result@ =~= spec_extract_data(*self, file@));
        }
        result
    }
}

/// The machine after the Program Segment Prefix is laid down at paragraph
/// 0x100: the segment after the program at +2, and the command tail length,
/// bytes and CR terminator from +0x80 on. A tail longer than 254 bytes is
/// refused after the segment word was already placed.
pub open spec fn spec_psp_machine(m: MachineView, tail: Seq<u8>) -> MachineView {
    let m1 = MachineView { mem: with_word_at(m.mem, 0x1002, 0xa000), ..m };
    if tail.len() + 1 > 0xff {
        m1
    } else {
        MachineView {
            mem: mem_with_bytes(
                m1.mem.update(0x1080, (tail.len() + 1) as u8),
                0x1081,
                tail.push(0x0d),
            ),
            ..m1
        }
    }
}

/// Writes the Program Segment Prefix for a program with command tail
/// `command_line_tail`.
pub fn initialise_dos_program_segment_prefix(
    machine: &mut Machine,
    program_size: usize,
    command_line_tail: &[u8],
) -> (r: Result<(), String>)
    requires
        old(machine).inv(),
    ensures
        final(machine).inv(),
        final(machine)@ == spec_psp_machine(old(machine)@, command_line_tail@),
        r is Ok <==> command_line_tail@.len() + 1 <= 0xff,
{
    let psp_start: u32 = (EXE_ORIGIN_PARAGRAPH * EXE_PARAGRAPH_BYTES) as u32;
    machine.poke_u16(psp_start + 0x02, 0xa000);
    if command_line_tail.len() >= 0xff {
        return Err(String::from_str("command line tail too long"));
    }
    let command_line_tail_len = command_line_tail.len() + 1;
    machine.poke_u8(psp_start + 0x80, command_line_tail_len as u8);
    let mut current_command_line_pos: u32 = psp_start + 0x81;
    let ghost mem1 = machine@.mem;
    let mut i: usize = 0;
    while i < command_line_tail.len()
        invariant
            machine.inv(),
            i <= command_line_tail@.len(),
            command_line_tail@.len() <= 0xfe,
            current_command_line_pos == 0x1081 + i,
            crate::machine::same_except_mem(machine@, old(machine)@),
            machine@.mem.len() == mem1.len(),
            forall|j: int| 0 <= j < i ==> machine@.mem[0x1081 + j] == command_line_tail@[j],
            forall|a: int|
                0 <= a < MEMORY_BYTES && !(0x1081 <= a < 0x1081 + i) ==> machine@.mem[a] == mem1[a],
        decreases command_line_tail@.len() - i,
    {
        machine.poke_u8(current_command_line_pos, command_line_tail[i]);
        current_command_line_pos += 1;
        i += 1;
    }
    machine.poke_u8(current_command_line_pos, 0x0d);
    proof {
        assert(machine@.mem =~= spec_psp_machine(old(machine)@, command_line_tail@).mem);
    }
    Ok(())
}

/// The machine after an MZ image is loaded: stack and instruction pointers
/// from the header, segments rebased past the PSP, the image bytes at
/// 0x11000, and the BIOS data area and PSP initialized.
pub open spec fn spec_loaded_machine(m: MachineView, h: MzHeader, file: Seq<u8>) -> MachineView {
    let m1 = with_reg16(
        with_reg16(
            with_reg16(
                with_reg16(
                    with_reg16(
                        with_reg16(m, Reg::SP, h.initial_sp),
                        Reg::IP,
                        h.initial_ip,
                    ),
                    Reg::SS,
                    (h.initial_ss + 0x110) as u16,
                ),
                Reg::CS,
                (h.initial_cs + 0x110) as u16,
            ),
            Reg::DS,
            0x100,
        ),
        Reg::ES,
        0x100,
    );
    let m2 = MachineView {
        mem: mem_with_bytes(m1.mem, 0x1100, spec_extract_data(h, file)),
        ..m1
    };
    spec_psp_machine(spec_initialised_bios_data_area(m2), Seq::empty())
}

impl MzHeader {
    /// Loads the executable into the machine: registers, image bytes, BIOS
    /// data area and an empty-command-tail PSP.
    pub fn load_into_machine(&self, machine: &mut Machine, file: &[u8])
        requires
            old(machine).inv(),
            self.last_block_bytes <= 512,
            self.file_block_count > 0 || self.last_block_bytes == 0,
            spec_data_start(*self) <= spec_data_end(*self),
            self.initial_ss + 0x110 <= 0xffff,
            self.initial_cs + 0x110 <= 0xffff,
            0x1100 + (spec_data_end(*self) - spec_data_start(*self)) <= MEMORY_BYTES,
        ensures
            final(machine).inv(),
            final(machine)@ == spec_loaded_machine(old(machine)@, *self, file@),
    {
        machine.set_reg_u16(Reg::SP, self.initial_sp);
        machine.set_reg_u16(Reg::IP, self.initial_ip);
        let segment_offset: u16 = (EXE_ORIGIN_PARAGRAPH + EXE_PROGRAM_SEGMENT_PREFIX_PARAGRAPHS)
            as u16;
        machine.set_reg_u16(Reg::SS, self.initial_ss + segment_offset);
        machine.set_reg_u16(Reg::CS, self.initial_cs + segment_offset);
        machine.set_reg_u16(Reg::DS, EXE_ORIGIN_PARAGRAPH as u16);
        machine.set_reg_u16(Reg::ES, EXE_ORIGIN_PARAGRAPH as u16);
        let exe_data = self.extract_data(file);
        machine.insert_contiguous_bytes(
            exe_data.as_slice(),
            (EXE_ORIGIN_PARAGRAPH + 16) * EXE_PARAGRAPH_BYTES,
        );
        proof {
            let m1 = spec_loaded_machine(old(machine)@, *self, file@);
            assert(machine@.mem =~= mem_with_bytes(
                old(machine)@.mem,
                0x1100,
                spec_extract_data(*self, file@),
            ));
        }
        initialise_bios_data_area(machine);
        let empty_tail: Vec<u8> = Vec::new();
        let _ = initialise_dos_program_segment_prefix(machine, exe_data.len(), empty_tail.as_slice());
        proof {
            assert(empty_tail@ =~= Seq::<u8>::empty());
            assert(machine@ == spec_loaded_machine(old(machine)@, *self, file@));
        }
    }
}

} // verus!
