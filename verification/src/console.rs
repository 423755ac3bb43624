use crate::dos_event_handler::KeyPressInfo;
use vstd::prelude::*;

verus! {

/// The RGB value of a 4-bit VGA text colour.
pub open spec fn spec_vga_colour_to_rgb(colour: u8) -> (u8, u8, u8) {
    if colour == 0x0 {
        (0x00, 0x00, 0x00)
    } else if colour == 0x1 {
        (0x00, 0x00, 0xaa)
    } else if colour == 0x2 {
        (0x00, 0xaa, 0x00)
    } else if colour == 0x3 {
        (0x00, 0xaa, 0xaa)
    } else if colour == 0x4 {
        (0xaa, 0x00, 0x00)
    } else if colour == 0x5 {
        (0xaa, 0x00, 0xaa)
    } else if colour == 0x6 {
        (0xaa, 0x55, 0x00)
    } else if colour == 0x7 {
        (0xaa, 0xaa, 0xaa)
    } else if colour == 0x8 {
        (0x55, 0x55, 0x55)
    } else if colour == 0x9 {
        (0x55, 0x55, 0xff)
    } else if colour == 0xa {
        (0x55, 0xff, 0x55)
    } else if colour == 0xb {
        (0x55, 0xff, 0xff)
    } else if colour == 0xc {
        (0xff, 0x55, 0x55)
    } else if colour == 0xd {
        (0xff, 0x55, 0xff)
    } else if colour == 0xe {
        (0xff, 0xff, 0x55)
    } else if colour == 0xf {
        (0xff, 0xff, 0xff)
    } else {
        (0, 0, 0)
    }
}

/// Maps a 4-bit VGA text colour to the RGB value the renderer paints.
pub fn vga_colour_to_rgb(colour: u8) -> (r: (u8, u8, u8))
    ensures
        r == spec_vga_colour_to_rgb(colour),
{
    match colour {
        0x0 => (0x00, 0x00, 0x00),
        0x1 => (0x00, 0x00, 0xaa),
        0x2 => (0x00, 0xaa, 0x00),
        0x3 => (0x00, 0xaa, 0xaa),
        0x4 => (0xaa, 0x00, 0x00),
        0x5 => (0xaa, 0x00, 0xaa),
        0x6 => (0xaa, 0x55, 0x00),
        0x7 => (0xaa, 0xaa, 0xaa),
        0x8 => (0x55, 0x55, 0x55),
        0x9 => (0x55, 0x55, 0xff),
        0xa => (0x55, 0xff, 0x55),
        0xb => (0x55, 0xff, 0xff),
        0xc => (0xff, 0x55, 0x55),
        0xd => (0xff, 0x55, 0xff),
        0xe => (0xff, 0xff, 0x55),
        0xf => (0xff, 0xff, 0xff),
        _ => (0, 0, 0),
    }
}

/// The keyboard scan code the letter row/column layout assigns to a
/// lower-case letter byte.
pub open spec fn spec_letter_scan_code(b: u8) -> u8 {
    if b == 113 {
        0x10  // q
    } else if b == 119 {
        0x11  // w
    } else if b == 101 {
        0x12  // e
    } else if b == 114 {
        0x13  // r
    } else if b == 116 {
        0x14  // t
    } else if b == 121 {
        0x15  // y
    } else if b == 117 {
        0x16  // u
    } else if b == 105 {
        0x17  // i
    } else if b == 111 {
        0x18  // o
    } else if b == 112 {
        0x19  // p
    } else if b == 97 {
        0x1a  // a
    } else if b == 115 {
        0x1b  // s
    } else if b == 100 {
        0x1c  // d
    } else if b == 102 {
        0x1d  // f
    } else if b == 103 {
        0x1e  // g
    } else if b == 104 {
        0x1f  // h
    } else if b == 106 {
        0x20  // j
    } else if b == 107 {
        0x21  // k
    } else if b == 108 {
        0x22  // l
    } else if b == 122 {
        0x23  // z
    } else if b == 120 {
        0x24  // x
    } else if b == 99 {
        0x25  // c
    } else if b == 118 {
        0x26  // v
    } else if b == 98 {
        0x27  // b
    } else if b == 110 {
        0x28  // n
    } else {
        0x29  // m
    }
}

fn letter_scan_code(b: u8) -> (r: u8)
    requires
        97 <= b <= 122,
    ensures
        r == spec_letter_scan_code(b),
{
    if b == 113 {
        0x10
    } else if b == 119 {
        0x11
    } else if b == 101 {
        0x12
    } else if b == 114 {
        0x13
    } else if b == 116 {
        0x14
    } else if b == 121 {
        0x15
    } else if b == 117 {
        0x16
    } else if b == 105 {
        0x17
    } else if b == 111 {
        0x18
    } else if b == 112 {
        0x19
    } else if b == 97 {
        0x1a
    } else if b == 115 {
        0x1b
    } else if b == 100 {
        0x1c
    } else if b == 102 {
        0x1d
    } else if b == 103 {
        0x1e
    } else if b == 104 {
        0x1f
    } else if b == 106 {
        0x20
    } else if b == 107 {
        0x21
    } else if b == 108 {
        0x22
    } else if b == 122 {
        0x23
    } else if b == 120 {
        0x24
    } else if b == 99 {
        0x25
    } else if b == 118 {
        0x26
    } else if b == 98 {
        0x27
    } else if b == 110 {
        0x28
    } else {
        0x29
    }
}

/// The scan code and the plain and shifted ASCII bytes for a host key,
/// given as its 32-bit keyboard code; `None` for keys the layer does not
/// translate. Letters and function keys are recognized by the low byte of
/// the key code, the named keys by their full value.
pub open spec fn spec_scancode_to_key_info(keycode: u32, shifted: bool) -> Option<KeyPressInfo> {
    let key_index = (keycode % 256) as u8;
    let triple: Option<(u8, u8, u8)> = if 97 <= key_index <= 122 {
        Some((spec_letter_scan_code(key_index), key_index, (key_index + 0x20) as u8))
    } else if keycode == 47 {
        Some((0x35, 0x2f, 0x3f))
    } else if keycode == 0x40000051 {
        Some((0x50, 0, 0x32))
    } else if keycode == 0x40000052 {
        Some((0x48, 0, 0x38))
    } else if keycode == 0x40000050 {
        Some((0x4b, 0, 0x34))
    } else if keycode == 0x4000004f {
        Some((0x4d, 0, 0x36))
    } else if keycode == 13 {
        Some((0x1c, 0x0d, 0x0d))
    } else if keycode == 27 {
        Some((0x01, 0x1b, 0x1b))
    } else if keycode == 32 {
        Some((0x39, 0x20, 0x20))
    } else if keycode == 9 {
        Some((0x0f, 0x09, 0))
    } else if keycode == 0x4000004b {
        Some((0x49, 0, 0x39))
    } else if keycode == 0x4000004e {
        Some((0x51, 0, 0x33))
    } else if 58 <= key_index <= 69 {
        Some(((0x3b + (key_index - 58)) as u8, 0, 0))
    } else {
        None
    };
    match triple {
        None => None,
        Some((scan_code, ascii_char, shifted_ascii_char)) => Some(
            KeyPressInfo {
                scan_code,
                ascii_char: if shifted {
                    shifted_ascii_char
                } else {
                    ascii_char
                },
            },
        ),
    }
}

/// Translates a host keyboard code into the scan-code/ASCII pair INT 16h
/// reports, honouring the shift state.
pub fn scancode_to_key_info(keycode: u32, shifted: bool) -> (r: Option<KeyPressInfo>)
    ensures
        r == spec_scancode_to_key_info(keycode, shifted),
{
    let key_index = (keycode % 256) as u8;
    let triple: Option<(u8, u8, u8)> = if 97 <= key_index && key_index <= 122 {
        Some((letter_scan_code(key_index), key_index, key_index + 0x20))
    } else if keycode == 47 {
        Some((0x35, 0x2f, 0x3f))
    } else if keycode == 0x40000051 {
        Some((0x50, 0, 0x32))
    } else if keycode == 0x40000052 {
        Some((0x48, 0, 0x38))
    } else if keycode == 0x40000050 {
        Some((0x4b, 0, 0x34))
    } else if keycode == 0x4000004f {
        Some((0x4d, 0, 0x36))
    } else if keycode == 13 {
        Some((0x1c, 0x0d, 0x0d))
    } else if keycode == 27 {
        Some((0x01, 0x1b, 0x1b))
    } else if keycode == 32 {
        Some((0x39, 0x20, 0x20))
    } else if keycode == 9 {
        Some((0x0f, 0x09, 0))
    } else if keycode == 0x4000004b {
        Some((0x49, 0, 0x39))
    } else if keycode == 0x4000004e {
        Some((0x51, 0, 0x33))
    } else if 58 <= key_index && key_index <= 69 {
        Some((0x3b + (key_index - 58), 0, 0))
    } else {
        None
    };
    match triple {
        None => None,
        Some((scan_code, ascii_char, shifted_ascii_char)) => Some(
            KeyPressInfo {
                scan_code,
                ascii_char: if shifted {
                    shifted_ascii_char
                } else {
                    ascii_char
                },
            },
        ),
    }
}

/// Milliseconds in a duration given as whole seconds and the millisecond
/// remainder.
pub fn get_ms_from_duration(seconds: u64, subsec_millis: u32) -> (r: usize)
    requires
        seconds * 1000 + subsec_millis <= usize::MAX,
    ensures
        r == seconds * 1000 + subsec_millis,
{
    (seconds * 1000) as usize + subsec_millis as usize
}

} // verus!
