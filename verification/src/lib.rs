//! DOS/BIOS personality layer for an 8086 emulator: BIOS data area and
//! interrupt services, DOS file calls over a host directory with 8.3 name
//! translation, MZ executable loading, and port I/O latching.

pub mod bios_loader;
pub mod console;
pub mod dos_error_codes;
pub mod dos_event_handler;
pub mod dos_file_system;
pub mod exe_loader;
pub mod machine;
