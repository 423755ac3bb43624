use vstd::prelude::*;

verus! {

/// DOS error taxonomy exposed to the guest in AX when the carry flag is set.
#[derive(Debug, Clone, Copy, PartialEq, Eq, Structural)]
pub enum DosErrorCode {
    FileNotFound,
    PathNotFound,
    NoFileHandlesLeft,
    AccessDenied,
    InvalidFileHandle,
    InsufficientMemory,
    InvalidFileAccessMode,
    InvalidData,
    NoMoreFiles,
    FileAlreadyExists,
}

/// The numeric code DOS reports for each error kind.
pub open spec fn spec_error_code(code: DosErrorCode) -> u16 {
    match code {
        DosErrorCode::FileNotFound => 0x02,
        DosErrorCode::PathNotFound => 0x03,
        DosErrorCode::NoFileHandlesLeft => 0x04,
        DosErrorCode::AccessDenied => 0x05,
        DosErrorCode::InvalidFileHandle => 0x06,
        DosErrorCode::InsufficientMemory => 0x08,
        DosErrorCode::InvalidFileAccessMode => 0x0c,
        DosErrorCode::InvalidData => 0x0d,
        DosErrorCode::NoMoreFiles => 0x12,
        DosErrorCode::FileAlreadyExists => 0x50,
    }
}

impl DosErrorCode {
    /// Numeric value placed in AX for the guest.
    pub fn code(self) -> (r: u16)
        ensures
            r == spec_error_code(self),
    {
        match self {
            DosErrorCode::FileNotFound => 0x02,
            DosErrorCode::PathNotFound => 0x03,
            DosErrorCode::NoFileHandlesLeft => 0x04,
            DosErrorCode::AccessDenied => 0x05,
            DosErrorCode::InvalidFileHandle => 0x06,
            DosErrorCode::InsufficientMemory => 0x08,
            DosErrorCode::InvalidFileAccessMode => 0x0c,
            DosErrorCode::InvalidData => 0x0d,
            DosErrorCode::NoMoreFiles => 0x12,
            DosErrorCode::FileAlreadyExists => 0x50,
        }
    }
}

} // verus!
