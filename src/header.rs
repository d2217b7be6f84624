//! The blob's header: ten big-endian words that locate its blocks.

use vstd::prelude::*;
use crate::parse::{be_u32, read_be_u32};

verus! {

/// The word that every blob begins with.
pub const FDT_HEADER_MAGIC: u32 = 0xD00D_FEED;

/// The newest layout version that this decoder reads.
pub const VERSION_PARSED: u32 = 17;

/// The size of the header in bytes.
pub const HEADER_SIZE: usize = 40;

/// Word `i` of the blob `b`.
pub open spec fn word(b: Seq<u8>, i: int) -> u32 {
    be_u32(b.subrange(4 * i, 4 * i + 4)) as u32
}

/// The fields of the header.
#[derive(Debug, Clone, Copy, PartialEq, Eq)]
pub struct Header {
    pub total_size: u32,
    pub off_dt_struct: u32,
    pub off_dt_strings: u32,
    pub off_mem_rsvmap: u32,
    pub version: u32,
    pub last_comp_version: u32,
    pub boot_cpuid_phys: u32,
    pub size_dt_strings: u32,
    pub size_dt_struct: u32,
}

/// Errors that the header can give.
#[derive(Debug, Clone, Copy, PartialEq, Eq)]
pub enum HeaderError {
    /// The blob ends before the header or before its total size.
    EoF,
    /// The first word is not the magic word.
    Magic,
    /// The layout is newer than this decoder reads: `(version, last_comp_version)`.
    NewerVersion(u32, u32),
    /// The structure block's offset or size is not a multiple of four.
    Alignment,
    /// An offset and a size overflow.
    Size,
    /// The structure block `(offset, size)` reaches past the blob.
    StructIndex(u32, u32),
    /// The strings block `(offset, size)` reaches past the blob.
    StringsIndex(u32, u32),
}

/// The header that the words of `b` give.
pub open spec fn header_of(b: Seq<u8>) -> Header {
    Header {
        total_size: word(b, 1),
        off_dt_struct: word(b, 2),
        off_dt_strings: word(b, 3),
        off_mem_rsvmap: word(b, 4),
        version: word(b, 5),
        last_comp_version: word(b, 6),
        boot_cpuid_phys: word(b, 7),
        size_dt_strings: word(b, 8),
        size_dt_struct: word(b, 9),
    }
}

/// What validating the header of the blob `b` gives: the header, or the
/// first check that fails, in the order magic, size, version, alignment,
/// structure block bounds, strings block bounds.
pub open spec fn check_header(b: Seq<u8>) -> Result<Header, HeaderError> {
    let h = header_of(b);
    if b.len() < 8 {
        Err(HeaderError::EoF)
    } else if word(b, 0) != FDT_HEADER_MAGIC {
        Err(HeaderError::Magic)
    } else if b.len() < h.total_size || h.total_size < HEADER_SIZE {
        Err(HeaderError::EoF)
    } else if h.last_comp_version > VERSION_PARSED {
        Err(HeaderError::NewerVersion(h.version, h.last_comp_version))
    } else if h.off_dt_struct % 4 != 0 || h.size_dt_struct % 4 != 0 {
        Err(HeaderError::Alignment)
    } else if h.off_dt_struct + h.size_dt_struct > usize::MAX {
        Err(HeaderError::Size)
    } else if h.off_dt_struct + h.size_dt_struct > h.total_size {
        Err(HeaderError::StructIndex(h.off_dt_struct, h.size_dt_struct))
    } else if h.off_dt_strings + h.size_dt_strings > usize::MAX {
        Err(HeaderError::Size)
    } else if h.off_dt_strings + h.size_dt_strings > h.total_size {
        Err(HeaderError::StringsIndex(h.off_dt_strings, h.size_dt_strings))
    } else {
        Ok(h)
    }
}

impl Header {
    /// Reads and validates the header at the start of `b`.
    pub fn parse(b: &[u8]) -> (r: Result<Header, HeaderError>)
        ensures
            r == check_header(b@),
    {
        if b.len() < 8 {
            return Err(HeaderError::EoF);
        }
        let magic = read_be_u32(b, 0);
        assert(b@.subrange(0, 4) == b@.subrange(4 * 0int, 4 * 0int + 4));
        if magic != FDT_HEADER_MAGIC {
            return Err(HeaderError::Magic);
        }
        let total_size = read_be_u32(b, 4);
        if b.len() < total_size as usize || (total_size as usize) < HEADER_SIZE {
            return Err(HeaderError::EoF);
        }
        let h = Header {
            total_size,
            off_dt_struct: read_be_u32(b, 8),
            off_dt_strings: read_be_u32(b, 12),
            off_mem_rsvmap: read_be_u32(b, 16),
            version: read_be_u32(b, 20),
            last_comp_version: read_be_u32(b, 24),
            boot_cpuid_phys: read_be_u32(b, 28),
            size_dt_strings: read_be_u32(b, 32),
            size_dt_struct: read_be_u32(b, 36),
        };
        assert(h == header_of(b@));
        if h.last_comp_version > VERSION_PARSED {
            return Err(HeaderError::NewerVersion(h.version, h.last_comp_version));
        }
        if h.off_dt_struct % 4 != 0 || h.size_dt_struct % 4 != 0 {
            return Err(HeaderError::Alignment);
        }
        let struct_end = match (h.off_dt_struct as usize).checked_add(h.size_dt_struct as usize) {
            Some(e) => e,
            None => return Err(HeaderError::Size),
        };
        if struct_end > total_size as usize {
            return Err(HeaderError::StructIndex(h.off_dt_struct, h.size_dt_struct));
        }
        let strings_end = match (h.off_dt_strings as usize).checked_add(h.size_dt_strings as usize) {
            Some(e) => e,
            None => return Err(HeaderError::Size),
        };
        if strings_end > total_size as usize {
            return Err(HeaderError::StringsIndex(h.off_dt_strings, h.size_dt_strings));
        }
        Ok(h)
    }
}

} // verus!
