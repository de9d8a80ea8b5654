//! Container identification and the image layout handed to the traversal.

use vstd::prelude::*;
use crate::disasm::Mode;

verus! {

/// Default reserved stack size, also the default stack base address.
pub const STACK_ADDRESS: u64 = 0x200000;

/// Default bound on repeated visits of one address along one lineage.
pub const MAX_LOOPS: usize = 10;

/// Address at which a raw buffer is loaded by default.
pub const DEFAULT_IMAGE_BASE: u64 = 0x1000;

/// Kind of container a buffer was recognised as.
#[derive(Debug, Clone, Copy, PartialEq, Eq, Structural)]
pub enum BinaryType {
    BIN,
    PE,
    PEEXE,
    PEDLL,
    PENET,
    PESYS,
    ELF,
    MACHO,
}

impl BinaryType {
    /// One of the kinds of PE image.
    pub open spec fn spec_is_pe(self) -> bool {
        self == BinaryType::PE || self == BinaryType::PEEXE || self == BinaryType::PEDLL || self
            == BinaryType::PENET || self == BinaryType::PESYS
    }

    /// Whether this is one of the kinds of PE image.
    pub fn is_pe(&self) -> (b: bool)
        ensures
            b == self.spec_is_pe(),
    {
        match self {
            BinaryType::PE => true,
            BinaryType::PEEXE => true,
            BinaryType::PEDLL => true,
            BinaryType::PENET => true,
            BinaryType::PESYS => true,
            _ => false,
        }
    }
}

/// A function that the image imports.
#[derive(Debug, Clone, PartialEq, Eq)]
pub struct Import {
    pub name: String,
    pub address: u64,
}

/// A section of the image: where its bytes lie in the file, and where in
/// the address space, as an offset from the image base.
#[derive(Debug, Clone, PartialEq, Eq)]
pub struct Section {
    pub name: String,
    pub virtual_address: u64,
    pub virtual_size: u64,
    pub raw_offset: u64,
    pub raw_size: u64,
}

/// The layout of the image to analyse.
#[derive(Debug, Clone)]
pub struct Header {
    pub binary_type: BinaryType,
    pub image_base: u64,
    pub base_of_code: u64,
    pub size_of_code: u64,
    pub base_of_data: u64,
    pub address_of_entry_point: u64,
    pub stack_size: u64,
    pub section_alignment: u64,
    pub file_alignment: u64,
    pub mode: Mode,
    pub image_data_directory: u64,
    pub import_table: Option<Vec<Import>>,
    pub size_of_image: u64,
    pub section_table: Option<Vec<Section>>,
}

/// The kind that the leading bytes of a buffer announce: an ELF image, a
/// PE image, a Mach-O image, or a raw buffer.
pub open spec fn spec_identify(bytes: Seq<u8>) -> BinaryType {
    if bytes.len() >= 7 && bytes[0] == 0x7f && bytes[1] == 0x45 && bytes[2] == 0x4c && bytes[3]
        == 0x46 && bytes[4] == 0x02 && bytes[5] == 0x02 && bytes[6] == 0x01 {
        BinaryType::ELF
    } else if bytes.len() >= 2 && bytes[0] == 0x4d && bytes[1] == 0x5a {
        BinaryType::PE
    } else if bytes.len() >= 4 && bytes[0] == 0xfe && bytes[1] == 0xed && bytes[2] == 0xfa
        && bytes[3] == 0xce {
        BinaryType::MACHO
    } else {
        BinaryType::BIN
    }
}

/// What `parse` returns for a buffer of the kind `kind`, where `pe` is what
/// the PE loader made of the buffer.
pub open spec fn spec_parse_result(kind: BinaryType, pe: Result<Header, String>) -> Result<
    i32,
    Seq<char>,
> {
    match kind {
        BinaryType::ELF => Err("ELF is not supported yet"@),
        BinaryType::MACHO => Err("MACHO is not supported yet"@),
        BinaryType::PE => match pe {
            Ok(_) => Ok(0),
            Err(reason) => Err(reason@),
        },
        _ => Ok(0),
    }
}

/// The header that `parse` leaves for a buffer of the kind `kind`: the
/// loader's header for a PE image that it could read, else the old one, in
/// both cases with the kind of the buffer.
pub open spec fn spec_parse_header(old: Header, kind: BinaryType, pe: Result<Header, String>) -> Header {
    match (kind, pe) {
        (BinaryType::PE, Ok(layout)) => Header {
            binary_type: if layout.binary_type.spec_is_pe() {
                layout.binary_type
            } else {
                BinaryType::PE
            },
            ..layout
        },
        _ => Header { binary_type: kind, ..old },
    }
}

impl Header {
    pub open spec fn spec_new() -> Header {
        Header {
            binary_type: BinaryType::BIN,
            image_base: 0x1000,
            base_of_code: 0,
            size_of_code: 0,
            base_of_data: 0,
            address_of_entry_point: 0,
            stack_size: STACK_ADDRESS,
            section_alignment: 0,
            file_alignment: 0,
            mode: Mode::Mode32,
            image_data_directory: 0,
            import_table: None,
            size_of_image: 0,
            section_table: None,
        }
    }

    /// The header of a raw 32-bit buffer at the default image base.
    pub fn new() -> (header: Header)
        ensures
            header == Header::spec_new(),
    {
        Header {
            binary_type: BinaryType::BIN,
            image_base: 0x1000,
            base_of_code: 0,
            size_of_code: 0,
            base_of_data: 0,
            address_of_entry_point: 0,
            stack_size: STACK_ADDRESS,
            section_alignment: 0,
            file_alignment: 0,
            mode: Mode::Mode32,
            image_data_directory: 0,
            import_table: None,
            size_of_image: 0,
            section_table: None,
        }
    }

    /// Tells the kind of the buffer by its leading bytes and notes it in
    /// the header.
    pub fn identify(&mut self, binary: &[u8]) -> (kind: BinaryType)
        ensures
            kind == spec_identify(binary@),
            *final(self) == (Header { binary_type: kind, ..*old(self) }),
    {
        let n: usize = binary.len();
        let kind = if n >= 7 && binary[0] == 0x7f && binary[1] == 0x45 && binary[2] == 0x4c
            && binary[3] == 0x46 && binary[4] == 0x02 && binary[5] == 0x02 && binary[6] == 0x01 {
            BinaryType::ELF
        } else if n >= 2 && binary[0] == 0x4d && binary[1] == 0x5a {
            BinaryType::PE
        } else if n >= 4 && binary[0] == 0xfe && binary[1] == 0xed && binary[2] == 0xfa
            && binary[3] == 0xce {
            BinaryType::MACHO
        } else {
            BinaryType::BIN
        };
        self.binary_type = kind;
        kind
    }

    /// Identifies the buffer and fills the header in.
    ///
    /// A raw buffer keeps the header as it is. A PE image takes the header
    /// `pe` that the PE loader read from it, or fails with the loader's
    /// reason. ELF and Mach-O images are refused.
    pub fn parse(&mut self, data: &[u8], pe: Result<Header, String>) -> (r: Result<i32, String>)
        ensures
            match r {
                Ok(code) => spec_parse_result(spec_identify(data@), pe) == Ok::<i32, Seq<char>>(
                    code,
                ),
                Err(reason) => spec_parse_result(spec_identify(data@), pe) == Err::<
                    i32,
                    Seq<char>,
                >(reason@),
            },
            *final(self) == spec_parse_header(*old(self), spec_identify(data@), pe),
    {
        match self.identify(data) {
            BinaryType::ELF => Err("ELF is not supported yet".to_string()),
            BinaryType::MACHO => Err("MACHO is not supported yet".to_string()),
            BinaryType::PE => match pe {
                Ok(layout) => {
                    let kind = if layout.binary_type.is_pe() {
                        layout.binary_type
                    } else {
                        BinaryType::PE
                    };
                    *self = layout;
                    self.binary_type = kind;
                    Ok(0)
                },
                Err(reason) => Err(reason),
            },
            _ => Ok(0),
        }
    }
}

} // verus!
