//! The header every ACPI system description table starts with.
use vstd::prelude::*;
use crate::le_bytes::{le_u32, read_u32};

verus! {

/// Bytes in a table header.
pub const ACPI_HEADER_LEN: usize = 36;

/// The 36-byte header every system description table starts with.
#[derive(Clone, Copy, Debug)]
pub struct AcpiSdtHeader {
    pub signature: [u8; 4],
    pub len: u32,
    pub revision: u8,
    pub checksum: u8,
    pub oemid: [u8; 6],
    pub oem_table_id: [u8; 8],
    pub oem_revision: u32,
    pub creator_id: u32,
    pub creator_revision: u32,
}

/// The header stored in the first `ACPI_HEADER_LEN` bytes of `b`.
pub open spec fn header_of(b: Seq<u8>) -> AcpiSdtHeader {
    AcpiSdtHeader {
        signature: [b[0], b[1], b[2], b[3]],
        len: le_u32(b, 4),
        revision: b[8],
        checksum: b[9],
        oemid: [b[10], b[11], b[12], b[13], b[14], b[15]],
        oem_table_id: [b[16], b[17], b[18], b[19], b[20], b[21], b[22], b[23]],
        oem_revision: le_u32(b, 24),
        creator_id: le_u32(b, 28),
        creator_revision: le_u32(b, 32),
    }
}

/// A table as read from memory: its header and the bytes that follow it.
pub struct SdtTable {
    pub header: AcpiSdtHeader,
    pub data: Vec<u8>,
}

/// A table's header and the bytes after it.
pub struct TableModel {
    pub header: AcpiSdtHeader,
    pub data: Seq<u8>,
}

impl View for SdtTable {
    type V = TableModel;

    open spec fn view(&self) -> TableModel {
        TableModel { header: self.header, data: self.data@ }
    }
}

impl AcpiSdtHeader {
    /// The header laid out in the first `ACPI_HEADER_LEN` bytes of `bytes`.
    pub fn from_bytes(bytes: &[u8]) -> (r: Self)
        requires
            bytes@.len() >= ACPI_HEADER_LEN,
        ensures
            r == header_of(bytes@),
    {
        AcpiSdtHeader {
            signature: [bytes[0], bytes[1], bytes[2], bytes[3]],
            len: read_u32(bytes, 4),
            revision: bytes[8],
            checksum: bytes[9],
            oemid: [bytes[10], bytes[11], bytes[12], bytes[13], bytes[14], bytes[15]],
            oem_table_id: [
                bytes[16],
                bytes[17],
                bytes[18],
                bytes[19],
                bytes[20],
                bytes[21],
                bytes[22],
                bytes[23],
            ],
            oem_revision: read_u32(bytes, 24),
            creator_id: read_u32(bytes, 28),
            creator_revision: read_u32(bytes, 32),
        }
    }

    /// Bytes of the table after its header (0 for a length below the header's).
    pub fn get_data_len(&self) -> (r: usize)
        ensures
            r == if self.len >= ACPI_HEADER_LEN {
                self.len - ACPI_HEADER_LEN
            } else {
                0
            },
    {
        let total_size = self.len as usize;
        total_size.saturating_sub(ACPI_HEADER_LEN)
    }

    /// The table's signature is `sig`.
    pub fn has_signature(&self, sig: [u8; 4]) -> (r: bool)
        ensures
            r == (self.signature@ == sig@),
    {
        let r = self.signature[0] == sig[0] && self.signature[1] == sig[1] && self.signature[2] == sig[2]
            && self.signature[3] == sig[3];
        proof {
            if r {
                assert(self.signature@ =~= sig@);
            }
        }
        r
    }
}

} // verus!
