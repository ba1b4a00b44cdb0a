use crate::utils::bytes::{le_u32, le_u64, read_u32, read_u64};
use crate::mm::PhysAddr;
use vstd::prelude::*;

verus! {

/// The size of the root system description pointer, in bytes.
pub const RSDP_SIZE: usize = 36;

/// The root system description pointer of ACPI 2.0 and later.
#[derive(Clone, Copy, Debug)]
pub struct Rsdp {
    pub signature: [u8; 8],
    pub checksum: u8,
    pub oemid: [u8; 6],
    pub revision: u8,
    pub rsdt_address: u32,
    pub lenght: u32,
    pub xsdt_address: u64,
    pub ext_checksum: u8,
}

impl Rsdp {
    /// Reads the pointer from the bytes at which the firmware left it:
    /// signature, checksum, OEM id, revision, the address of the RSDT, the
    /// length, the address of the XSDT and the extended checksum, numbers
    /// least significant byte first. `None` where fewer than 36 bytes are
    /// given.
    pub fn from_bytes(bytes: &[u8]) -> (r: Option<Rsdp>)
        ensures
            r is Some <==> bytes@.len() >= RSDP_SIZE,
            r matches Some(p) ==> {
                &&& p.signature@ == bytes@.subrange(0, 8)
                &&& p.checksum == bytes@[8]
                &&& p.oemid@ == bytes@.subrange(9, 15)
                &&& p.revision == bytes@[15]
                &&& p.rsdt_address == le_u32(bytes@, 16)
                &&& p.lenght == le_u32(bytes@, 20)
                &&& p.xsdt_address == le_u64(bytes@, 24)
                &&& p.ext_checksum == bytes@[32]
            },
    {
        if bytes.len() < RSDP_SIZE {
            return None;
        }
        let signature: [u8; 8] = [
            bytes[0],
            bytes[1],
            bytes[2],
            bytes[3],
            bytes[4],
            bytes[5],
            bytes[6],
            bytes[7],
        ];
        let oemid: [u8; 6] = [bytes[9], bytes[10], bytes[11], bytes[12], bytes[13], bytes[14]];
        assert(signature@ =~= bytes@.subrange(0, 8));
        assert(oemid@ =~= bytes@.subrange(9, 15));
        Some(
            Rsdp {
                signature,
                checksum: bytes[8],
                oemid,
                revision: bytes[15],
                rsdt_address: read_u32(bytes, 16),
                lenght: read_u32(bytes, 20),
                xsdt_address: read_u64(bytes, 24),
                ext_checksum: bytes[32],
            },
        )
    }

    #[inline]
    pub fn revision(&self) -> (r: u8)
        ensures
            r == self.revision,
    {
        self.revision
    }

    /// Where the extended system description table lies.
    #[inline]
    pub fn get_xsdt(&self) -> (r: PhysAddr)
        ensures
            r.0 == self.xsdt_address,
    {
        PhysAddr::new(self.xsdt_address)
    }
}

} // verus!
