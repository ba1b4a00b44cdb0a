use crate::utils::bytes::{le_u32, le_u64, read_u32, read_u64};
use vstd::prelude::*;

verus! {

/// The size of the header of a system description table, in bytes.
pub const HEADER_SIZE: usize = 36;

/// The header that every system description table starts with.
#[derive(Clone, Copy, Debug)]
pub struct SdtHeader {
    pub signature: [u8; 4],
    pub lenght: u32,
    pub revision: u8,
    pub checksum: u8,
    pub oemid: [u8; 6],
    pub oem_table_id: [u8; 8],
    pub oem_revision: u32,
    pub creator_id: [u8; 4],
    pub creator_revision: u32,
}

impl SdtHeader {
    /// Reads a header from the first 36 bytes of a table: signature, length
    /// of the whole table, revision, checksum, OEM id, OEM table id, OEM
    /// revision, creator id and creator revision, numbers least significant
    /// byte first. `None` where fewer than 36 bytes are given.
    pub fn from_bytes(bytes: &[u8]) -> (r: Option<SdtHeader>)
        ensures
            r is Some <==> bytes@.len() >= HEADER_SIZE,
            r matches Some(h) ==> {
                &&& h.signature@ == bytes@.subrange(0, 4)
                &&& h.lenght == le_u32(bytes@, 4)
                &&& h.revision == bytes@[8]
                &&& h.checksum == bytes@[9]
                &&& h.oemid@ == bytes@.subrange(10, 16)
                &&& h.oem_table_id@ == bytes@.subrange(16, 24)
                &&& h.oem_revision == le_u32(bytes@, 24)
                &&& h.creator_id@ == bytes@.subrange(28, 32)
                &&& h.creator_revision == le_u32(bytes@, 32)
            },
    {
        if bytes.len() < HEADER_SIZE {
            return None;
        }
        let signature: [u8; 4] = [bytes[0], bytes[1], bytes[2], bytes[3]];
        let oemid: [u8; 6] = [bytes[10], bytes[11], bytes[12], bytes[13], bytes[14], bytes[15]];
        let oem_table_id: [u8; 8] = [
            bytes[16],
            bytes[17],
            bytes[18],
            bytes[19],
            bytes[20],
            bytes[21],
            bytes[22],
            bytes[23],
        ];
        let creator_id: [u8; 4] = [bytes[28], bytes[29], bytes[30], bytes[31]];
        assert(signature@ =~= bytes@.subrange(0, 4));
        assert(oemid@ =~= bytes@.subrange(10, 16));
        assert(oem_table_id@ =~= bytes@.subrange(16, 24));
        assert(creator_id@ =~= bytes@.subrange(28, 32));
        Some(
            SdtHeader {
                signature,
                lenght: read_u32(bytes, 4),
                revision: bytes[8],
                checksum: bytes[9],
                oemid,
                oem_table_id,
                oem_revision: read_u32(bytes, 24),
                creator_id,
                creator_revision: read_u32(bytes, 32),
            },
        )
    }

    /// The four characters that name the table.
    pub fn signature(&self) -> (r: [u8; 4])
        ensures
            r == self.signature,
    {
        self.signature
    }

    /// The number of bytes that follow the header in the table.
    pub fn data_len(&self) -> (r: usize)
        requires
            self.lenght >= HEADER_SIZE,
        ensures
            r == self.lenght - HEADER_SIZE,
    {
        (self.lenght as usize) - HEADER_SIZE
    }

    /// The offset in the table at which its data starts.
    pub fn data(&self) -> (r: usize)
        ensures
            r == HEADER_SIZE,
    {
        HEADER_SIZE
    }
}

/// The extended system description table: a header and the physical
/// addresses of the other tables.
#[derive(Debug)]
pub struct Xsdt {
    pub hdr: SdtHeader,
    pub tables: Vec<u64>,
}

impl Xsdt {
    /// The number of addresses that a table of `lenght` bytes holds.
    pub open spec fn entries(lenght: int) -> int {
        (lenght - HEADER_SIZE) / 8
    }

    /// The header says how long the table is, and the table holds as many
    /// addresses as fit behind the header.
    pub open spec fn wf(&self) -> bool {
        &&& self.hdr.lenght >= HEADER_SIZE
        &&& self.tables@.len() == Self::entries(self.hdr.lenght as int)
    }

    /// Reads the table from its bytes: the header, then one 64-bit address,
    /// least significant byte first, for each eight bytes that the header's
    /// length leaves behind it. `None` where the header is cut short, gives a
    /// length below its own size, or gives more than there are bytes.
    pub fn from_bytes(bytes: &[u8]) -> (r: Option<Xsdt>)
        ensures
            r is Some <==> bytes@.len() >= HEADER_SIZE && HEADER_SIZE <= le_u32(bytes@, 4)
                && HEADER_SIZE + 8 * Self::entries(le_u32(bytes@, 4)) <= bytes@.len(),
            r matches Some(x) ==> {
                &&& x.wf()
                &&& x.hdr.lenght == le_u32(bytes@, 4)
                &&& x.hdr.signature@ == bytes@.subrange(0, 4)
                &&& forall|i: int|
                    0 <= i < x.tables@.len() ==> x.tables@[i] == le_u64(bytes@, HEADER_SIZE + 8 * i)
            },
    {
        let hdr = match SdtHeader::from_bytes(bytes) {
            Some(h) => h,
            None => {
                return None;
            },
        };
        if (hdr.lenght as usize) < HEADER_SIZE {
            return None;
        }
        let count: usize = hdr.data_len() / 8;
        let n: usize = bytes.len();
        if n - HEADER_SIZE < 8 * count {
            return None;
        }
        let mut tables: Vec<u64> = Vec::new();
        let mut i: usize = 0;
        while i < count
            invariant
                i <= count,
                n == bytes@.len(),
                HEADER_SIZE + 8 * count <= bytes@.len(),
                tables@.len() == i,
                forall|j: int|
                    0 <= j < i ==> tables@[j] == le_u64(bytes@, HEADER_SIZE + 8 * j),
            decreases count - i,
        {
            tables.push(read_u64(bytes, HEADER_SIZE + 8 * i));
            i += 1;
        }
        Some(Xsdt { hdr, tables })
    }

    /// The number of tables that the table points to.
    pub fn len(&self) -> (r: usize)
        requires
            self.hdr.lenght >= HEADER_SIZE,
        ensures
            r == Self::entries(self.hdr.lenght as int),
    {
        self.hdr.data_len() / 8
    }

    /// The physical addresses of the tables.
    pub fn tables(&self) -> (r: &[u64])
        ensures
            r@ == self.tables@,
    {
        self.tables.as_slice()
    }
}

/// The fixed ACPI description table's first entries.
#[derive(Clone, Copy, Debug)]
pub struct Fadt {
    pub firmware_ctrl: u32,
    pub dsdt: u32,
}

impl Fadt {
    /// Reads the two addresses from the data of the table, the bytes behind
    /// its header. `None` where fewer than eight bytes are given.
    pub fn from_bytes(data: &[u8]) -> (r: Option<Fadt>)
        ensures
            r is Some <==> data@.len() >= 8,
            r matches Some(f) ==> f.firmware_ctrl == le_u32(data@, 0) && f.dsdt == le_u32(
                data@,
                4,
            ),
    {
        if data.len() < 8 {
            return None;
        }
        Some(Fadt { firmware_ctrl: read_u32(data, 0), dsdt: read_u32(data, 4) })
    }
}

} // verus!
