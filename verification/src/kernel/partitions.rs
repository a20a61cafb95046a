//! Files that stand for the partitions of an MBR-partitioned device.
use crate::kernel::vfs::IFile;
use vstd::prelude::*;

verus! {

/// The size of an ATA sector: partition tables count in sectors.
pub const SECTOR_SIZE_IN_BYTES: u64 = 512;

/// One of the four primary partitions of an MBR.
#[derive(Debug, Clone, Copy, PartialEq, Eq, Structural)]
pub struct MBRPartitionNumber(pub u8);

impl MBRPartitionNumber {
    /// The partition numbered `value`, which must be below 4.
    pub fn try_from_index(value: usize) -> (r: Result<Self, ()>)
        ensures
            value < 4 ==> r == Ok::<Self, ()>(MBRPartitionNumber(value as u8)),
            value >= 4 ==> r is Err,
    {
        if value < 4 {
            Ok(MBRPartitionNumber(value as u8))
        } else {
            Err(())
        }
    }
}

/// The value of four bytes read least significant byte first.
pub open spec fn le_u32_at(b: Seq<u8>, i: int) -> u32 {
    (b[i] as u32) | ((b[i + 1] as u32) << 8u32) | ((b[i + 2] as u32) << 16u32) | ((b[i + 3] as u32) << 24u32)
}

/// The offset of the 16-byte entry of a partition in the MBR.
pub open spec fn entry_offset(n: MBRPartitionNumber) -> int {
    n.0 * 16 + 0x1be
}

/// A partition of a device, as a file.
pub struct MBRPartitionFile<D: IFile> {
    device: D,
    partition_offset: u64,
    partition_size: u64,
    partiton_number: MBRPartitionNumber,
}

impl<D: IFile> MBRPartitionFile<D> {
    pub closed spec fn device(&self) -> D {
        self.device
    }

    pub closed spec fn offset(&self) -> u64 {
        self.partition_offset
    }

    pub closed spec fn size(&self) -> u64 {
        self.partition_size
    }

    pub closed spec fn number(&self) -> MBRPartitionNumber {
        self.partiton_number
    }

    /// The partition `partition_number` of `device_file`, read from its MBR:
    /// `None` where the entry cannot be read or its partition type is 0
    /// (unused). The start and size are counted in sectors.
    pub fn from(device_file: D, partition_number: MBRPartitionNumber) -> (r: Option<Self>)
        requires
            partition_number.0 < 4,
        ensures
            match r {
                Some(p) => {
                    let e = device_file.data().subrange(entry_offset(partition_number), entry_offset(partition_number) + 16);
                    &&& entry_offset(partition_number) + 16 <= device_file.data().len()
                    &&& e[4] != 0
                    &&& p.device() == device_file
                    &&& p.number() == partition_number
                    &&& p.offset() == le_u32_at(e, 8) * SECTOR_SIZE_IN_BYTES
                    &&& p.size() == le_u32_at(e, 12) * SECTOR_SIZE_IN_BYTES
                },
                None => true,
            },
            ({
                let e = device_file.data().subrange(entry_offset(partition_number), entry_offset(partition_number) + 16);
                entry_offset(partition_number) + 16 <= device_file.data().len() && e[4] == 0 ==> r is None
            }),
    {
        let part_data_offset = (partition_number.0 as u64) * 16 + (0x1fe - 16 * 4);
        match device_file.read(part_data_offset, 16) {
            Some(part_data) => Self::from_entry(device_file, partition_number, part_data.as_slice()),
            None => None,
        }
    }

    /// The partition `partition_number` of `device_file` whose MBR entry
    /// holds the 16 bytes `entry`: `None` exactly where its partition type
    /// (byte 4) is 0, which marks an unused entry; else its start and size,
    /// counted in sectors from bytes 8 and 12.
    pub fn from_entry(device_file: D, partition_number: MBRPartitionNumber, entry: &[u8]) -> (r: Option<Self>)
        requires
            entry@.len() == 16,
        ensures
            r is None <==> entry@[4] == 0,
            r matches Some(p) ==> {
                &&& p.device() == device_file
                &&& p.number() == partition_number
                &&& p.offset() == le_u32_at(entry@, 8) * SECTOR_SIZE_IN_BYTES
                &&& p.size() == le_u32_at(entry@, 12) * SECTOR_SIZE_IN_BYTES
            },
    {
        let part_data = entry;
        if part_data[4] == 0x0 {
            return None;
        }
        let off = (part_data[8] as u32) | ((part_data[9] as u32) << 8u32) | ((part_data[10] as u32) << 16u32) | ((part_data[11] as u32) << 24u32);
        let size = (part_data[12] as u32) | ((part_data[13] as u32) << 8u32) | ((part_data[14] as u32) << 16u32) | ((part_data[15] as u32) << 24u32);
        Some(
            MBRPartitionFile {
                device: device_file,
                partition_offset: off as u64 * SECTOR_SIZE_IN_BYTES,
                partition_size: size as u64 * SECTOR_SIZE_IN_BYTES,
                partiton_number: partition_number,
            },
        )
    }

    /// Where the partition starts on the device, in bytes.
    pub fn get_offset(&self) -> (r: u64)
        ensures
            r == self.offset(),
    {
        self.partition_offset
    }
}

impl<D: IFile> IFile for MBRPartitionFile<D> {
    /// The partition's bytes: those of the device from the partition's start.
    closed spec fn data(&self) -> Seq<u8> {
        Seq::new(self.partition_size as nat, |i: int| self.device.data()[self.partition_offset + i])
    }

    /// A read of the partition succeeds where it lies within the partition
    /// and the device promises the read at the same bytes.
    open spec fn reads_succeed(&self, offset: u64, len: usize) -> bool {
        &&& offset + len <= self.size()
        &&& offset + self.offset() <= u64::MAX
        &&& self.device().reads_succeed((offset + self.offset()) as u64, len)
    }

    fn read(&self, offset: u64, len: usize) -> (r: Option<Vec<u8>>)
        ensures
            offset + len > self.size() || offset + self.offset() > u64::MAX ==> r is None,
    {
        if offset as u128 + len as u128 > self.partition_size as u128 {
            return None;
        }
        if offset as u128 + self.partition_offset as u128 > u64::MAX as u128 {
            return None;
        }
        let r = self.device.read(offset + self.partition_offset, len);
        proof {
            if r is Some {
                assert(r->0@ =~= self.data().subrange(offset as int, offset + len));
            }
        }
        r
    }

    fn write(&mut self, offset: u64, data: &[u8]) -> (r: Option<usize>)
        ensures
            offset + data@.len() > old(self).size() || offset + old(self).offset() > u64::MAX ==> r is None,
    {
        if offset as u128 + data.len() as u128 > self.partition_size as u128 {
            return None;
        }
        if offset as u128 + self.partition_offset as u128 > u64::MAX as u128 {
            return None;
        }
        let r = self.device.write(offset + self.partition_offset, data);
        proof {
            if let Some(n) = r {
                assert(self.data().subrange(offset as int, offset + n) =~= self.device.data().subrange(offset + self.partition_offset, offset + self.partition_offset + n));
            }
        }
        r
    }

    fn get_size(&self) -> (r: u64) {
        self.partition_size
    }

    fn resize(&mut self, _new_size: u64) -> (r: Option<()>) {
        None
    }
}

/// A partition reads as its device: its bytes are the device's from the
/// partition's start on, and a read of bytes within the partition succeeds
/// exactly where the device promises the read of the same bytes (with the
/// partition's start added to the offset), giving what the device holds
/// there.
pub proof fn lemma_partition_reads_device<D: IFile>(p: MBRPartitionFile<D>, offset: u64, len: usize)
    ensures
        p.data().len() == p.size(),
        forall|i: int| 0 <= i < p.size() ==> #[trigger] p.data()[i] == p.device().data()[p.offset() + i],
        offset + len <= p.size() && offset + p.offset() <= u64::MAX ==> (p.reads_succeed(offset, len)
            <==> p.device().reads_succeed((offset + p.offset()) as u64, len)),
{
}

} // verus!
