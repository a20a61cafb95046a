//! The names and sector addresses of ATA disks.
use vstd::prelude::*;

verus! {

/// The size of a sector: 256 16-bit words.
pub const SECTOR_SIZE_IN_BYTES: usize = 512;

/// The disk of a bus that is addressed.
#[derive(Debug, Clone, Copy, PartialEq, Eq, Structural)]
pub enum ATADevice {
    MASTER,
    SLAVE,
}

/// Which of the two standard buses.
#[derive(Debug, Clone, Copy, PartialEq, Eq, Structural)]
pub enum BUSType {
    Primary,
    Secondary,
}

impl BUSType {
    pub fn into_str(self) -> (r: &'static str)
        ensures
            self == BUSType::Primary ==> r@ == "primary"@,
            self == BUSType::Secondary ==> r@ == "secondary"@,
    {
        match self {
            BUSType::Primary => "primary",
            BUSType::Secondary => "secondary",
        }
    }
}

impl ATADevice {
    pub fn into_str(self) -> (r: &'static str)
        ensures
            self == ATADevice::MASTER ==> r@ == "master"@,
            self == ATADevice::SLAVE ==> r@ == "slave"@,
    {
        match self {
            ATADevice::MASTER => "master",
            ATADevice::SLAVE => "slave",
        }
    }
}

/// A 28-bit sector address, split into the bytes the bus takes.
#[derive(Debug, Clone, Copy, PartialEq, Eq, Structural)]
pub struct LBA28 {
    pub low: u8,
    pub mid: u8,
    pub hi: u8,
}

impl LBA28 {
    /// The low three bytes of `v`.
    pub fn from_u32(v: u32) -> (r: LBA28)
        ensures
            r.low == v % 0x100,
            r.mid == (v / 0x100) % 0x100,
            r.hi == (v / 0x1_0000) % 0x100,
    {
        let r = LBA28 { low: (v & 0xff) as u8, mid: ((v >> 8u32) & 0xff) as u8, hi: ((v >> 16u32) & 0xff) as u8 };
        assert((v & 0xff) as u8 == v % 0x100 && ((v >> 8u32) & 0xff) as u8 == (v / 0x100) % 0x100
            && ((v >> 16u32) & 0xff) as u8 == (v / 0x1_0000) % 0x100) by (bit_vector);
        r
    }

    /// The address the three bytes make.
    pub fn into_u32(self) -> (r: u32)
        ensures
            r == self.low + self.mid * 0x100 + self.hi * 0x1_0000,
    {
        let (l, m, h) = (self.low as u32, self.mid as u32, self.hi as u32);
        let r = l | (m << 8u32) | (h << 16u32);
        assert(r == l + m * 0x100 + h * 0x1_0000) by (bit_vector)
            requires
                l < 0x100,
                m < 0x100,
                h < 0x100,
                r == l | (m << 8u32) | (h << 16u32),
        ;
        r
    }
}

/// Taking an address to bytes and back gives its low 24 bits.
pub proof fn lemma_lba28_roundtrip(v: u32)
    ensures
        (v % 0x100) + ((v / 0x100) % 0x100) * 0x100 + ((v / 0x1_0000) % 0x100) * 0x1_0000 == v % 0x100_0000,
{
    assert((v % 0x100) + ((v / 0x100) % 0x100) * 0x100 + ((v / 0x1_0000) % 0x100) * 0x1_0000 == v % 0x100_0000) by (bit_vector);
}

} // verus!
