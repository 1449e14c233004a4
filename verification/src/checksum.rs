//! Checksums of BINEX messages.

use vstd::prelude::*;

verus! {

/// Table of the 16-bit checksum, one value for each byte.
pub const CRC16_TABLE: [u16; 256] = [
    0x0000, 0x1021, 0x2042, 0x3063, 0x4084, 0x50A5, 0x60C6, 0x70E7,
    0x8108, 0x9129, 0xA14A, 0xB16B, 0xC18C, 0xD1AD, 0xE1CE, 0xF1EF,
    0x1231, 0x0210, 0x3273, 0x2252, 0x52B5, 0x4294, 0x72F7, 0x62D6,
    0x9339, 0x8318, 0xB37B, 0xA35A, 0xD3BD, 0xC39C, 0xF3FF, 0xE3DE,
    0x2462, 0x3443, 0x0420, 0x1401, 0x64E6, 0x74C7, 0x44A4, 0x5485,
    0xA56A, 0xB54B, 0x8528, 0x9509, 0xE5EE, 0xF5CF, 0xC5AC, 0xD58D,
    0x3653, 0x2672, 0x1611, 0x0630, 0x76D7, 0x66F6, 0x5695, 0x46B4,
    0xB75B, 0xA77A, 0x9719, 0x8738, 0xF7DF, 0xE7FE, 0xD79D, 0xC7BC,
    0x48C4, 0x58E5, 0x6886, 0x78A7, 0x0840, 0x1861, 0x2802, 0x3823,
    0xC9CC, 0xD9ED, 0xE98E, 0xF9AF, 0x8948, 0x9969, 0xA90A, 0xB92B,
    0x5AF5, 0x4AD4, 0x7AB7, 0x6A96, 0x1A71, 0x0A50, 0x3A33, 0x2A12,
    0xDBFD, 0xCBDC, 0xFBBF, 0xEB9E, 0x9B79, 0x8B58, 0xBB3B, 0xAB1A,
    0x6CA6, 0x7C87, 0x4CE4, 0x5CC5, 0x2C22, 0x3C03, 0x0C60, 0x1C41,
    0xEDAE, 0xFD8F, 0xCDEC, 0xDDCD, 0xAD2A, 0xBD0B, 0x8D68, 0x9D49,
    0x7E97, 0x6EB6, 0x5ED5, 0x4EF4, 0x3E13, 0x2E32, 0x1E51, 0x0E70,
    0xFF9F, 0xEFBE, 0xDFDD, 0xCFFC, 0xBF1B, 0xAF3A, 0x9F59, 0x8F78,
    0x9188, 0x81A9, 0xB1CA, 0xA1EB, 0xD10C, 0xC12D, 0xF14E, 0xE16F,
    0x1080, 0x00A1, 0x30C2, 0x20E3, 0x5004, 0x4025, 0x7046, 0x6067,
    0x83B9, 0x9398, 0xA3FB, 0xB3DA, 0xC33D, 0xD31C, 0xE37F, 0xF35E,
    0x02B1, 0x1290, 0x22F3, 0x32D2, 0x4235, 0x5214, 0x6277, 0x7256,
    0xB5EA, 0xA5CB, 0x95A8, 0x8589, 0xF56E, 0xE54F, 0xD52C, 0xC50D,
    0x34E2, 0x24C3, 0x14A0, 0x0481, 0x7466, 0x6447, 0x5424, 0x4405,
    0xA7DB, 0xB7FA, 0x8799, 0x97B8, 0xE75F, 0xF77E, 0xC71D, 0xD73C,
    0x26D3, 0x36F2, 0x0691, 0x16B0, 0x6657, 0x7676, 0x4615, 0x5634,
    0xD94C, 0xC96D, 0xF90E, 0xE92F, 0x99C8, 0x89E9, 0xB98A, 0xA9AB,
    0x5844, 0x4865, 0x7806, 0x6827, 0x18C0, 0x08E1, 0x3882, 0x28A3,
    0xCB7D, 0xDB5C, 0xEB3F, 0xFB1E, 0x8BF9, 0x9BD8, 0xABBB, 0xBB9A,
    0x4A75, 0x5A54, 0x6A37, 0x7A16, 0x0AF1, 0x1AD0, 0x2AB3, 0x3A92,
    0xFD2E, 0xED0F, 0xDD6C, 0xCD4D, 0xBDAA, 0xAD8B, 0x9DE8, 0x8DC9,
    0x7C26, 0x6C07, 0x5C64, 0x4C45, 0x3CA2, 0x2C83, 0x1CE0, 0x0CC1,
    0xEF1F, 0xFF3E, 0xCF5D, 0xDF7C, 0xAF9B, 0xBFBA, 0x8FD9, 0x9FF8,
    0x6E17, 0x7E36, 0x4E55, 0x5E74, 0x2E93, 0x3EB2, 0x0ED1, 0x1EF0,
];

/// Table of the 32-bit checksum, one value for each byte.
pub const CRC32_TABLE: [u32; 256] = [
    0x0000, 0x4C11B7, 0x98236E, 0xD432D9, 0x13046DC, 0x17C576B,
    0x1A865B2, 0x1E47405, 0x2608DB8, 0x22C9C0F, 0x2F8AED6, 0x2B4BF61,
    0x350CB64, 0x31CDAD3, 0x3C8E80A, 0x384F9BD, 0x4C11B70, 0x48D0AC7,
    0x459381E, 0x41529A9, 0x5F15DAC, 0x5BD4C1B, 0x5697EC2, 0x5256F75,
    0x6A196C8, 0x6ED877F, 0x639B5A6, 0x675A411, 0x791D014, 0x7DDC1A3,
    0x709F37A, 0x745E2CD, 0x98236E0, 0x9CE2757, 0x91A158E, 0x9560439,
    0x8B2703C, 0x8FE618B, 0x82A5352, 0x86642E5, 0xBE2BB58, 0xBAEAAEF,
    0xB7A9836, 0xB368981, 0xAD2FD84, 0xA9EEC33, 0xA4ADEEA, 0xA06CF5D,
    0xD432D90, 0xD0F3C27, 0xDDB0EFE, 0xD971F49, 0xC736B4C, 0xC3F7AFB,
    0xCEB4822, 0xCA75995, 0xF23A028, 0xF6FB19F, 0xFBB8346, 0xFF792F1,
    0xE13E6F4, 0xE5FF743, 0xE8BC59A, 0xEC7D42D, 0x13046DC0, 0x13487C77,
    0x139C4EAE, 0x13D05F19, 0x12342B1C, 0x12783AAB, 0x12AC0872, 0x12E019C5,
    0x1164E078, 0x1128F1CF, 0x11FCC316, 0x11B0D2A1, 0x1054A6A4, 0x1018B713,
    0x10CC85CA, 0x1080947D, 0x17C576B0, 0x17896707, 0x175D55DE, 0x17114469,
    0x16F5306C, 0x16B921DB, 0x166D1302, 0x162102B5, 0x15A5FB08, 0x15E9EABF,
    0x153DD866, 0x1571C9D1, 0x1495BDD4, 0x14D9AC63, 0x140D9EBA, 0x14418F0D,
    0x1A865B20, 0x1ACA4A97, 0x1A1E784E, 0x1A5269F9, 0x1BB61DFC, 0x1BFA0C4B,
    0x1B2E3E92, 0x1B622F25, 0x18E6D698, 0x18AAC72F, 0x187EF5F6, 0x1832E441,
    0x19D69044, 0x199A81F3, 0x194EB32A, 0x1902A29D, 0x1E474050, 0x1E0B51E7,
    0x1EDF633E, 0x1E937289, 0x1F77068C, 0x1F3B173B, 0x1FEF25E2, 0x1FA33455,
    0x1C27CDE8, 0x1C6BDC5F, 0x1CBFEE86, 0x1CF3FF31, 0x1D178B34, 0x1D5B9A83,
    0x1D8FA85A, 0x1DC3B9ED, 0x2608DB80, 0x2644CA37, 0x2690F8EE, 0x26DCE959,
    0x27389D5C, 0x27748CEB, 0x27A0BE32, 0x27ECAF85, 0x24685638, 0x2424478F,
    0x24F07556, 0x24BC64E1, 0x255810E4, 0x25140153, 0x25C0338A, 0x258C223D,
    0x22C9C0F0, 0x2285D147, 0x2251E39E, 0x221DF229, 0x23F9862C, 0x23B5979B,
    0x2361A542, 0x232DB4F5, 0x20A94D48, 0x20E55CFF, 0x20316E26, 0x207D7F91,
    0x21990B94, 0x21D51A23, 0x210128FA, 0x214D394D, 0x2F8AED60, 0x2FC6FCD7,
    0x2F12CE0E, 0x2F5EDFB9, 0x2EBAABBC, 0x2EF6BA0B, 0x2E2288D2, 0x2E6E9965,
    0x2DEA60D8, 0x2DA6716F, 0x2D7243B6, 0x2D3E5201, 0x2CDA2604, 0x2C9637B3,
    0x2C42056A, 0x2C0E14DD, 0x2B4BF610, 0x2B07E7A7, 0x2BD3D57E, 0x2B9FC4C9,
    0x2A7BB0CC, 0x2A37A17B, 0x2AE393A2, 0x2AAF8215, 0x292B7BA8, 0x29676A1F,
    0x29B358C6, 0x29FF4971, 0x281B3D74, 0x28572CC3, 0x28831E1A, 0x28CF0FAD,
    0x350CB640, 0x3540A7F7, 0x3594952E, 0x35D88499, 0x343CF09C, 0x3470E12B,
    0x34A4D3F2, 0x34E8C245, 0x376C3BF8, 0x37202A4F, 0x37F41896, 0x37B80921,
    0x365C7D24, 0x36106C93, 0x36C45E4A, 0x36884FFD, 0x31CDAD30, 0x3181BC87,
    0x31558E5E, 0x31199FE9, 0x30FDEBEC, 0x30B1FA5B, 0x3065C882, 0x3029D935,
    0x33AD2088, 0x33E1313F, 0x333503E6, 0x33791251, 0x329D6654, 0x32D177E3,
    0x3205453A, 0x3249548D, 0x3C8E80A0, 0x3CC29117, 0x3C16A3CE, 0x3C5AB279,
    0x3DBEC67C, 0x3DF2D7CB, 0x3D26E512, 0x3D6AF4A5, 0x3EEE0D18, 0x3EA21CAF,
    0x3E762E76, 0x3E3A3FC1, 0x3FDE4BC4, 0x3F925A73, 0x3F4668AA, 0x3F0A791D,
    0x384F9BD0, 0x38038A67, 0x38D7B8BE, 0x389BA909, 0x397FDD0C, 0x3933CCBB,
    0x39E7FE62, 0x39ABEFD5, 0x3A2F1668, 0x3A6307DF, 0x3AB73506, 0x3AFB24B1,
    0x3B1F50B4, 0x3B534103, 0x3B8773DA, 0x3BCB626D,
];

/// What an outside digest makes of a message, as a number read from its
/// 16 bytes, least significant first: the MD5 digest that `md5::Md5`
/// computes.
pub uninterp spec fn md5_value(bytes: Seq<u8>) -> u128;

/// `md5::Md5` over the first `size` bytes, through `update` and
/// `finalize` of `md5::Digest`; the 16 bytes of the digest are read as
/// a number, least significant first.
#[verifier::external_body]
fn md5_digest(bytes: &[u8], size: usize) -> (r: u128)
    requires
        size <= bytes@.len(),
    ensures
        r == md5_value(bytes@.take(size as int)),
{
    let mut hasher = <md5::Md5 as md5::Digest>::new();
    md5::Digest::update(&mut hasher, &bytes[..size]);
    u128::from_le_bytes(md5::Digest::finalize(hasher).into())
}

/// Kinds of checksum.
#[derive(Debug, Copy, Clone, PartialEq, Eq, Structural)]
pub enum Checksum {
    XOR8,
    XOR16,
    XOR32,
    MD5,
}

/// The bytes of a message combined by exclusive or.
pub open spec fn xor8_of(s: Seq<u8>) -> u8
    decreases s.len(),
{
    if s.len() == 0 {
        0
    } else {
        xor8_of(s.drop_last()) ^ s.last()
    }
}

/// The 16-bit checksum after one more byte.
pub open spec fn crc16_step(crc: u16, b: u8) -> u16 {
    ((crc << 8) ^ CRC16_TABLE[(((crc >> 8) ^ (b as u16)) & 0xff) as int]) & 0xffff
}

/// The 16-bit checksum of a message.
pub open spec fn crc16_of(s: Seq<u8>) -> u16
    decreases s.len(),
{
    if s.len() == 0 {
        0
    } else {
        crc16_step(crc16_of(s.drop_last()), s.last())
    }
}

/// The 32-bit checksum after one more byte.
pub open spec fn crc32_step(crc: u32, b: u8) -> u32 {
    ((crc << 8) ^ CRC32_TABLE[(((crc >> 24) ^ (b as u32)) & 0xff) as int]) & 0xffffffff
}

/// The 32-bit checksum of a message.
pub open spec fn crc32_of(s: Seq<u8>) -> u32
    decreases s.len(),
{
    if s.len() == 0 {
        0
    } else {
        crc32_step(crc32_of(s.drop_last()), s.last())
    }
}

impl Checksum {
    /// The kind of checksum that goes with a message of length `mlen`.
    pub fn from_len(mlen: usize, enhanced: bool) -> (r: Self)
        ensures
            r == if enhanced {
                if mlen < 128 {
                    Checksum::XOR16
                } else if mlen < 1048575 {
                    Checksum::XOR32
                } else {
                    Checksum::MD5
                }
            } else {
                if mlen < 128 {
                    Checksum::XOR8
                } else if mlen < 4096 {
                    Checksum::XOR16
                } else if mlen < 1048575 {
                    Checksum::XOR32
                } else {
                    Checksum::MD5
                }
            },
    {
        if enhanced {
            if mlen < 128 {
                Checksum::XOR16
            } else if mlen < 1048575 {
                Checksum::XOR32
            } else {
                Checksum::MD5
            }
        } else {
            if mlen < 128 {
                Checksum::XOR8
            } else if mlen < 4096 {
                Checksum::XOR16
            } else if mlen < 1048575 {
                Checksum::XOR32
            } else {
                Checksum::MD5
            }
        }
    }

    /// Number of bytes of the checksum.
    pub open spec fn spec_len(&self) -> usize {
        match self {
            Checksum::XOR8 => 1,
            Checksum::XOR16 => 2,
            Checksum::XOR32 => 4,
            Checksum::MD5 => 16,
        }
    }

    #[verifier::when_used_as_spec(spec_len)]
    pub fn len(&self) -> (r: usize)
        ensures
            r == self.spec_len(),
    {
        match self {
            Checksum::XOR8 => 1,
            Checksum::XOR16 => 2,
            Checksum::XOR32 => 4,
            Checksum::MD5 => 16,
        }
    }

    /// The number that the first `n` bytes spell, most significant
    /// first or least significant first.
    pub open spec fn decoded(s: Seq<u8>, n: nat, big_endian: bool) -> nat
        decreases n,
    {
        if n == 0 {
            0
        } else if big_endian {
            Checksum::decoded(s, (n - 1) as nat, true) * 256 + s[n - 1] as nat
        } else {
            Checksum::decoded(s.drop_first(), (n - 1) as nat, false) * 256 + s[0] as nat
        }
    }

    /// Reads a checksum of 1, 2 or 4 bytes.
    pub fn decode(&self, slice: &[u8], ck_len: usize, big_endian: bool) -> (r: u128)
        requires
            ck_len == 1 || ck_len == 2 || ck_len == 4,
            ck_len <= slice@.len(),
        ensures
            r == Checksum::decoded(slice@, ck_len as nat, big_endian),
    {
        proof {
            reveal_with_fuel(Checksum::decoded, 5);
        }
        if ck_len == 1 {
            slice[0] as u128
        } else if ck_len == 2 {
            if big_endian {
                slice[0] as u128 * 256 + slice[1] as u128
            } else {
                slice[1] as u128 * 256 + slice[0] as u128
            }
        } else {
            if big_endian {
                ((slice[0] as u128 * 256 + slice[1] as u128) * 256 + slice[2] as u128) * 256
                    + slice[3] as u128
            } else {
                ((slice[3] as u128 * 256 + slice[2] as u128) * 256 + slice[1] as u128) * 256
                    + slice[0] as u128
            }
        }
    }

    /// The checksum of a kind for a message.
    pub open spec fn of(&self, s: Seq<u8>) -> u128 {
        match self {
            Checksum::XOR8 => xor8_of(s) as u128,
            Checksum::XOR16 => crc16_of(s) as u128,
            Checksum::XOR32 => crc32_of(s) as u128,
            Checksum::MD5 => md5_value(s),
        }
    }

    /// Computes the checksum of the first `size` bytes of a message.
    pub fn calc(&self, bytes: &[u8], size: usize) -> (r: u128)
        requires
            size <= bytes@.len(),
        ensures
            r == self.of(bytes@.take(size as int)),
    {
        match self {
            Checksum::XOR8 => Checksum::xor8_calc(bytes, size),
            Checksum::XOR16 => Checksum::xor16_calc(bytes, size),
            Checksum::XOR32 => Checksum::xor32_calc(bytes, size),
            Checksum::MD5 => md5_digest(bytes, size),
        }
    }

    /// Combines the first `size` bytes by exclusive or.
    pub fn xor8_calc(bytes: &[u8], size: usize) -> (r: u128)
        requires
            size <= bytes@.len(),
        ensures
            r == xor8_of(bytes@.take(size as int)),
    {
        let mut xor: u8 = 0;
        let mut i: usize = 0;
        while i < size
            invariant
                i <= size <= bytes@.len(),
                xor == xor8_of(bytes@.take(i as int)),
            decreases size - i,
        {
            assert(bytes@.take(i as int + 1).drop_last() =~= bytes@.take(i as int));
            xor = xor ^ bytes[i];
            i += 1;
        }
        xor as u128
    }

    /// Computes the 16-bit checksum of the first `size` bytes.
    pub fn xor16_calc(bytes: &[u8], size: usize) -> (r: u128)
        requires
            size <= bytes@.len(),
        ensures
            r == crc16_of(bytes@.take(size as int)),
    {
        let mut crc: u16 = 0;
        let mut i: usize = 0;
        while i < size
            invariant
                i <= size <= bytes@.len(),
                crc == crc16_of(bytes@.take(i as int)),
            decreases size - i,
        {
            assert(bytes@.take(i as int + 1).drop_last() =~= bytes@.take(i as int));
            let b = bytes[i];
            let index: u16 = ((crc >> 8) ^ (b as u16)) & 0xff;
            assert(index < 256) by (bit_vector)
                requires
                    index == ((crc >> 8) ^ (b as u16)) & 0xff,
            ;
            crc = ((crc << 8) ^ CRC16_TABLE[index as usize]) & 0xffff;
            i += 1;
        }
        crc as u128
    }

    /// Computes the 32-bit checksum of the first `size` bytes.
    pub fn xor32_calc(bytes: &[u8], size: usize) -> (r: u128)
        requires
            size <= bytes@.len(),
        ensures
            r == crc32_of(bytes@.take(size as int)),
    {
        let mut crc: u32 = 0;
        let mut i: usize = 0;
        while i < size
            invariant
                i <= size <= bytes@.len(),
                crc == crc32_of(bytes@.take(i as int)),
            decreases size - i,
        {
            assert(bytes@.take(i as int + 1).drop_last() =~= bytes@.take(i as int));
            let b = bytes[i];
            let index: u32 = ((crc >> 24) ^ (b as u32)) & 0xff;
            assert(index < 256) by (bit_vector)
                requires
                    index == ((crc >> 24) ^ (b as u32)) & 0xff,
            ;
            crc = ((crc << 8) ^ CRC32_TABLE[index as usize]) & 0xffffffff;
            i += 1;
        }
        crc as u128
    }
}

} // verus!
