//! The CRC-32 checksum of the ZIP format (CRC-32/ISO-HDLC, also called the
//! IEEE CRC-32): reflected polynomial `0xEDB88320`, a register that starts
//! with all bits set, and a result with all bits inverted.

use vstd::prelude::*;

verus! {

/// The register after one bit: shifted right, and combined with the
/// polynomial where the bit that left it was set.
pub open spec fn crc32_shift(register: u32) -> u32 {
    if register & 1 == 1 {
        (register >> 1) ^ 0xEDB8_8320
    } else {
        register >> 1
    }
}

/// The register after the eight bits of `byte`.
pub open spec fn crc32_byte(register: u32, byte: u8) -> u32 {
    crc32_shift(
        crc32_shift(
            crc32_shift(
                crc32_shift(
                    crc32_shift(crc32_shift(crc32_shift(crc32_shift(register ^ (byte as u32))))),
                ),
            ),
        ),
    )
}

/// The register after the bytes of `input`; it starts with all bits set.
pub open spec fn crc32_register(input: Seq<u8>) -> u32
    decreases input.len(),
{
    if input.len() == 0 {
        0xFFFF_FFFF
    } else {
        crc32_byte(crc32_register(input.drop_last()), input.last())
    }
}

/// The CRC-32 checksum of `input`: the register after its bytes, inverted.
pub open spec fn crc32_of(input: Seq<u8>) -> u32 {
    crc32_register(input) ^ 0xFFFF_FFFF
}

/// The register after `k + 1` bytes is the register after `k` bytes, taken
/// through byte `k`.
pub proof fn lemma_crc32_register_step(input: Seq<u8>, k: int)
    requires
        0 <= k < input.len(),
    ensures
        crc32_register(input.take(k + 1)) == crc32_byte(crc32_register(input.take(k)), input[k]),
{
    assert(input.take(k + 1).drop_last() =~= input.take(k));
}

/// The registers on the way through the digits `1` to `9`.
proof fn lemma_check_string_registers()
    by (bit_vector)
    ensures
        crc32_byte(0xFFFF_FFFFu32, 0x31u8) == 0x7C23_1048u32,
        crc32_byte(0x7C23_1048u32, 0x32u8) == 0xB0AC_BB32u32,
        crc32_byte(0xB0AC_BB32u32, 0x33u8) == 0x77B7_9C2Du32,
        crc32_byte(0x77B7_9C2Du32, 0x34u8) == 0x641C_1F5Cu32,
        crc32_byte(0x641C_1F5Cu32, 0x35u8) == 0x340A_C5E3u32,
        crc32_byte(0x340A_C5E3u32, 0x36u8) == 0xF68D_2C9Eu32,
        crc32_byte(0xF68D_2C9Eu32, 0x37u8) == 0xAFFC_9660u32,
        crc32_byte(0xAFFC_9660u32, 0x38u8) == 0x651F_2550u32,
        crc32_byte(0x651F_2550u32, 0x39u8) == 0x340B_C6D9u32,
        0x340B_C6D9u32 ^ 0xFFFF_FFFFu32 == 0xCBF4_3926u32,
        0xFFFF_FFFFu32 ^ 0xFFFF_FFFFu32 == 0u32,
{
}

/// The checksum of no bytes is 0, and the checksum of the nine digits
/// `123456789` is `0xCBF43926`, the check value of CRC-32/ISO-HDLC.
pub proof fn crc32_check_values()
    ensures
        crc32_of(Seq::<u8>::empty()) == 0,
        crc32_of(seq![0x31u8, 0x32, 0x33, 0x34, 0x35, 0x36, 0x37, 0x38, 0x39]) == 0xCBF4_3926,
{
    let digits = seq![0x31u8, 0x32, 0x33, 0x34, 0x35, 0x36, 0x37, 0x38, 0x39];
    lemma_check_string_registers();
    assert(digits.take(0) =~= Seq::<u8>::empty());
    lemma_crc32_register_step(digits, 0);
    lemma_crc32_register_step(digits, 1);
    lemma_crc32_register_step(digits, 2);
    lemma_crc32_register_step(digits, 3);
    lemma_crc32_register_step(digits, 4);
    lemma_crc32_register_step(digits, 5);
    lemma_crc32_register_step(digits, 6);
    lemma_crc32_register_step(digits, 7);
    lemma_crc32_register_step(digits, 8);
    assert(digits.take(9) =~= digits);
}

} // verus!
