//! Payload checksums: 64-bit FNV-1a.
use vstd::prelude::*;

use crate::checksum::{checksum_from, checksum_of, MAX_RECOVERY_PAYLOAD_BYTES};

verus! {

/// One more byte changes nothing but the low eight bits of the checksum, by an
/// exclusive or with the byte, before the whole is multiplied by the prime and
/// cut to 64 bits. This holds of every byte, those above 0x7f included.
pub proof fn law_checksum_takes_in_one_byte(hash: u64, byte: u8)
    ensures
        exists|low: u64|
            {
                &&& low / 256 == hash / 256
                &&& low % 256 == ((hash % 256) as u8 ^ byte) as u64
                &&& #[trigger] (low as int * 1_099_511_628_211) % 18_446_744_073_709_551_616
                    == checksum_from(hash, seq![byte])
            },
{
    reveal_with_fuel(checksum_from, 2);
    let low: u64 = hash ^ (byte as u64);
    assert(low / 256 == hash / 256 && low % 256 == ((hash % 256) as u8 ^ byte) as u64)
        by (bit_vector)
        requires
            low == hash ^ (byte as u64),
    ;
    assert(seq![byte].drop_last() =~= Seq::<u8>::empty());
    assert((low as int * 1_099_511_628_211) % 18_446_744_073_709_551_616 == checksum_from(
        hash,
        seq![byte],
    ));
}

/// The checksum of a payload is taken byte by byte, from the checksum that an
/// empty payload has.
pub proof fn law_checksum_goes_byte_by_byte(bytes: Seq<u8>, byte: u8)
    ensures
        checksum_of(Seq::<u8>::empty()) == 14_695_981_039_346_656_037,
        checksum_of(bytes.push(byte)) == checksum_from(checksum_of(bytes), seq![byte]),
{
    reveal_with_fuel(checksum_from, 2);
    assert(bytes.push(byte).drop_last() =~= bytes);
    assert(seq![byte].drop_last() =~= Seq::<u8>::empty());
}

/// A payload may have 512 MiB, and not a byte more.
pub proof fn law_payload_limit(bytes: int)
    ensures
        bytes <= MAX_RECOVERY_PAYLOAD_BYTES <==> bytes <= 512 * 1024 * 1024,
{
}

} // verus!
