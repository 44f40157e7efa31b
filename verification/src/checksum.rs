//! The checksum of a recovery payload: 64-bit FNV-1a, taken as the payload is
//! read piece by piece, together with the payload's size.
use vstd::prelude::*;

verus! {

/// The largest payload that is read, in bytes.
pub const MAX_RECOVERY_PAYLOAD_BYTES: u64 = 536_870_912;

/// The checksum of an empty payload.
pub const CHECKSUM_BASIS: u64 = 14_695_981_039_346_656_037;

pub const CHECKSUM_PRIME: u64 = 1_099_511_628_211;

/// One more byte in the checksum.
pub open spec fn mixed(hash: u64, byte: u8) -> u64 {
    (((hash ^ byte as u64) as nat * CHECKSUM_PRIME as nat) % 0x1_0000_0000_0000_0000nat) as u64
}

/// The checksum after more bytes.
pub open spec fn checksum_from(hash: u64, bytes: Seq<u8>) -> u64
    decreases bytes.len(),
{
    if bytes.len() == 0 {
        hash
    } else {
        mixed(checksum_from(hash, bytes.drop_last()), bytes.last())
    }
}

/// The checksum of a payload.
pub open spec fn checksum_of(bytes: Seq<u8>) -> u64 {
    checksum_from(CHECKSUM_BASIS, bytes)
}

/// How much of a payload was read, and its checksum so far.
#[derive(Debug, Clone, Copy)]
pub struct PayloadChecksum {
    pub bytes: u64,
    pub hash: u64,
}

impl PayloadChecksum {
    /// Before anything is read.
    pub fn new() -> (r: PayloadChecksum)
        ensures
            r.bytes == 0,
            r.hash == CHECKSUM_BASIS,
    {
        PayloadChecksum { bytes: 0, hash: CHECKSUM_BASIS }
    }

    /// The size and checksum of these bytes.
    pub open spec fn sums(self, bytes: Seq<u8>) -> bool {
        self.bytes == bytes.len() && self.hash == checksum_of(bytes)
    }

    /// Takes in the next piece; a payload over the limit is refused.
    pub fn update(self, piece: &[u8]) -> (r: Result<PayloadChecksum, String>)
        ensures
            match r {
                Ok(next) => self.bytes + piece@.len() <= MAX_RECOVERY_PAYLOAD_BYTES && next.bytes
                    == self.bytes + piece@.len() && next.hash == checksum_from(self.hash, piece@),
                Err(e) => if self.bytes + piece@.len() > u64::MAX {
                    e@ == "Recovery payload byte count overflowed"@
                } else {
                    self.bytes + piece@.len() > MAX_RECOVERY_PAYLOAD_BYTES && e@
                        == "Recovery payload exceeds its 512 MiB safety limit"@
                },
            },
    {
        let bytes = match self.bytes.checked_add(piece.len() as u64) {
            Some(bytes) => bytes,
            None => {
                return Err("Recovery payload byte count overflowed".to_owned());
            },
        };
        if bytes > MAX_RECOVERY_PAYLOAD_BYTES {
            return Err("Recovery payload exceeds its 512 MiB safety limit".to_owned());
        }
        let mut hash: u64 = self.hash;
        let mut i: usize = 0;
        assert(piece@.take(0) =~= Seq::<u8>::empty());
        while i < piece.len()
            invariant
                i <= piece.len(),
                hash == checksum_from(self.hash, piece@.take(i as int)),
            decreases piece.len() - i,
        {
            assert(piece@.take(i + 1).drop_last() =~= piece@.take(i as int));
            hash = (hash ^ piece[i] as u64).wrapping_mul(CHECKSUM_PRIME);
            i += 1;
        }
        assert(piece@.take(piece@.len() as int) =~= piece@);
        Ok(PayloadChecksum { bytes, hash })
    }
}

/// The message for a payload that cannot be opened.
pub fn open_failure(path: &str, error: &str) -> (r: String)
    ensures
        r@ == "Cannot open recovery payload "@ + path@ + ": "@ + error@,
{
    let mut r = "Cannot open recovery payload ".to_owned();
    r.append(path);
    r.append(": ");
    r.append(error);
    r
}

/// Goes on with the payload at `path` after a read: an empty piece ends it
/// (`None`), any other is taken in.
pub fn recovery_checksum(path: &str, sum: PayloadChecksum, read: &Result<Vec<u8>, String>) -> (r:
    Result<Option<PayloadChecksum>, String>)
    ensures
        match *read {
            Err(error) => r matches Err(e) && e@ == "Cannot read recovery payload "@ + path@ + ": "@
                + error@,
            Ok(piece) => match r {
                Ok(None) => piece@.len() == 0,
                Ok(Some(next)) => piece@.len() > 0 && sum.bytes + piece@.len()
                    <= MAX_RECOVERY_PAYLOAD_BYTES && next.bytes == sum.bytes + piece@.len()
                    && next.hash == checksum_from(sum.hash, piece@),
                Err(e) => piece@.len() > 0 && if sum.bytes + piece@.len() > u64::MAX {
                    e@ == "Recovery payload byte count overflowed"@
                } else {
                    sum.bytes + piece@.len() > MAX_RECOVERY_PAYLOAD_BYTES && e@
                        == "Recovery payload exceeds its 512 MiB safety limit"@
                },
            },
        },
{
    match read {
        Err(error) => {
            let mut e = "Cannot read recovery payload ".to_owned();
            e.append(path);
            e.append(": ");
            e.append(error.as_str());
            Err(e)
        },
        Ok(piece) => {
            if piece.len() == 0 {
                return Ok(None);
            }
            match sum.update(piece.as_slice()) {
                Ok(next) => Ok(Some(next)),
                Err(e) => Err(e),
            }
        },
    }
}

/// However a payload is cut into pieces, its checksum is the same.
pub proof fn law_checksum_ignores_the_pieces(hash: u64, a: Seq<u8>, b: Seq<u8>)
    ensures
        checksum_from(checksum_from(hash, a), b) == checksum_from(hash, a + b),
    decreases b.len(),
{
    if b.len() == 0 {
        assert(a + b =~= a);
    } else {
        law_checksum_ignores_the_pieces(hash, a, b.drop_last());
        assert((a + b).drop_last() =~= a + b.drop_last());
    }
}

/// Size and checksum stay those of all that was read: what holds of the bytes
/// before a piece holds with the piece after it.
pub proof fn law_sums_all_that_was_read(
    sum: PayloadChecksum,
    next: PayloadChecksum,
    before: Seq<u8>,
    piece: Seq<u8>,
)
    requires
        sum.sums(before),
        next.bytes == sum.bytes + piece.len(),
        next.hash == checksum_from(sum.hash, piece),
    ensures
        next.sums(before + piece),
{
    law_checksum_ignores_the_pieces(CHECKSUM_BASIS, before, piece);
}

} // verus!
