//! Unit conversions between storage units and bytes.
//!
//! Sector counts are always in 512-byte units, whatever the device's
//! physical sector size: the storage stack reports them that way, so the
//! factor is hard-coded here and read from nowhere. Bucket counts are
//! scaled by the device's own bucket size.

use vstd::prelude::*;
use crate::errors::ExtractionError;
use crate::errors::GExtractionError;
use crate::numbers::is_u64_str;
use crate::numbers::uint_val;
use crate::numbers::parse_u64;
use crate::outside::byte_quantity_of;
use crate::outside::parse_byte_quantity;
use crate::text::str_to_chars;

verus! {

/// Bytes covered by `sectors` sectors of the fixed 512-byte unit.
pub fn sector_count_to_bytes(sectors: u64) -> (r: u128)
    ensures
        r == 512 * (sectors as nat),
{
    (sectors as u128) * 512
}

/// Bytes covered by `buckets` buckets of `bucket_size` bytes each.
pub fn bucket_count_to_bytes(buckets: u64, bucket_size: u64) -> (r: u128)
    ensures
        r == (buckets as nat) * (bucket_size as nat),
{
    proof {
        assert((buckets as u128) * (bucket_size as u128) <= u128::MAX) by (nonlinear_arith)
            requires
                buckets <= u64::MAX,
                bucket_size <= u64::MAX,
        ;
    }
    (buckets as u128) * (bucket_size as u128)
}

/// Bytes named by a textual sector count: 512 times the parsed count.
/// A malformed or oversized count is `InvalidNumber`, carrying the text.
pub fn sectors_to_bytes(text: &str) -> (r: Result<u128, ExtractionError>)
    ensures
        is_u64_str(text@) ==> r == Ok::<u128, ExtractionError>((512 * uint_val(text@)) as u128),
        !is_u64_str(text@) ==> (r matches Err(e) && e@ == (GExtractionError::InvalidNumber {
            text: text@,
        })),
{
    let v = str_to_chars(text);
    match parse_u64(&v) {
        Some(n) => Ok(sector_count_to_bytes(n)),
        None => Err(ExtractionError::InvalidNumber { text: text.to_owned() }),
    }
}

/// The device's bucket size in bytes, read from the human-readable quantity
/// in `text`. A quantity the parser rejects is `InvalidNumber`, carrying the
/// text.
pub fn bucket_size_bytes(text: &str) -> (r: Result<u64, ExtractionError>)
    ensures
        byte_quantity_of(text@) is Some ==> r == Ok::<u64, ExtractionError>(
            byte_quantity_of(text@)->Some_0,
        ),
        byte_quantity_of(text@) is None ==> (r matches Err(e) && e@
            == (GExtractionError::InvalidNumber { text: text@ })),
{
    match parse_byte_quantity(text) {
        Some(n) => Ok(n),
        None => Err(ExtractionError::InvalidNumber { text: text.to_owned() }),
    }
}

/// Bytes named by a textual bucket count under the bucket size that
/// `size_text` names: the parsed count times the parsed size. The count is
/// examined first, as the offending text of an `InvalidNumber` shows.
pub fn buckets_to_bytes(size_text: &str, count_text: &str) -> (r: Result<u128, ExtractionError>)
    ensures
        is_u64_str(count_text@) && byte_quantity_of(size_text@) is Some ==> r == Ok::<
            u128,
            ExtractionError,
        >((uint_val(count_text@) * byte_quantity_of(size_text@)->Some_0) as u128),
        !is_u64_str(count_text@) ==> (r matches Err(e) && e@ == (GExtractionError::InvalidNumber {
            text: count_text@,
        })),
        is_u64_str(count_text@) && byte_quantity_of(size_text@) is None ==> (r matches Err(e) && e@
            == (GExtractionError::InvalidNumber { text: size_text@ })),
{
    let v = str_to_chars(count_text);
    let count = match parse_u64(&v) {
        Some(n) => n,
        None => {
            return Err(ExtractionError::InvalidNumber { text: count_text.to_owned() });
        },
    };
    let size = match bucket_size_bytes(size_text) {
        Ok(n) => n,
        Err(e) => {
            return Err(e);
        },
    };
    Ok(bucket_count_to_bytes(count, size))
}

} // verus!
