//! Contracts assumed about outside code.
//!
//! Each item here wraps or specifies one function of an outside crate (or of
//! std where vstd gives it no specification); everything else in the library
//! is verified against these contracts.

use vstd::prelude::*;

verus! {

/// Relies on str's PartialEq: slices are equal exactly when their
/// character sequences are.
pub assume_specification[ <str as PartialEq<str>>::eq ](a: &str, b: &str) -> (r: bool)
    ensures
        r == (a@ == b@),
;

/// Relies on std's `SystemTime::now` and `duration_since(UNIX_EPOCH)`: the
/// current wall-clock time as milliseconds since the Unix epoch, negative
/// when the system clock reads before the epoch.  Nothing is assumed about
/// the clock's reading; both arms of `duration_since` are handled, so the
/// call cannot abort.
#[verifier::external_body]
pub fn now_unix_millis() -> i64 {
    match std::time::SystemTime::now().duration_since(std::time::UNIX_EPOCH) {
        Ok(d) => d.as_millis() as i64,
        Err(e) => -(e.duration().as_millis() as i64),
    }
}

/// The RFC 3339 text chrono renders for a UTC time given as milliseconds
/// since the Unix epoch.  UTC rendering depends on the millisecond value
/// alone.
pub uninterp spec fn rfc3339_of(millis: int) -> Seq<char>;

/// Relies on chrono's `DateTime::<Utc>::from_timestamp_millis` and
/// `to_rfc3339`: `None` only for timestamps chrono cannot represent (its
/// documentation bounds the range at roughly ±262,000 years from the common
/// era, so every timestamp within ±3,000 years of the epoch converts).
#[verifier::external_body]
pub fn rfc3339_millis(millis: i64) -> (r: Option<String>)
    ensures
        r matches Some(s) ==> s@ == rfc3339_of(millis as int),
        -100_000_000_000_000 <= millis <= 100_000_000_000_000 ==> r is Some,
{
    chrono::DateTime::<chrono::Utc>::from_timestamp_millis(millis).map(|dt| dt.to_rfc3339())
}

/// The text base64's standard padded engine produces for a byte sequence.
/// The encoding depends on the bytes alone.
pub uninterp spec fn base64_of(bytes: Seq<u8>) -> Seq<char>;

/// Relies on base64's `engine::general_purpose::STANDARD` (padded) through
/// `Engine::encode`: the text depends on the bytes alone, its length is
/// `4 * ceil(n / 3)`, and empty input encodes to empty text.  The length
/// bound in `requires` keeps the crate's buffer-size computation from
/// overflowing, where it would panic.
#[verifier::external_body]
pub fn base64_encode(bytes: &Vec<u8>) -> (r: String)
    requires
        bytes@.len() / 3 * 4 + 4 <= usize::MAX,
    ensures
        r@ == base64_of(bytes@),
        r@.len() == 4 * ((bytes@.len() + 2) / 3),
{
    base64::Engine::encode(&base64::engine::general_purpose::STANDARD, bytes)
}

/// Relies on getrandom's `fill` and uuid's `Builder::from_random_bytes`: a
/// freshly drawn random version-4 identifier.  Nothing is assumed of the
/// value; should the operating system's random source fail, the bytes stay
/// zero rather than aborting.
#[verifier::external_body]
pub fn fresh_encoder_id() -> u128 {
    let mut bytes = [0u8; 16];
    let _ = getrandom::fill(&mut bytes);
    uuid::Builder::from_random_bytes(bytes).into_uuid().as_u128()
}

/// The bytes csv's default writer produces for one record.  The encoding
/// depends on the record's fields alone.
pub uninterp spec fn csv_line_of(fields: Seq<Seq<char>>) -> Seq<u8>;

/// Relies on csv's `Writer` over an in-memory buffer: `write_record` encodes
/// one record as one line whose bytes depend on the fields alone.  Writing
/// to a `Vec<u8>` cannot fail.
#[verifier::external_body]
pub fn csv_encode_record(fields: &Vec<String>) -> (r: Vec<u8>)
    ensures
        r@ == csv_line_of(Seq::new(fields@.len(), |i: int| fields@[i]@)),
{
    let mut w = csv::Writer::from_writer(Vec::new());
    let _ = w.write_record(fields);
    w.into_inner().unwrap_or_default()
}

} // verus!
