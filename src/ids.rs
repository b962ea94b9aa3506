//! The two identifier strategies: content-hashed and time-ordered.
use crate::encoding::{be_value, encode_half_digest, encode_timestamp, half_digest_text, digit_of, timestamp_text};
use crate::text::chars_of;
use vstd::prelude::*;

verus! {

/// The BLAKE3 digest of the UTF-8 bytes of a text.
pub uninterp spec fn blake3_of_utf8(s: Seq<char>) -> Seq<u8>;

/// Relies on `blake3::hash` over the text's UTF-8 bytes; `Hash::as_bytes`
/// is an array of `blake3::OUT_LEN` (32) bytes.
#[verifier::external_body]
fn blake3_digest(s: &str) -> (r: Vec<u8>)
    ensures
        r@ == blake3_of_utf8(s@),
        r@.len() == 32,
{
    blake3::hash(s.as_bytes()).as_bytes().to_vec()
}

/// Relies on `std::time::SystemTime::now` for the reading, and on
/// `chrono::DateTime::<Utc>::from_timestamp` and `DateTime::timestamp_micros`
/// for the current instant in microseconds since the Unix epoch. `None` where
/// the clock reads before the epoch or beyond chrono's range: no call here
/// panics.
#[verifier::external_body]
fn now_micros() -> (r: Option<i64>) {
    let d = match std::time::SystemTime::now().duration_since(std::time::UNIX_EPOCH) {
        Ok(d) => d,
        Err(_) => return None,
    };
    let secs = match i64::try_from(d.as_secs()) {
        Ok(s) => s,
        Err(_) => return None,
    };
    match chrono::DateTime::<chrono::Utc>::from_timestamp(secs, d.subsec_nanos()) {
        Some(t) => Some(t.timestamp_micros()),
        None => None,
    }
}

/// The current instant in milliseconds since the Unix epoch; 0 where the
/// clock gives no reading.
pub(crate) fn now_millis() -> (r: i64) {
    match now_micros() {
        Some(n) => n / 1000,
        None => 0,
    }
}

/// The content-hashed identifier of a canonical text: the first half of its
/// digest, as base-32 text.
pub open spec fn hash_id_text(data: Seq<char>) -> Seq<char> {
    half_digest_text(be_value(blake3_of_utf8(data).subrange(0, 16)))
}

/// A content-hashed identifier is named by itself: every character is a
/// digit.
pub proof fn lemma_hash_id_digits(data: Seq<char>)
    ensures
        same_id(hash_id_text(data), hash_id_text(data)),
{
    let n = be_value(blake3_of_utf8(data).subrange(0, 16));
    crate::encoding::lemma_digits_value(n * 4, 26);
}

/// Derives the content-hashed identifier of a canonical text.
pub fn create_hash_id(data: &str) -> (r: String)
    ensures
        r@ == hash_id_text(data@),
{
    let digest = blake3_digest(data);
    encode_half_digest(&digest)
}

/// A claimed identifier names the derived one: the same digits, in either
/// case.
pub open spec fn same_id(derived: Seq<char>, claim: Seq<char>) -> bool {
    &&& derived.len() == claim.len()
    &&& forall|i: int|
        0 <= i < claim.len() ==> (#[trigger] digit_of(claim[i])) is Some && digit_of(claim[i])
            == digit_of(derived[i])
}

/// Whether a claimed identifier names the derived one.
pub fn matches_id(derived: &str, claim: &str) -> (r: bool)
    ensures
        r == same_id(derived@, claim@),
{
    let d = chars_of(derived);
    let c = chars_of(claim);
    if d.len() != c.len() {
        return false;
    }
    let mut i: usize = 0;
    while i < c.len()
        invariant
            i <= c@.len(),
            d@.len() == c@.len(),
            d@ == derived@,
            c@ == claim@,
            forall|j: int|
                0 <= j < i ==> (#[trigger] digit_of(c@[j])) is Some && digit_of(c@[j])
                    == digit_of(d@[j]),
        decreases c@.len() - i,
    {
        let a = crate::encoding::digit_value(c[i]);
        let b = crate::encoding::digit_value(d[i]);
        match a {
            None => {
                return false;
            },
            Some(x) => {
                match b {
                    Some(y) => {
                        if x != y {
                            return false;
                        }
                    },
                    None => {
                        return false;
                    },
                }
            },
        }
        i = i + 1;
    }
    true
}

/// Hands out the instants of time-ordered identifiers: strictly increasing,
/// so that two identifiers taken within one clock tick still differ.
pub struct IdClock {
    last: u64,
}

impl IdClock {
    /// The last instant handed out (0 before the first).
    pub closed spec fn last_instant(&self) -> nat {
        self.last as nat
    }

    pub fn new() -> (r: Self)
        ensures
            r.last_instant() == 0,
    {
        IdClock { last: 0 }
    }

    /// The instant for an identifier, given the clock's reading: the reading
    /// where it is later than the last instant, else the next instant after
    /// the last; `None` where no later instant is left.
    pub fn advance(&mut self, observed: u64) -> (r: Option<u64>)
        ensures
            observed > old(self).last_instant() ==> r == Some(observed),
            observed <= old(self).last_instant() && old(self).last_instant() < u64::MAX ==> r
                == Some((old(self).last_instant() + 1) as u64),
            observed <= old(self).last_instant() && old(self).last_instant() == u64::MAX ==> r
                is None,
            match r {
                Some(t) => final(self).last_instant() == t && t > old(self).last_instant(),
                None => final(self).last_instant() == old(self).last_instant(),
            },
    {
        if observed > self.last {
            self.last = observed;
            Some(observed)
        } else if self.last < u64::MAX {
            self.last = self.last + 1;
            Some(self.last)
        } else {
            None
        }
    }

    /// A fresh time-ordered identifier: the text of an instant later than
    /// every one this clock handed out before.
    pub fn create_id(&mut self) -> (r: Option<String>)
        ensures
            r is Some <==> old(self).last_instant() < u64::MAX,
            match r {
                Some(s) => final(self).last_instant() > old(self).last_instant()
                    && s@ == timestamp_text(final(self).last_instant()),
                None => final(self).last_instant() == old(self).last_instant(),
            },
    {
        let now = now_micros();
        let observed: u64 = match now {
            Some(n) => if n < 0 { 0 } else { n as u64 },
            None => 0,
        };
        match self.advance(observed) {
            Some(t) => Some(encode_timestamp(t)),
            None => None,
        }
    }
}

} // verus!
