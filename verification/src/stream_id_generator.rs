//! Generators for stream identifiers: a short random id and a legacy
//! timestamped one.

use crate::text::hex_digit;
use crate::text::push_char;
use crate::text::spec_is_hex_digit;
use vstd::prelude::*;

verus! {

/// Relies on `rand::random`: a value drawn from the thread-local
/// generator; nothing is promised of it.
pub assume_specification<T>[ rand::random::<T> ]() -> (r: T)
    where
        rand::distributions::Standard: rand::distributions::Distribution<T>,
;

/// Relies on `chrono::Local::now` and `DateTime::format` with the
/// compact `%Y%m%d-%H%M%S` pattern: the local wall-clock time as text;
/// nothing is promised of it.
#[verifier::external_body]
fn local_timestamp_compact() -> (r: String) {
    chrono::Local::now().format("%Y%m%d-%H%M%S").to_string()
}

/// A short stream id: `stream-` followed by sixteen random lower-case hex
/// digits (two per random byte).
pub fn generate_short() -> (r: String)
    ensures
        r@.len() == 23,
        r@.subrange(0, 7) == "stream-"@,
        forall|i: int| 7 <= i < 23 ==> spec_is_hex_digit(r@[i]),
{
    proof {
        reveal_strlit("stream-");
    }
    let mut out = String::from_str("stream-");
    let mut i: usize = 0;
    while i < 8
        invariant
            i <= 8,
            out@.len() == 7 + 2 * i,
            out@.subrange(0, 7) == "stream-"@,
            forall|j: int| 7 <= j < out@.len() ==> spec_is_hex_digit(out@[j]),
        decreases 8 - i,
    {
        let ghost pre = out@;
        let b: u8 = rand::random();
        push_char(&mut out, hex_digit(b / 16));
        push_char(&mut out, hex_digit(b % 16));
        proof {
            assert(out@.subrange(0, 7) =~= pre.subrange(0, 7));
        }
        i += 1;
    }
    out
}

/// A legacy stream id: `stream-`, the local timestamp, a dash, and eight
/// random lower-case hex digits.
pub fn generate_stream_id() -> (r: String)
    ensures
        exists|t: Seq<char>, d: Seq<char>|
            {
                &&& r@ == "stream-"@ + t + "-"@ + d
                &&& d.len() == 8
                &&& forall|i: int| 0 <= i < 8 ==> spec_is_hex_digit(#[trigger] d[i])
            },
{
    let timestamp = local_timestamp_compact();
    let mut digits = String::new();
    let mut i: usize = 0;
    while i < 8
        invariant
            i <= 8,
            digits@.len() == i,
            forall|j: int| 0 <= j < i ==> spec_is_hex_digit(#[trigger] digits@[j]),
        decreases 8 - i,
    {
        let b: u8 = rand::random();
        push_char(&mut digits, hex_digit(b % 16));
        i += 1;
    }
    let out = String::from_str("stream-").concat(timestamp.as_str()).concat("-").concat(
        digits.as_str(),
    );
    proof {
        assert(out@ == "stream-"@ + timestamp@ + "-"@ + digits@);
        assert(((("stream-"@ + timestamp@) + "-"@) + digits@) =~= "stream-"@ + timestamp@ + "-"@
            + digits@);
    }
    out
}

} // verus!
