//! Notification payload building: the matched rides are serialized as
//! JSON, compressed with gzip, and base64-encoded for transport.
//!
//! The JSON writer is verified down to the bytes; compression and
//! transport encoding are outside calls whose results are named.

use vstd::prelude::*;

use crate::model::{rides_view, RideTime, RideTimeView};

verus! {

/// The lowercase hexadecimal digit for a value below 16.
pub open spec fn hex_digit(n: u8) -> u8 {
    if n < 10 {
        (48 + n) as u8
    } else {
        (87 + n) as u8
    }
}

/// How one byte of a string appears inside a JSON string literal:
/// quote and backslash get a backslash escape, control characters get
/// their short escape or a `\u00xx` escape, all else passes through.
pub open spec fn escaped_byte(b: u8) -> Seq<u8> {
    if b == 34 {
        seq![92u8, 34u8]
    } else if b == 92 {
        seq![92u8, 92u8]
    } else if b == 8 {
        seq![92u8, 98u8]
    } else if b == 9 {
        seq![92u8, 116u8]
    } else if b == 10 {
        seq![92u8, 110u8]
    } else if b == 12 {
        seq![92u8, 102u8]
    } else if b == 13 {
        seq![92u8, 114u8]
    } else if b < 32 {
        seq![92u8, 117u8, 48u8, 48u8, hex_digit(b / 16), hex_digit(b % 16)]
    } else {
        seq![b]
    }
}

/// A byte string escaped for use inside a JSON string literal.
pub open spec fn escaped(bytes: Seq<u8>) -> Seq<u8>
    decreases bytes.len(),
{
    if bytes.len() == 0 {
        Seq::empty()
    } else {
        escaped(bytes.drop_last()) + escaped_byte(bytes.last())
    }
}

/// The decimal digits of `n`, most significant first.
pub open spec fn dec_digits(n: nat) -> Seq<u8>
    decreases n,
{
    if n < 10 {
        seq![(48 + n) as u8]
    } else {
        dec_digits(n / 10) + seq![(48 + n % 10) as u8]
    }
}

/// The JSON value for a reported status: `"Open"`, `"Closed"`, or
/// `{"Wait":n}`.
pub open spec fn json_of_status(s: crate::model::RideStatus) -> Seq<u8> {
    match s {
        crate::model::RideStatus::Open => seq![34u8, 79u8, 112u8, 101u8, 110u8, 34u8],
        crate::model::RideStatus::Closed => seq![
            34u8,
            67u8,
            108u8,
            111u8,
            115u8,
            101u8,
            100u8,
            34u8,
        ],
        crate::model::RideStatus::Wait(t) => seq![123u8, 34u8, 87u8, 97u8, 105u8, 116u8, 34u8, 58u8]
            + dec_digits(t as nat) + seq![125u8],
    }
}

/// The JSON object for one reported ride: `{"name":…,"status":…}`.
pub open spec fn json_of_ride(r: RideTimeView) -> Seq<u8> {
    seq![123u8, 34u8, 110u8, 97u8, 109u8, 101u8, 34u8, 58u8, 34u8] + escaped(
        vstd::utf8::encode_utf8(r.name),
    ) + seq![34u8, 44u8, 34u8, 115u8, 116u8, 97u8, 116u8, 117u8, 115u8, 34u8, 58u8] + json_of_status(
        r.status,
    ) + seq![125u8]
}

/// The comma-separated JSON objects for a ride list.
pub open spec fn json_items(rides: Seq<RideTimeView>) -> Seq<u8>
    decreases rides.len(),
{
    if rides.len() == 0 {
        Seq::empty()
    } else if rides.len() == 1 {
        json_of_ride(rides[0])
    } else {
        json_items(rides.drop_last()) + seq![44u8] + json_of_ride(rides.last())
    }
}

/// The JSON array for a ride list, exactly as the notification body
/// carries it.
pub open spec fn json_of_rides(rides: Seq<RideTimeView>) -> Seq<u8> {
    seq![91u8] + json_items(rides) + seq![93u8]
}

/// Appends the decimal digits of `n` to `out`.
fn push_dec(out: &mut Vec<u8>, n: u16)
    ensures
        final(out)@ == old(out)@ + dec_digits(n as nat),
    decreases n,
{
    if n < 10 {
        out.push(48 + (n as u8));
        assert(out@ =~= old(out)@ + dec_digits(n as nat));
    } else {
        push_dec(out, n / 10);
        out.push(48 + ((n % 10) as u8));
        assert(out@ =~= old(out)@ + dec_digits(n as nat));
    }
}

/// Appends `bytes`, escaped for a JSON string literal, to `out`.
fn push_escaped(out: &mut Vec<u8>, bytes: &Vec<u8>)
    ensures
        final(out)@ == old(out)@ + escaped(bytes@),
{
    let mut i: usize = 0;
    while i < bytes.len()
        invariant
            i <= bytes.len(),
            out@ == old(out)@ + escaped(bytes@.take(i as int)),
        decreases bytes.len() - i,
    {
        let ghost prefix = bytes@.take(i as int + 1);
        proof {
            assert(prefix.drop_last() =~= bytes@.take(i as int));
            assert(prefix.last() == bytes@[i as int]);
        }
        let b = bytes[i];
        if b == 34 {
            out.push(92);
            out.push(34);
        } else if b == 92 {
            out.push(92);
            out.push(92);
        } else if b == 8 {
            out.push(92);
            out.push(98);
        } else if b == 9 {
            out.push(92);
            out.push(116);
        } else if b == 10 {
            out.push(92);
            out.push(110);
        } else if b == 12 {
            out.push(92);
            out.push(102);
        } else if b == 13 {
            out.push(92);
            out.push(114);
        } else if b < 32 {
            out.push(92);
            out.push(117);
            out.push(48);
            out.push(48);
            out.push(if b / 16 < 10 {
                48 + b / 16
            } else {
                87 + b / 16
            });
            out.push(if b % 16 < 10 {
                48 + b % 16
            } else {
                87 + b % 16
            });
        } else {
            out.push(b);
        }
        proof {
            assert(out@ =~= old(out)@ + escaped(prefix));
        }
        i += 1;
    }
    proof {
        assert(bytes@.take(bytes@.len() as int) =~= bytes@);
    }
}

/// Appends the JSON value of a reported status to `out`.
fn push_status(out: &mut Vec<u8>, s: crate::model::RideStatus)
    ensures
        final(out)@ == old(out)@ + json_of_status(s),
{
    match s {
        crate::model::RideStatus::Open => {
            out.push(34);
            out.push(79);
            out.push(112);
            out.push(101);
            out.push(110);
            out.push(34);
            assert(out@ =~= old(out)@ + json_of_status(s));
        },
        crate::model::RideStatus::Closed => {
            out.push(34);
            out.push(67);
            out.push(108);
            out.push(111);
            out.push(115);
            out.push(101);
            out.push(100);
            out.push(34);
            assert(out@ =~= old(out)@ + json_of_status(s));
        },
        crate::model::RideStatus::Wait(t) => {
            out.push(123);
            out.push(34);
            out.push(87);
            out.push(97);
            out.push(105);
            out.push(116);
            out.push(34);
            out.push(58);
            push_dec(out, t);
            out.push(125);
            assert(out@ =~= old(out)@ + json_of_status(s));
        },
    }
}

/// Appends the JSON object of one reported ride to `out`.
fn push_ride(out: &mut Vec<u8>, r: &RideTime)
    ensures
        final(out)@ == old(out)@ + json_of_ride(r@),
{
    out.push(123);
    out.push(34);
    out.push(110);
    out.push(97);
    out.push(109);
    out.push(101);
    out.push(34);
    out.push(58);
    out.push(34);
    let name_bytes = r.name.as_str().as_bytes_vec();
    push_escaped(out, &name_bytes);
    out.push(34);
    out.push(44);
    out.push(34);
    out.push(115);
    out.push(116);
    out.push(97);
    out.push(116);
    out.push(117);
    out.push(115);
    out.push(34);
    out.push(58);
    push_status(out, r.status);
    out.push(125);
    assert(out@ =~= old(out)@ + json_of_ride(r@));
}

/// Writes the JSON array for a ride list, byte for byte as specified
/// by [`json_of_rides`].
pub fn ride_times_to_json(rides: &Vec<RideTime>) -> (r: Vec<u8>)
    ensures
        r@ == json_of_rides(rides_view(rides@)),
{
    let mut out: Vec<u8> = Vec::new();
    out.push(91);
    let mut i: usize = 0;
    while i < rides.len()
        invariant
            i <= rides.len(),
            out@ == seq![91u8] + json_items(rides_view(rides@).take(i as int)),
        decreases rides.len() - i,
    {
        let ghost prefix = rides_view(rides@).take(i as int + 1);
        proof {
            assert(prefix.drop_last() =~= rides_view(rides@).take(i as int));
            assert(prefix.last() == rides@[i as int]@);
        }
        if i > 0 {
            out.push(44);
        }
        push_ride(&mut out, &rides[i]);
        proof {
            assert(out@ =~= seq![91u8] + json_items(prefix));
        }
        i += 1;
    }
    proof {
        assert(rides_view(rides@).take(rides@.len() as int) =~= rides_view(rides@));
    }
    out.push(93);
    proof {
        assert(out@ =~= json_of_rides(rides_view(rides@)));
    }
    out
}

/// What flate2's gzip encoder at best compression produces for a byte
/// string: a function of the input alone.
pub uninterp spec fn gzip_of(bytes: Seq<u8>) -> Seq<u8>;

/// Relies on flate2's `GzEncoder` at `Compression::best()`: with the
/// default header (no modification time, fixed OS byte) the stream is
/// deterministic in the input bytes, and writing into a `Vec` sink
/// cannot fail.
#[verifier::external_body]
fn gzip_compress(bytes: &Vec<u8>) -> (r: Vec<u8>)
    ensures
        r@ == gzip_of(bytes@),
{
    let mut encoder = flate2::write::GzEncoder::new(Vec::new(), flate2::Compression::best());
    std::io::Write::write_all(&mut encoder, bytes.as_slice()).unwrap();
    encoder.finish().unwrap()
}

/// What the base64 standard-alphabet encoding with padding produces
/// for a byte string.
pub uninterp spec fn base64_of(bytes: Seq<u8>) -> Seq<char>;

/// Relies on base64's `STANDARD` engine (standard alphabet, padded):
/// the encoding is a function of the input bytes alone, four output
/// characters for every three input bytes, rounded up.
#[verifier::external_body]
fn base64_encode(bytes: &Vec<u8>) -> (r: String)
    ensures
        r@ == base64_of(bytes@),
        r@.len() == 4 * ((bytes@.len() + 2) / 3),
{
    base64::Engine::encode(&base64::engine::general_purpose::STANDARD, bytes.as_slice())
}

/// Builds the notification body for the matched rides: their JSON
/// array, gzip-compressed, then base64-encoded for transport.
pub fn build_payload(rides: &Vec<RideTime>) -> (r: String)
    ensures
        r@ == base64_of(gzip_of(json_of_rides(rides_view(rides@)))),
{
    let json = ride_times_to_json(rides);
    let packed = gzip_compress(&json);
    base64_encode(&packed)
}

} // verus!
