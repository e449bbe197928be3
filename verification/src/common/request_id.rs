//! Request ids: `tez-`, eight hexadecimal digits mixed from the clock and
//! the request's number, `-`, and the number modulo 10000 in four digits.
use vstd::prelude::*;
use crate::clock::unix_subsec_nanos;
use crate::num::{
    all_lower_hex, dec_chars, dec_repr, four_digits, hex_chars, hex_repr, lemma_four_digits,
    lemma_hex_repr_shape, lemma_pow16, lemma_zero_pad_hex, pad_zeros, zero_pad,
};
use crate::text::{chars_of, string_from_chars};

verus! {

/// The hexadecimal part: the clock's nanoseconds mixed with the request's
/// number times the golden-ratio constant, in 32 bits.
pub open spec fn request_hash(nanos: u32, count: u64) -> u32 {
    nanos ^ (count as u32).wrapping_mul(0x9e3779b9)
}

/// The id of request number `count` made when the clock's sub-second part
/// read `nanos`.
pub open spec fn request_id_text(nanos: u32, count: u64) -> Seq<char> {
    "tez-"@ + zero_pad(hex_repr(request_hash(nanos, count) as nat), 8) + "-"@ + zero_pad(
        dec_repr((count % 10000) as nat),
        4,
    )
}

/// The id of request number `count`, made at the clock reading `nanos`.
pub fn format_request_id(nanos: u32, count: u64) -> (r: String)
    ensures
        r@ == request_id_text(nanos, count),
{
    let hash: u32 = nanos ^ (count as u32).wrapping_mul(0x9e3779b9);
    let mut out = chars_of("tez-");
    let mut hex = pad_zeros(&hex_chars(hash as u64), 8);
    out.append(&mut hex);
    out.push('-');
    let mut num = pad_zeros(&dec_chars(count % 10000), 4);
    out.append(&mut num);
    assert(out@ =~= request_id_text(nanos, count)) by {
        reveal_strlit("-");
    }
    string_from_chars(&out)
}

/// The id of request number `count`, made now.
pub fn generate_request_id(count: u64) -> (r: String)
    ensures
        exists|n: u32| r@ == request_id_text(n, count),
{
    let nanos = unix_subsec_nanos();
    format_request_id(nanos, count)
}

/// Every request id has the form `tez-`, eight lowercase hexadecimal
/// digits, `-`, and the request's number modulo 10000 in four decimal
/// digits: seventeen characters. Two requests whose numbers differ modulo
/// 10000 get different ids, so any 10000 consecutive requests get distinct
/// ids, whatever the clock read.
pub proof fn lemma_request_id_shape(nanos: u32, count: u64, nanos2: u32, count2: u64)
    ensures
        request_id_text(nanos, count).len() == 17,
        request_id_text(nanos, count).subrange(0, 4) == "tez-"@,
        all_lower_hex(request_id_text(nanos, count).subrange(4, 12)),
        request_id_text(nanos, count)[12] == '-',
        request_id_text(nanos, count).subrange(13, 17) == four_digits((count % 10000) as nat),
        count % 10000 != count2 % 10000 ==> request_id_text(nanos, count) != request_id_text(
            nanos2,
            count2,
        ),
{
    reveal_strlit("tez-");
    reveal_strlit("-");
    let h = hex_repr(request_hash(nanos, count) as nat);
    lemma_pow16();
    lemma_hex_repr_shape(request_hash(nanos, count) as nat, 8);
    lemma_zero_pad_hex(h, 8);
    let hp = zero_pad(h, 8);
    let c = (count % 10000) as nat;
    let c2 = (count2 % 10000) as nat;
    lemma_four_digits(c, c2);
    lemma_four_digits(c2, c);
    let t = request_id_text(nanos, count);
    assert(t == "tez-"@ + hp + "-"@ + four_digits(c));
    assert(t.subrange(0, 4) =~= "tez-"@);
    assert(t.subrange(4, 12) =~= hp);
    assert(t.subrange(13, 17) =~= four_digits(c));
    let h2 = hex_repr(request_hash(nanos2, count2) as nat);
    lemma_hex_repr_shape(request_hash(nanos2, count2) as nat, 8);
    lemma_zero_pad_hex(h2, 8);
    let t2 = request_id_text(nanos2, count2);
    assert(t2 == "tez-"@ + zero_pad(h2, 8) + "-"@ + four_digits(c2));
    assert(t2.subrange(13, 17) =~= four_digits(c2));
    if c != c2 {
        assert(four_digits(c) != four_digits(c2));
        if t == t2 {
            assert(t.subrange(13, 17) == t2.subrange(13, 17));
        }
    }
}

} // verus!
