//! The ticket text: the JSON form of a sharer's address, written as URL-safe
//! base64 without padding so that it survives copy and paste.
//!
//! The JSON itself is produced and read where the address type lives; this
//! module turns those bytes into text and back, tolerating ASCII whitespace
//! around the text.

use vstd::prelude::*;
use vstd::slice::slice_subrange;
use vstd::string::StringSliceAdditionalSpecFns;

verus! {

/// The byte of the URL-safe base64 symbol for a six-bit value `v`:
/// `A`-`Z`, then `a`-`z`, then `0`-`9`, then `-` and `_`.
pub open spec fn symbol(v: int) -> u8 {
    if v < 26 {
        (65 + v) as u8
    } else if v < 52 {
        (97 + v - 26) as u8
    } else if v < 62 {
        (48 + v - 52) as u8
    } else if v == 62 {
        45
    } else {
        95
    }
}

/// A byte of the URL-safe base64 alphabet.
pub open spec fn is_url_safe_byte(b: u8) -> bool {
    ||| 65 <= b <= 90
    ||| 97 <= b <= 122
    ||| 48 <= b <= 57
    ||| b == 45
    ||| b == 95
}

/// A character of the URL-safe base64 alphabet (no `+`, `/` or `=`).
pub open spec fn is_url_safe_symbol(c: char) -> bool {
    ||| 65 <= c as u32 <= 90
    ||| 97 <= c as u32 <= 122
    ||| 48 <= c as u32 <= 57
    ||| c as u32 == 45
    ||| c as u32 == 95
}

/// The URL-safe base64 text without padding that encodes `data`, as bytes:
/// every three bytes become four symbols of six bits each, most significant
/// bits first; a last one or two bytes become two or three symbols, the
/// unused low bits zero.
pub open spec fn base64url_bytes(data: Seq<u8>) -> Seq<u8>
    decreases data.len(),
{
    let b0 = data[0] as int;
    let b1 = data[1] as int;
    let b2 = data[2] as int;
    if data.len() == 0 {
        Seq::empty()
    } else if data.len() == 1 {
        seq![symbol(b0 / 4), symbol((b0 % 4) * 16)]
    } else if data.len() == 2 {
        seq![symbol(b0 / 4), symbol((b0 % 4) * 16 + b1 / 16), symbol((b1 % 16) * 4)]
    } else {
        seq![
            symbol(b0 / 4),
            symbol((b0 % 4) * 16 + b1 / 16),
            symbol((b1 % 16) * 4 + b2 / 64),
            symbol(b2 % 64),
        ] + base64url_bytes(data.subrange(3, data.len() as int))
    }
}

proof fn lemma_symbol(v: int, w: int)
    requires
        0 <= v < 64,
        0 <= w < 64,
    ensures
        is_url_safe_byte(symbol(v)),
        symbol(v) == symbol(w) ==> v == w,
{
}

/// The base64 text of `data` has one symbol per six bits, rounded up, and
/// uses only the URL-safe alphabet.
pub proof fn lemma_base64url_shape(data: Seq<u8>)
    ensures
        base64url_bytes(data).len() == (8 * data.len() + 5) / 6,
        forall|i: int|
            0 <= i < base64url_bytes(data).len() ==> is_url_safe_byte(
                #[trigger] base64url_bytes(data)[i],
            ),
    decreases data.len(),
{
    let t = base64url_bytes(data);
    let b0 = data[0] as int;
    let b1 = data[1] as int;
    let b2 = data[2] as int;
    if data.len() == 0 {
    } else if data.len() <= 2 {
        lemma_symbol(b0 / 4, 0);
        lemma_symbol((b0 % 4) * 16, 0);
        if data.len() == 2 {
            lemma_symbol((b0 % 4) * 16 + b1 / 16, 0);
            lemma_symbol((b1 % 16) * 4, 0);
        }
    } else {
        let rest = data.subrange(3, data.len() as int);
        lemma_base64url_shape(rest);
        lemma_symbol(b0 / 4, 0);
        lemma_symbol((b0 % 4) * 16 + b1 / 16, 0);
        lemma_symbol((b1 % 16) * 4 + b2 / 64, 0);
        lemma_symbol(b2 % 64, 0);
        assert forall|i: int| 0 <= i < t.len() implies is_url_safe_byte(#[trigger] t[i]) by {
            if i >= 4 {
                assert(t[i] == base64url_bytes(rest)[i - 4]);
            }
        }
    }
}

/// Different bytes have different base64 texts.
pub proof fn lemma_base64url_injective(a: Seq<u8>, b: Seq<u8>)
    requires
        base64url_bytes(a) == base64url_bytes(b),
    ensures
        a == b,
    decreases a.len(),
{
    lemma_base64url_shape(a);
    lemma_base64url_shape(b);
    let t = base64url_bytes(a);
    assert(a.len() == b.len());
    if a.len() == 0 {
        assert(a =~= b);
    } else {
        let a0 = a[0] as int;
        let b0 = b[0] as int;
        lemma_symbol(a0 / 4, b0 / 4);
        if a.len() == 1 {
            lemma_symbol((a0 % 4) * 16, (b0 % 4) * 16);
            assert(t[1] == symbol((a0 % 4) * 16) && t[1] == symbol((b0 % 4) * 16));
            assert(a =~= b);
        } else {
            let a1 = a[1] as int;
            let b1 = b[1] as int;
            assert(t[0] == symbol(a0 / 4) && t[0] == symbol(b0 / 4));
            assert(t[1] == symbol((a0 % 4) * 16 + a1 / 16));
            assert(t[1] == symbol((b0 % 4) * 16 + b1 / 16));
            lemma_symbol((a0 % 4) * 16 + a1 / 16, (b0 % 4) * 16 + b1 / 16);
            assert(a0 == b0 && a1 / 16 == b1 / 16) by (nonlinear_arith)
                requires
                    0 <= a0 < 256,
                    0 <= b0 < 256,
                    0 <= a1 < 256,
                    0 <= b1 < 256,
                    a0 / 4 == b0 / 4,
                    (a0 % 4) * 16 + a1 / 16 == (b0 % 4) * 16 + b1 / 16,
            ;
            if a.len() == 2 {
                lemma_symbol((a1 % 16) * 4, (b1 % 16) * 4);
                assert(t[2] == symbol((a1 % 16) * 4) && t[2] == symbol((b1 % 16) * 4));
                assert(a1 == b1) by (nonlinear_arith)
                    requires
                        0 <= a1 < 256,
                        0 <= b1 < 256,
                        a1 / 16 == b1 / 16,
                        (a1 % 16) * 4 == (b1 % 16) * 4,
                ;
                assert(a =~= b);
            } else {
                let a2 = a[2] as int;
                let b2 = b[2] as int;
                lemma_symbol((a1 % 16) * 4 + a2 / 64, (b1 % 16) * 4 + b2 / 64);
                lemma_symbol(a2 % 64, b2 % 64);
                assert(t[2] == symbol((a1 % 16) * 4 + a2 / 64));
                assert(t[2] == symbol((b1 % 16) * 4 + b2 / 64));
                assert(t[3] == symbol(a2 % 64) && t[3] == symbol(b2 % 64));
                assert(a1 == b1 && a2 == b2) by (nonlinear_arith)
                    requires
                        0 <= a1 < 256,
                        0 <= b1 < 256,
                        0 <= a2 < 256,
                        0 <= b2 < 256,
                        a1 / 16 == b1 / 16,
                        (a1 % 16) * 4 + a2 / 64 == (b1 % 16) * 4 + b2 / 64,
                        a2 % 64 == b2 % 64,
                ;
                let ra = a.subrange(3, a.len() as int);
                let rb = b.subrange(3, b.len() as int);
                assert(base64url_bytes(ra) =~= t.subrange(4, t.len() as int));
                assert(base64url_bytes(rb) =~= t.subrange(4, t.len() as int));
                lemma_base64url_injective(ra, rb);
                assert forall|i: int| 0 <= i < a.len() implies a[i] == b[i] by {
                    if i >= 3 {
                        assert(a[i] == ra[i - 3] && b[i] == rb[i - 3]);
                    }
                }
                assert(a =~= b);
            }
        }
    }
}

/// An ASCII whitespace byte: space, tab, line feed, form feed or carriage return.
pub open spec fn is_ascii_ws(b: u8) -> bool {
    b == 32 || b == 9 || b == 10 || b == 12 || b == 13
}

/// Every byte of `s` is ASCII whitespace.
pub open spec fn all_ascii_ws(s: Seq<u8>) -> bool {
    forall|i: int| 0 <= i < s.len() ==> is_ascii_ws(#[trigger] s[i])
}

/// `bytes` are the characters `chars`, one byte per character.
pub open spec fn spells(chars: Seq<char>, bytes: Seq<u8>) -> bool {
    &&& chars.len() == bytes.len()
    &&& forall|i: int| 0 <= i < bytes.len() ==> #[trigger] chars[i] as u32 == bytes[i] as u32
}

/// `s` without its leading ASCII whitespace.
pub open spec fn trim_leading_ws(s: Seq<u8>) -> Seq<u8>
    decreases s.len(),
{
    if s.len() > 0 && is_ascii_ws(s[0]) {
        trim_leading_ws(s.drop_first())
    } else {
        s
    }
}

/// `s` without its trailing ASCII whitespace.
pub open spec fn trim_trailing_ws(s: Seq<u8>) -> Seq<u8>
    decreases s.len(),
{
    if s.len() > 0 && is_ascii_ws(s.last()) {
        trim_trailing_ws(s.drop_last())
    } else {
        s
    }
}

/// `s` without the ASCII whitespace around it.
pub open spec fn trim_ascii_ws(s: Seq<u8>) -> Seq<u8> {
    trim_trailing_ws(trim_leading_ws(s))
}

/// Ticket text whose bytes are `text` stands for the payload `payload`:
/// once trimmed, it is the base64 text of `payload`.
pub open spec fn decodes_to(text: Seq<u8>, payload: Seq<u8>) -> bool {
    trim_ascii_ws(text) == base64url_bytes(payload)
}

/// Ticket text that, once trimmed, holds a byte outside the URL-safe
/// alphabet stands for no payload at all.
pub proof fn lemma_foreign_symbol_rejected(text: Seq<u8>, i: int)
    requires
        0 <= i < trim_ascii_ws(text).len(),
        !is_url_safe_byte(trim_ascii_ws(text)[i]),
    ensures
        forall|p: Seq<u8>| !#[trigger] decodes_to(text, p),
{
    assert forall|p: Seq<u8>| !#[trigger] decodes_to(text, p) by {
        lemma_base64url_shape(p);
    }
}

/// Why ticket text was refused.
#[derive(PartialEq, Eq, Structural, Debug, Clone, Copy)]
pub enum TicketError {
    /// The text, once trimmed, is not URL-safe base64 without padding.
    BadEncoding,
    /// The decoded bytes are not the JSON of a ticket.
    BadPayload,
}

#[verifier::external_type_specification]
#[verifier::external_body]
pub struct ExDecodeError(data_encoding::DecodeError);

/// Relies on `data_encoding::BASE64URL_NOPAD.encode`: the URL-safe base64
/// text of `data`, without padding, from which `decode` gives `data` back:
/// one symbol per six bits, rounded up. It may panic above
/// `usize::MAX / 512` bytes.
#[verifier::external_body]
fn base64url_encode(data: &[u8]) -> (r: String)
    requires
        data@.len() <= usize::MAX / 512,
    ensures
        spells(r@, base64url_bytes(data@)),
{
    data_encoding::BASE64URL_NOPAD.encode(data)
}

/// Relies on `data_encoding::BASE64URL_NOPAD.decode`: it checks trailing
/// bits and takes no padding, so it accepts exactly the texts that `encode`
/// writes and returns the bytes they encode. It may panic above
/// `usize::MAX / 8` bytes.
#[verifier::external_body]
fn base64url_decode(text: &[u8]) -> (r: Result<Vec<u8>, data_encoding::DecodeError>)
    requires
        text@.len() <= usize::MAX / 8,
    ensures
        r matches Ok(v) ==> base64url_bytes(v@) == text@,
        r is Err ==> forall|d: Seq<u8>| #[trigger] base64url_bytes(d) != text@,
{
    data_encoding::BASE64URL_NOPAD.decode(text)
}

fn is_ascii_whitespace_byte(b: u8) -> (r: bool)
    ensures
        r == is_ascii_ws(b),
{
    b == 32 || b == 9 || b == 10 || b == 12 || b == 13
}

/// The bytes of `text` without the ASCII whitespace around them.
pub fn trim_ascii_whitespace(text: &[u8]) -> (r: &[u8])
    ensures
        r@ == trim_ascii_ws(text@),
{
    let n = text.len();
    let mut start: usize = 0;
    assert(text@.subrange(0, n as int) =~= text@);
    while start < n && is_ascii_whitespace_byte(text[start])
        invariant
            n == text@.len(),
            start <= n,
            trim_leading_ws(text@) == trim_leading_ws(text@.subrange(start as int, n as int)),
        decreases n - start,
    {
        assert(text@.subrange(start as int, n as int).drop_first() =~= text@.subrange(
            start as int + 1,
            n as int,
        ));
        start += 1;
    }
    let mut end: usize = n;
    while end > start && is_ascii_whitespace_byte(text[end - 1])
        invariant
            n == text@.len(),
            start <= end <= n,
            trim_leading_ws(text@) == text@.subrange(start as int, n as int),
            trim_ascii_ws(text@) == trim_trailing_ws(text@.subrange(start as int, end as int)),
        decreases end - start,
    {
        assert(text@.subrange(start as int, end as int).drop_last() =~= text@.subrange(
            start as int,
            end as int - 1,
        ));
        end -= 1;
    }
    slice_subrange(text, start, end)
}

proof fn lemma_trim_leading_ws_prefix(lead: Seq<u8>, rest: Seq<u8>)
    requires
        all_ascii_ws(lead),
    ensures
        trim_leading_ws(lead + rest) == trim_leading_ws(rest),
    decreases lead.len(),
{
    if lead.len() == 0 {
        assert(lead + rest =~= rest);
    } else {
        assert((lead + rest).drop_first() =~= lead.drop_first() + rest);
        lemma_trim_leading_ws_prefix(lead.drop_first(), rest);
    }
}

proof fn lemma_trim_trailing_ws_suffix(rest: Seq<u8>, trail: Seq<u8>)
    requires
        all_ascii_ws(trail),
    ensures
        trim_trailing_ws(rest + trail) == trim_trailing_ws(rest),
    decreases trail.len(),
{
    if trail.len() == 0 {
        assert(rest + trail =~= rest);
    } else {
        assert((rest + trail).drop_last() =~= rest + trail.drop_last());
        lemma_trim_trailing_ws_suffix(rest, trail.drop_last());
    }
}

/// Text made of URL-safe symbols, with whitespace around it, trims to itself.
proof fn lemma_trim_around_symbols(lead: Seq<u8>, core: Seq<u8>, trail: Seq<u8>)
    requires
        all_ascii_ws(lead),
        all_ascii_ws(trail),
        forall|i: int| 0 <= i < core.len() ==> !is_ascii_ws(#[trigger] core[i]),
    ensures
        trim_ascii_ws(lead + core + trail) == core,
{
    lemma_trim_leading_ws_prefix(lead, core + trail);
    assert(lead + core + trail =~= lead + (core + trail));
    if core.len() == 0 {
        assert(core + trail =~= trail);
        lemma_trim_leading_ws_prefix(trail, Seq::<u8>::empty());
        assert(trail + Seq::<u8>::empty() =~= trail);
    } else {
        assert(!is_ascii_ws((core + trail)[0]));
        lemma_trim_trailing_ws_suffix(core, trail);
        assert(!is_ascii_ws(core.last()));
    }
}

/// The ticket text for the JSON bytes `payload`.
///
/// The text uses only URL-safe symbols (no `+`, `/` or `=`), and decoding it,
/// with any ASCII whitespace around it, gives `payload` back and nothing else.
pub fn encode_ticket_text(payload: &[u8]) -> (r: String)
    requires
        payload@.len() <= usize::MAX / 512,
    ensures
        spells(r@, base64url_bytes(payload@)),
        r@.len() == (8 * payload@.len() + 5) / 6,
        r@.len() <= usize::MAX / 8,
        forall|i: int| 0 <= i < r@.len() ==> is_url_safe_symbol(#[trigger] r@[i]),
        forall|lead: Seq<u8>, core: Seq<u8>, trail: Seq<u8>|
            all_ascii_ws(lead) && all_ascii_ws(trail) && spells(r@, core) ==> #[trigger] trim_ascii_ws(
                lead + core + trail,
            ) == core,
        forall|lead: Seq<u8>, core: Seq<u8>, trail: Seq<u8>, p: Seq<u8>|
            all_ascii_ws(lead) && all_ascii_ws(trail) && spells(r@, core) ==> (#[trigger] decodes_to(
                lead + core + trail,
                p,
            ) <==> p == payload@),
{
    let r = base64url_encode(payload);
    let ghost text = base64url_bytes(payload@);
    proof {
        lemma_base64url_shape(payload@);
    }
    assert((8 * payload@.len() + 5) / 6 <= usize::MAX / 8) by (nonlinear_arith)
        requires
            payload@.len() <= usize::MAX / 512,
            usize::MAX >= 0xffff_ffff,
    ;
    assert forall|i: int| 0 <= i < r@.len() implies is_url_safe_symbol(#[trigger] r@[i]) by {
        assert(is_url_safe_byte(text[i]));
    }
    assert forall|core: Seq<u8>| spells(r@, core) implies core == text by {
        assert forall|i: int| 0 <= i < core.len() implies core[i] == text[i] by {
            assert(r@[i] as u32 == core[i] as u32);
            assert(r@[i] as u32 == text[i] as u32);
        }
        assert(core =~= text);
    }
    assert forall|lead: Seq<u8>, core: Seq<u8>, trail: Seq<u8>|
        all_ascii_ws(lead) && all_ascii_ws(trail) && spells(r@, core) implies #[trigger] trim_ascii_ws(
            lead + core + trail,
        ) == core by {
        assert forall|i: int| 0 <= i < core.len() implies !is_ascii_ws(#[trigger] core[i]) by {
            assert(is_url_safe_byte(text[i]));
        }
        lemma_trim_around_symbols(lead, core, trail);
    }
    assert forall|lead: Seq<u8>, core: Seq<u8>, trail: Seq<u8>, p: Seq<u8>|
        all_ascii_ws(lead) && all_ascii_ws(trail) && spells(r@, core) implies (#[trigger] decodes_to(
            lead + core + trail,
            p,
        ) <==> p == payload@) by {
        assert(trim_ascii_ws(lead + core + trail) == core);
        if decodes_to(lead + core + trail, p) {
            lemma_base64url_injective(p, payload@);
        }
    }
    r
}

/// The JSON bytes that ticket text stands for.
///
/// ASCII whitespace around the text is ignored. The text is refused with
/// `BadEncoding` exactly when, once trimmed, it is the base64 text of no
/// bytes at all (or is too long to be decoded in memory).
pub fn decode_ticket_text(text: &str) -> (r: Result<Vec<u8>, TicketError>)
    ensures
        match r {
            Ok(v) => decodes_to(text.spec_bytes(), v@),
            Err(e) => e == TicketError::BadEncoding && (trim_ascii_ws(text.spec_bytes()).len()
                > usize::MAX / 8 || forall|p: Seq<u8>| !#[trigger] decodes_to(text.spec_bytes(), p)),
        },
{
    let trimmed = trim_ascii_whitespace(text.as_bytes());
    if trimmed.len() > usize::MAX / 8 {
        return Err(TicketError::BadEncoding);
    }
    match base64url_decode(trimmed) {
        Ok(v) => Ok(v),
        Err(_) => Err(TicketError::BadEncoding),
    }
}

} // verus!
