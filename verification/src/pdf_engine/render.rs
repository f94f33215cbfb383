//! Page rendering for in-app review/preview. Rasterising pipelines are
//! unavailable in this milestone; the base64 framing used for previews is
//! here.

use crate::app_error::{is_plain_error, AppError};
use crate::text::push_char;
use vstd::prelude::*;

verus! {

/// Extract the text of each page (for in-app search). Unavailable: always
/// `CapabilityUnavailable`.
pub fn page_texts(input: &str) -> (r: Result<Vec<String>, AppError>)
    ensures
        r matches Err(e) && is_plain_error(e, "CapabilityUnavailable"@,
            "Feature temporarily unavailable"@,
            "Text extraction is disabled during the M1 architecture migration."@),
{
    Err(AppError::new(
        "CapabilityUnavailable",
        "Feature temporarily unavailable",
        "Text extraction is disabled during the M1 architecture migration.",
    ))
}

/// Extract one page into a tiny standalone PDF, base64-encoded. Always
/// `Ok(None)`, so the caller falls back to the default viewer.
pub fn page_pdf_b64(input: &str, page: u32) -> (r: Result<Option<String>, AppError>)
    ensures
        r == Ok::<Option<String>, AppError>(None),
{
    Ok(None)
}

/// Visually compare page A and page B. Unavailable: always
/// `CapabilityUnavailable`. `D` is the diff report type of the caller.
pub fn diff_pages<D>(a_path: &str, a_page: u32, b_path: &str, b_page: u32, size: u32) -> (r: Result<D, AppError>)
    ensures
        r matches Err(e) && is_plain_error(e, "CapabilityUnavailable"@,
            "Feature temporarily unavailable"@,
            "Diff is disabled during the M1 architecture migration."@),
{
    Err(AppError::new(
        "CapabilityUnavailable",
        "Feature temporarily unavailable",
        "Diff is disabled during the M1 architecture migration.",
    ))
}

/// Whether a page renderer is available (controls the "Pick visually" UI):
/// no renderer is wired, so `false`.
pub fn available() -> (r: bool)
    ensures
        !r,
{
    false
}

/// Render thumbnails for the given pages. Unavailable: always
/// `CapabilityUnavailable`. `T` is the thumbnail type of the caller.
pub fn render_thumbnails<T>(input: &str, pages: &[u32], size: u32) -> (r: Result<Vec<T>, AppError>)
    ensures
        r matches Err(e) && is_plain_error(e, "CapabilityUnavailable"@,
            "Feature temporarily unavailable"@,
            "Rendering thumbnails is disabled during the M1 architecture migration."@),
{
    Err(AppError::new(
        "CapabilityUnavailable",
        "Feature temporarily unavailable",
        "Rendering thumbnails is disabled during the M1 architecture migration.",
    ))
}

/// Export each picked page to an image file. Unavailable: always
/// `CapabilityUnavailable`. `P` is the page-pick type of the caller.
pub fn to_images<P>(job_id: &str, picks: &[P], out_dir: &str, format: &str, dpi: u32) -> (r: Result<Vec<String>, AppError>)
    ensures
        r matches Err(e) && is_plain_error(e, "CapabilityUnavailable"@,
            "Feature temporarily unavailable"@,
            "Exporting to images is disabled during the M1 architecture migration."@),
{
    Err(AppError::new(
        "CapabilityUnavailable",
        "Feature temporarily unavailable",
        "Exporting to images is disabled during the M1 architecture migration.",
    ))
}

/// The base64 alphabet (RFC 4648, standard): `A-Z`, `a-z`, `0-9`, `+`, `/`.
pub open spec fn b64_char(v: int) -> char {
    if v < 26 {
        (65 + v) as char
    } else if v < 52 {
        (97 + (v - 26)) as char
    } else if v < 62 {
        (48 + (v - 52)) as char
    } else if v == 62 {
        '+'
    } else {
        '/'
    }
}

/// The four characters for the 24-bit group `n`.
pub open spec fn quad(n: int) -> Seq<char> {
    seq![b64_char((n / 262144) % 64), b64_char((n / 4096) % 64), b64_char((n / 64) % 64), b64_char(n % 64)]
}

/// Standard base64 with `=` padding.
pub open spec fn base64_spec(data: Seq<u8>) -> Seq<char>
    decreases data.len(),
{
    if data.len() == 0 {
        seq![]
    } else if data.len() == 1 {
        quad(data[0] * 65536).take(2) + seq!['=', '=']
    } else if data.len() == 2 {
        quad(data[0] * 65536 + data[1] * 256).take(3) + seq!['=']
    } else {
        quad(data[0] * 65536 + data[1] * 256 + data[2]) + base64_spec(data.skip(3))
    }
}

fn b64_digit(v: u32) -> (c: char)
    requires
        v < 64,
    ensures
        c == b64_char(v as int),
{
    if v < 26 {
        ((65 + v) as u8) as char
    } else if v < 52 {
        ((97 + (v - 26)) as u8) as char
    } else if v < 62 {
        ((48 + (v - 52)) as u8) as char
    } else if v == 62 {
        '+'
    } else {
        '/'
    }
}

proof fn lemma_sextets(n: u32)
    requires
        n < 0x1000000,
    ensures
        (n >> 18) & 63 == (n / 262144) % 64,
        (n >> 12) & 63 == (n / 4096) % 64,
        (n >> 6) & 63 == (n / 64) % 64,
        n & 63 == n % 64,
{
    assert((n >> 18) & 63 == (n / 262144) % 64) by (bit_vector);
    assert((n >> 12) & 63 == (n / 4096) % 64) by (bit_vector);
    assert((n >> 6) & 63 == (n / 64) % 64) by (bit_vector);
    assert(n & 63 == n % 64) by (bit_vector);
}

proof fn lemma_group(b0: u32, b1: u32, b2: u32)
    requires
        b0 < 256,
        b1 < 256,
        b2 < 256,
    ensures
        (b0 << 16) | (b1 << 8) | b2 == b0 * 65536 + b1 * 256 + b2,
{
    assert((b0 << 16) | (b1 << 8) | b2 == b0 * 65536 + b1 * 256 + b2) by (bit_vector)
        requires
            b0 < 256,
            b1 < 256,
            b2 < 256,
    ;
}

/// Length of the encoding: four characters per started group of three.
pub proof fn law_base64_length(data: Seq<u8>)
    ensures
        base64_spec(data).len() == 4 * ((data.len() + 2) / 3),
    decreases data.len(),
{
    if data.len() >= 3 {
        law_base64_length(data.skip(3));
    }
}

/// The value of a base64 character (`=` counts as zero).
pub open spec fn b64_value(c: char) -> int {
    let x = c as int;
    if 65 <= x <= 90 {
        x - 65
    } else if 97 <= x <= 122 {
        x - 71
    } else if 48 <= x <= 57 {
        x + 4
    } else if c == '+' {
        62
    } else if c == '/' {
        63
    } else {
        0
    }
}

/// The 24-bit value of the first four characters.
pub open spec fn group_value(s: Seq<char>) -> int {
    b64_value(s[0]) * 262144 + b64_value(s[1]) * 4096 + b64_value(s[2]) * 64 + b64_value(s[3])
}

/// Standard base64 decoding of well-formed input: each group of four gives
/// three bytes, one `=` drops the last, two drop the last two.
pub open spec fn base64_decode_spec(s: Seq<char>) -> Seq<u8>
    decreases s.len(),
{
    if s.len() < 4 {
        seq![]
    } else {
        let n = group_value(s);
        let bytes = seq![(n / 65536) as u8, ((n / 256) % 256) as u8, (n % 256) as u8];
        if s[2] == '=' {
            bytes.take(1)
        } else if s[3] == '=' {
            bytes.take(2)
        } else {
            bytes + base64_decode_spec(s.skip(4))
        }
    }
}

proof fn lemma_b64_char(v: int)
    requires
        0 <= v < 64,
    ensures
        b64_value(b64_char(v)) == v,
        b64_char(v) != '=',
{
}

proof fn lemma_split(n: u32)
    requires
        n < 0x1000000,
    ensures
        ((n / 262144) % 64) * 262144 + ((n / 4096) % 64) * 4096 + ((n / 64) % 64) * 64 + n % 64 == n,
{
    assert(((n / 262144) % 64) * 262144 + ((n / 4096) % 64) * 4096 + ((n / 64) % 64) * 64 + n % 64 == n) by (bit_vector)
        requires
            n < 0x1000000,
    ;
}

proof fn lemma_bytes(d0: u32, d1: u32, d2: u32)
    requires
        d0 < 256,
        d1 < 256,
        d2 < 256,
    ensures
        d0 * 65536 + d1 * 256 + d2 < 0x1000000,
        (d0 * 65536 + d1 * 256 + d2) / 65536 == d0,
        ((d0 * 65536 + d1 * 256 + d2) / 256) % 256 == d1,
        (d0 * 65536 + d1 * 256 + d2) % 256 == d2,
        (d0 * 65536 + d1 * 256) % 64 == 0,
        ((d0 * 65536) / 64) % 64 == 0,
        (d0 * 65536) % 64 == 0,
{
    assert(d0 * 65536 + d1 * 256 + d2 < 0x1000000) by (bit_vector)
        requires d0 < 256, d1 < 256, d2 < 256;
    assert((d0 * 65536 + d1 * 256 + d2) / 65536 == d0) by (bit_vector)
        requires d0 < 256, d1 < 256, d2 < 256;
    assert(((d0 * 65536 + d1 * 256 + d2) / 256) % 256 == d1) by (bit_vector)
        requires d0 < 256, d1 < 256, d2 < 256;
    assert((d0 * 65536 + d1 * 256 + d2) % 256 == d2) by (bit_vector)
        requires d0 < 256, d1 < 256, d2 < 256;
    assert((d0 * 65536 + d1 * 256) % 64 == 0) by (bit_vector)
        requires d0 < 256, d1 < 256;
    assert(((d0 * 65536) / 64) % 64 == 0) by (bit_vector)
        requires d0 < 256;
    assert((d0 * 65536) % 64 == 0) by (bit_vector)
        requires d0 < 256;
}

/// The four characters of a group decode to the group's value.
proof fn lemma_quad_value(n: u32)
    requires
        n < 0x1000000,
    ensures
        group_value(quad(n as int)) == n,
        quad(n as int)[0] != '=',
        quad(n as int)[1] != '=',
        quad(n as int)[2] != '=',
        quad(n as int)[3] != '=',
{
    lemma_b64_char(((n / 262144) % 64) as int);
    lemma_b64_char(((n / 4096) % 64) as int);
    lemma_b64_char(((n / 64) % 64) as int);
    lemma_b64_char((n % 64) as int);
    lemma_split(n);
}

/// `=` appears only as padding: the encoding ends with exactly
/// `(3 - len % 3) % 3` of them and holds no other.
pub proof fn law_base64_padding(data: Seq<u8>)
    ensures
        forall|i: int| 0 <= i < base64_spec(data).len() ==>
            (#[trigger] base64_spec(data)[i] == '=' <==> i >= base64_spec(data).len() - (3 - data.len() % 3) % 3),
    decreases data.len(),
{
    law_base64_length(data);
    if data.len() == 0 {
    } else if data.len() < 3 {
        let d0 = data[0] as u32;
        let d1: u32 = if data.len() == 2 { data[1] as u32 } else { 0 };
        lemma_bytes(d0, d1, 0);
        lemma_quad_value((d0 * 65536 + d1 * 256) as u32);
    } else {
        law_base64_padding(data.skip(3));
        let (d0, d1, d2) = (data[0] as u32, data[1] as u32, data[2] as u32);
        lemma_bytes(d0, d1, d2);
        let n = d0 * 65536 + d1 * 256 + d2;
        lemma_quad_value(n as u32);
        let rest = base64_spec(data.skip(3));
        assert(base64_spec(data) == quad(n) + rest);
        assert(data.skip(3).len() % 3 == data.len() % 3);
        assert forall|i: int| 0 <= i < base64_spec(data).len() implies
            (#[trigger] base64_spec(data)[i] == '=' <==> i >= base64_spec(data).len() - (3 - data.len() % 3) % 3) by {
            if i >= 4 {
                assert(base64_spec(data)[i] == rest[i - 4]);
            }
        }
    }
}

/// Decoding the encoding gives the input back.
pub proof fn law_base64_round_trip(data: Seq<u8>)
    ensures
        base64_decode_spec(base64_spec(data)) == data,
    decreases data.len(),
{
    let s = base64_spec(data);
    if data.len() == 0 {
        assert(base64_decode_spec(s) =~= data);
    } else if data.len() < 3 {
        let d0 = data[0] as u32;
        let d1: u32 = if data.len() == 2 { data[1] as u32 } else { 0 };
        lemma_bytes(d0, d1, 0);
        let n = d0 * 65536 + d1 * 256;
        lemma_quad_value(n as u32);
        let q = quad(n as int);
        if data.len() == 1 {
            assert(s =~= seq![q[0], q[1], '=', '=']);
            assert(group_value(s) == group_value(q) - b64_value(q[2]) * 64 - b64_value(q[3]));
            assert(base64_decode_spec(s) =~= data);
        } else {
            assert(s =~= seq![q[0], q[1], q[2], '=']);
            assert(group_value(s) == group_value(q) - b64_value(q[3]));
            assert(base64_decode_spec(s) =~= data);
        }
    } else {
        law_base64_round_trip(data.skip(3));
        let (d0, d1, d2) = (data[0] as u32, data[1] as u32, data[2] as u32);
        lemma_bytes(d0, d1, d2);
        let n = d0 * 65536 + d1 * 256 + d2;
        lemma_quad_value(n as u32);
        let rest = base64_spec(data.skip(3));
        assert(s == quad(n) + rest);
        assert(s.skip(4) =~= rest);
        assert(s[2] == quad(n)[2] && s[3] == quad(n)[3]);
        assert(group_value(s) == group_value(quad(n)));
        assert(data =~= seq![data[0], data[1], data[2]] + data.skip(3));
        assert(base64_decode_spec(s) =~= data);
    }
}

/// Base64-encode `data` (standard alphabet, `=` padding).
pub fn base64(data: &[u8]) -> (s: String)
    ensures
        s@ == base64_spec(data@),
{
    let mut s = String::new();
    let len = data.len();
    let mut i: usize = 0;
    assert(data@.skip(0) =~= data@);
    while i < len
        invariant
            len == data@.len(),
            i <= len,
            s@ + base64_spec(data@.skip(i as int)) == base64_spec(data@),
        decreases len - i,
    {
        let rest = len - i;
        let ghost tail = data@.skip(i as int);
        let b0 = data[i] as u32;
        let b1 = if rest > 1 { data[i + 1] as u32 } else { 0 };
        let b2 = if rest > 2 { data[i + 2] as u32 } else { 0 };
        proof {
            lemma_group(b0, b1, b2);
        }
        let n = (b0 << 16) | (b1 << 8) | b2;
        proof {
            lemma_sextets(n);
        }
        let c0 = b64_digit((n >> 18) & 63);
        let c1 = b64_digit((n >> 12) & 63);
        let c2 = if rest > 1 { b64_digit((n >> 6) & 63) } else { '=' };
        let c3 = if rest > 2 { b64_digit(n & 63) } else { '=' };
        let ghost before = s@;
        push_char(&mut s, c0);
        push_char(&mut s, c1);
        push_char(&mut s, c2);
        push_char(&mut s, c3);
        assert(tail[0] == data@[i as int]);
        if rest > 2 {
            assert(tail[1] == data@[i + 1]);
            assert(tail[2] == data@[i + 2]);
            assert(tail.skip(3) =~= data@.skip(i + 3));
            assert(s@ == before + quad(n as int));
            i = i + 3;
        } else {
            if rest == 2 {
                assert(tail[1] == data@[i + 1]);
                assert(s@ =~= before + quad(n as int).take(3) + seq!['=']);
            } else {
                assert(s@ =~= before + quad(n as int).take(2) + seq!['=', '=']);
            }
            assert(data@.skip(len as int) =~= Seq::<u8>::empty());
            i = len;
        }
    }
    assert(data@.skip(len as int) =~= Seq::<u8>::empty());
    s
}

} // verus!
