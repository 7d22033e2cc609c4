use vstd::prelude::*;
use crate::response::{Response, ResponseView};

verus! {

/// Decimal digits of a non-negative integer, most significant first.
pub open spec fn dec_of_nat(n: nat) -> Seq<u8>
    decreases n,
{
    if n < 10 {
        seq![(48 + n) as u8]
    } else {
        dec_of_nat(n / 10).push((48 + n % 10) as u8)
    }
}

/// Decimal rendering of a signed integer: a leading `-` for negatives.
pub open spec fn dec_of_int(n: int) -> Seq<u8> {
    if n < 0 {
        seq![45u8] + dec_of_nat((-n) as nat)
    } else {
        dec_of_nat(n as nat)
    }
}

/// The two-byte line terminator `\r\n`.
pub open spec fn crlf() -> Seq<u8> {
    seq![13u8, 10u8]
}

/// ASCII upper-casing, byte for byte; bytes outside `a`..`z` are kept.
pub open spec fn upper_of(s: Seq<u8>) -> Seq<u8> {
    s.map_values(|b: u8| if 97 <= b && b <= 122 { (b - 32) as u8 } else { b })
}

/// The exact wire bytes of a response:
/// - `Simple(m)`: `+<m>\r\n`
/// - `Error { c, m }`: `-<C> <m>\r\n` with the category upper-cased
/// - `BulkString(b)`: `$<len(b)>\r\n<b>\r\n`
/// - `Nil`: `$-1\r\n`
/// - `Integer(n)`: `:<n>\r\n`
pub open spec fn encoded(r: ResponseView) -> Seq<u8> {
    match r {
        ResponseView::Simple(m) => seq![43u8] + m + crlf(),
        ResponseView::Error { category, message } => seq![45u8] + upper_of(category)
            + seq![32u8] + message + crlf(),
        ResponseView::BulkString(b) => seq![36u8] + dec_of_nat(b.len()) + crlf() + b + crlf(),
        ResponseView::Nil => seq![36u8, 45u8, 49u8, 13u8, 10u8],
        ResponseView::Integer(n) => seq![58u8] + dec_of_int(n) + crlf(),
    }
}

/// Appends the decimal digits of `n` to `out`.
fn push_dec_u64(out: &mut Vec<u8>, n: u64)
    ensures
        final(out)@ == old(out)@ + dec_of_nat(n as nat),
    decreases n,
{
    if n < 10 {
        out.push(48 + n as u8);
        assert(out@ =~= old(out)@ + dec_of_nat(n as nat));
    } else {
        push_dec_u64(out, n / 10);
        out.push(48 + (n % 10) as u8);
        assert(out@ =~= old(out)@ + dec_of_nat(n as nat));
    }
}

/// Appends the decimal rendering of a signed integer to `out`.
fn push_dec_i64(out: &mut Vec<u8>, n: i64)
    ensures
        final(out)@ == old(out)@ + dec_of_int(n as int),
{
    if n < 0 {
        out.push(45);
        let m: i128 = -(n as i128);
        push_dec_u64(out, m as u64);
        assert(out@ =~= old(out)@ + dec_of_int(n as int));
    } else {
        push_dec_u64(out, n as u64);
    }
}

/// Appends every byte of `bytes` to `out`, in order.
fn push_all(out: &mut Vec<u8>, bytes: &[u8])
    ensures
        final(out)@ == old(out)@ + bytes@,
{
    let ghost out0 = out@;
    let mut i: usize = 0;
    while i < bytes.len()
        invariant
            i <= bytes.len(),
            out@ == out0 + bytes@.take(i as int),
        decreases bytes.len() - i,
    {
        out.push(bytes[i]);
        i = i + 1;
        assert(out@ =~= out0 + bytes@.take(i as int));
    }
    assert(bytes@.take(bytes@.len() as int) =~= bytes@);
}

/// Appends the ASCII upper-casing of `bytes` to `out`.
fn push_upper(out: &mut Vec<u8>, bytes: &[u8])
    ensures
        final(out)@ == old(out)@ + upper_of(bytes@),
{
    let ghost out0 = out@;
    let mut i: usize = 0;
    while i < bytes.len()
        invariant
            i <= bytes.len(),
            out@ == out0 + upper_of(bytes@.take(i as int)),
        decreases bytes.len() - i,
    {
        let b = bytes[i];
        if 97 <= b && b <= 122 {
            out.push(b - 32);
        } else {
            out.push(b);
        }
        i = i + 1;
        assert(out@ =~= out0 + upper_of(bytes@.take(i as int)));
    }
    assert(bytes@.take(bytes@.len() as int) =~= bytes@);
}

/// Serializes a response into its exact wire bytes.
pub fn encode(resp: &Response) -> (out: Vec<u8>)
    ensures
        out@ == encoded(resp@),
{
    let mut out: Vec<u8> = Vec::new();
    match resp {
        Response::Simple(m) => {
            out.push(43);
            push_all(&mut out, m.as_slice());
            out.push(13);
            out.push(10);
            assert(out@ =~= encoded(resp@));
        }
        Response::Error { category, message } => {
            out.push(45);
            push_upper(&mut out, category.as_slice());
            out.push(32);
            push_all(&mut out, message.as_slice());
            out.push(13);
            out.push(10);
            assert(out@ =~= encoded(resp@));
        }
        Response::BulkString(b) => {
            out.push(36);
            push_dec_u64(&mut out, b.len() as u64);
            out.push(13);
            out.push(10);
            push_all(&mut out, b.as_slice());
            out.push(13);
            out.push(10);
            assert(out@ =~= encoded(resp@));
        }
        Response::Nil => {
            out.push(36);
            out.push(45);
            out.push(49);
            out.push(13);
            out.push(10);
            assert(out@ =~= encoded(resp@));
        }
        Response::Integer(n) => {
            out.push(58);
            push_dec_i64(&mut out, *n);
            out.push(13);
            out.push(10);
            assert(out@ =~= encoded(resp@));
        }
    }
    out
}

/// The bytes of the acknowledgement message `OK`.
pub open spec fn ok_msg() -> Seq<u8> {
    seq![79u8, 75u8]
}

/// The acknowledgement reply `+OK\r\n`.
pub fn ok_response() -> (r: Vec<u8>)
    ensures
        r@ == encoded(ResponseView::Simple(ok_msg())),
{
    let mut out: Vec<u8> = Vec::new();
    out.push(43);
    out.push(79);
    out.push(75);
    out.push(13);
    out.push(10);
    assert(out@ =~= encoded(ResponseView::Simple(ok_msg())));
    out
}

/// An error reply `-<CATEGORY> <message>\r\n`, category upper-cased.
pub fn error_response(category: &[u8], message: &[u8]) -> (r: Vec<u8>)
    ensures
        r@ == encoded(ResponseView::Error { category: category@, message: message@ }),
{
    let mut out: Vec<u8> = Vec::new();
    out.push(45);
    push_upper(&mut out, category);
    out.push(32);
    push_all(&mut out, message);
    out.push(13);
    out.push(10);
    assert(out@ =~= encoded(ResponseView::Error { category: category@, message: message@ }));
    out
}

/// A bulk-string reply `$<len>\r\n<value>\r\n`, binary safe.
pub fn bulk_string_response(value: &[u8]) -> (r: Vec<u8>)
    ensures
        r@ == encoded(ResponseView::BulkString(value@)),
{
    let mut out: Vec<u8> = Vec::new();
    out.push(36);
    push_dec_u64(&mut out, value.len() as u64);
    out.push(13);
    out.push(10);
    push_all(&mut out, value);
    out.push(13);
    out.push(10);
    assert(out@ =~= encoded(ResponseView::BulkString(value@)));
    out
}

/// A boolean reply: `:1\r\n` for true, `:0\r\n` for false.
pub fn boolean_response(value: bool) -> (r: Vec<u8>)
    ensures
        r@ == encoded(ResponseView::Integer(if value { 1int } else { 0int })),
{
    let mut out: Vec<u8> = Vec::new();
    out.push(58);
    if value {
        out.push(49);
    } else {
        out.push(48);
    }
    out.push(13);
    out.push(10);
    assert(out@ =~= encoded(ResponseView::Integer(if value { 1int } else { 0int })));
    out
}

/// An integer reply `:<n>\r\n`.
pub fn integer_response(value: i64) -> (r: Vec<u8>)
    ensures
        r@ == encoded(ResponseView::Integer(value as int)),
{
    let mut out: Vec<u8> = Vec::new();
    out.push(58);
    push_dec_i64(&mut out, value);
    out.push(13);
    out.push(10);
    assert(out@ =~= encoded(ResponseView::Integer(value as int)));
    out
}

} // verus!
