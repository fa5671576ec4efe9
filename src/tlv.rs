//! Reading one DER tag-length-value unit from the front of a byte buffer.
use vstd::prelude::*;

verus! {

/// The ways in which a buffer can fail to hold what the reader expects.
#[derive(Clone, Copy, Debug, PartialEq, Eq, Structural)]
pub enum DerError {
    /// The buffer is shorter than a header or a declared length.
    TruncatedInput,
    /// The long-form length uses no length bytes, or more than this target supports.
    UnsupportedLengthEncoding,
    /// A unit carries another tag than the one the certificate layout expects.
    UnexpectedTag,
    /// The outer certificate unit does not end where the buffer ends.
    TrailingBytes,
}

/// The most length bytes a long-form length may use: as many as a `usize` holds.
pub open spec fn max_len_len() -> nat {
    if usize::BITS == 64 { 8 } else { 4 }
}

/// `256` raised to the power `n`.
pub open spec fn pow256(n: nat) -> nat
    decreases n,
{
    if n == 0 { 1 } else { 256 * pow256((n - 1) as nat) }
}

/// The unsigned integer that `s` writes in big-endian order.
pub open spec fn be_value(s: Seq<u8>) -> nat
    decreases s.len(),
{
    if s.len() == 0 {
        0
    } else {
        be_value(s.drop_last()) * 256 + s.last() as nat
    }
}

/// The header of the unit at the front of `s`: its own size and the length of
/// the value that follows it.
pub open spec fn spec_header(s: Seq<u8>) -> Result<(nat, nat), DerError> {
    if s.len() < 2 {
        Err(DerError::TruncatedInput)
    } else if s[1] < 0x80 {
        Ok((2, s[1] as nat))
    } else {
        let n = (s[1] - 0x80) as nat;
        if n == 0 || n > max_len_len() {
            Err(DerError::UnsupportedLengthEncoding)
        } else if s.len() < 2 + n {
            Err(DerError::TruncatedInput)
        } else {
            Ok(((2 + n) as nat, be_value(s.subrange(2, 2 + n as int))))
        }
    }
}

/// The unit at the front of `s`, as `(rest, (tag, length, value))`: `value` is the
/// `length` bytes after the header and `rest` everything after `value`.
pub open spec fn spec_read_tlv(s: Seq<u8>) -> Result<(Seq<u8>, (u8, nat, Seq<u8>)), DerError> {
    match spec_header(s) {
        Err(e) => Err(e),
        Ok((h, len)) => {
            if s.len() < h + len {
                Err(DerError::TruncatedInput)
            } else {
                let end = (h + len) as int;
                Ok((s.subrange(end, s.len() as int), (s[0], len, s.subrange(h as int, end))))
            }
        },
    }
}

/// The exec result `r` of reading `s` is the unit that `spec_read_tlv` gives, or its error.
pub open spec fn tlv_result_is(
    r: Result<(&[u8], (u8, usize, &[u8])), DerError>,
    s: Seq<u8>,
) -> bool {
    match r {
        Ok((rest, (tag, len, value))) => spec_read_tlv(s) == Ok::<_, DerError>(
            (rest@, (tag, len as nat, value@)),
        ),
        Err(e) => spec_read_tlv(s) == Err::<(Seq<u8>, (u8, nat, Seq<u8>)), _>(e),
    }
}

proof fn lemma_pow256_grows(a: nat, b: nat)
    requires
        a <= b,
    ensures
        1 <= pow256(a) <= pow256(b),
    decreases b,
{
    if b > 0 {
        lemma_pow256_grows(0, (b - 1) as nat);
        if a < b {
            lemma_pow256_grows(a, (b - 1) as nat);
        }
    }
}

proof fn lemma_be_value_bound(s: Seq<u8>)
    ensures
        be_value(s) < pow256(s.len()),
    decreases s.len(),
{
    if s.len() > 0 {
        lemma_be_value_bound(s.drop_last());
        let p = pow256((s.len() - 1) as nat);
        let v = be_value(s.drop_last());
        let b = s.last() as nat;
        assert(v * 256 + b < p * 256) by (nonlinear_arith)
            requires
                v < p,
                b < 256,
        ;
    }
}

/// The fewest bytes that write `x` in big-endian order.
pub open spec fn min_len_bytes(x: nat) -> nat
    decreases x,
{
    if x < 256 {
        1
    } else {
        1 + min_len_bytes(x / 256)
    }
}

/// The last `n` bytes of `x` in big-endian order.
pub open spec fn be_bytes(x: nat, n: nat) -> Seq<u8>
    decreases n,
{
    if n == 0 {
        seq![]
    } else {
        be_bytes(x / 256, (n - 1) as nat).push((x % 256) as u8)
    }
}

/// A unit of tag `tag` around `value`, its length in short form.
pub open spec fn short_form(tag: u8, value: Seq<u8>) -> Seq<u8> {
    seq![tag, value.len() as u8] + value
}

/// A unit of tag `tag` around `value`, its length in long form with as few
/// length bytes as it takes.
pub open spec fn long_form(tag: u8, value: Seq<u8>) -> Seq<u8> {
    let n = min_len_bytes(value.len());
    seq![tag, (0x80 + n) as u8] + be_bytes(value.len(), n) + value
}

proof fn lemma_be_bytes_value(x: nat, n: nat)
    requires
        x < pow256(n),
    ensures
        be_bytes(x, n).len() == n,
        be_value(be_bytes(x, n)) == x,
    decreases n,
{
    if n > 0 {
        let p = pow256((n - 1) as nat);
        assert(x / 256 < p) by (nonlinear_arith)
            requires
                x < 256 * p,
        ;
        lemma_be_bytes_value(x / 256, (n - 1) as nat);
        let s = be_bytes(x, n);
        assert(s.drop_last() =~= be_bytes(x / 256, (n - 1) as nat));
        assert((x / 256) * 256 + x % 256 == x) by (nonlinear_arith);
    }
}

proof fn lemma_min_len_bytes_fit(x: nat)
    ensures
        1 <= min_len_bytes(x),
        x < pow256(min_len_bytes(x)),
    decreases x,
{
    reveal_with_fuel(pow256, 2);
    if x >= 256 {
        lemma_min_len_bytes_fit(x / 256);
        let p = pow256(min_len_bytes(x / 256));
        assert(x < 256 * p) by (nonlinear_arith)
            requires
                x / 256 < p,
        ;
    }
}

/// A unit whose value has `len` bytes reads the same whether its header
/// writes `len` in short form or in long form with as few length bytes as
/// it takes, whatever follows it.
pub proof fn lemma_length_forms_agree(tag: u8, value: Seq<u8>, rest: Seq<u8>)
    requires
        value.len() <= 127,
    ensures
        spec_read_tlv(short_form(tag, value) + rest) == spec_read_tlv(long_form(tag, value) + rest),
        spec_read_tlv(short_form(tag, value) + rest) == Ok::<_, DerError>(
            (rest, (tag, value.len(), value)),
        ),
{
    let s = short_form(tag, value) + rest;
    assert(s.subrange(2, 2 + value.len() as int) =~= value);
    assert(s.subrange(2 + value.len() as int, s.len() as int) =~= rest);
    lemma_long_form_reads(tag, value, rest);
}

/// A unit in long form with as few length bytes as its length takes reads
/// back as its tag, length and value, whatever follows it, wherever this
/// target supports that many length bytes.
pub proof fn lemma_long_form_reads(tag: u8, value: Seq<u8>, rest: Seq<u8>)
    requires
        min_len_bytes(value.len()) <= max_len_len(),
    ensures
        spec_read_tlv(long_form(tag, value) + rest) == Ok::<_, DerError>(
            (rest, (tag, value.len(), value)),
        ),
{
    let len = value.len();
    let n = min_len_bytes(len);
    lemma_min_len_bytes_fit(len);
    lemma_be_bytes_value(len, n);
    let bytes = be_bytes(len, n);
    let s = long_form(tag, value) + rest;
    assert(s.subrange(2, 2 + n as int) =~= bytes);
    let end = 2 + n + len;
    assert(s.subrange(2 + n as int, end as int) =~= value);
    assert(s.subrange(end as int, s.len() as int) =~= rest);
}

/// A long-form length that announces more length bytes than this target
/// supports is rejected, however long the buffer is.
pub proof fn lemma_too_many_length_bytes(s: Seq<u8>)
    requires
        s.len() >= 2,
        s[1] >= 0x80,
        s[1] - 0x80 > max_len_len(),
    ensures
        spec_read_tlv(s) == Err::<(Seq<u8>, (u8, nat, Seq<u8>)), _>(DerError::UnsupportedLengthEncoding),
{
}

/// The header of a unit depends only on the bytes it spans.
pub(crate) proof fn lemma_header_prefix(s: Seq<u8>, t: Seq<u8>)
    requires
        spec_header(s) is Ok,
        t.len() >= spec_header(s)->Ok_0.0,
        t.subrange(0, spec_header(s)->Ok_0.0 as int) == s.subrange(0, spec_header(s)->Ok_0.0 as int),
    ensures
        spec_header(t) == spec_header(s),
{
    let h = spec_header(s)->Ok_0.0;
    assert(t[0] == t.subrange(0, h as int)[0]);
    assert(t[1] == t.subrange(0, h as int)[1]);
    if s[1] >= 0x80 {
        let n = (s[1] - 0x80) as int;
        assert(t.subrange(2, 2 + n) =~= t.subrange(0, h as int).subrange(2, 2 + n));
        assert(s.subrange(2, 2 + n) =~= s.subrange(0, h as int).subrange(2, 2 + n));
    }
}

/// Reads `n` bytes of `der` from position `start` as a big-endian length.
fn read_be_length(der: &[u8], start: usize, n: usize) -> (r: usize)
    requires
        1 <= n <= max_len_len(),
        start + n <= der@.len(),
    ensures
        r as nat == be_value(der@.subrange(start as int, start + n)),
{
    let total = der.len();
    let mut acc: u64 = 0;
    let mut i: usize = 0;
    while i < n
        invariant
            total == der@.len(),
            n <= max_len_len(),
            start + n <= der@.len(),
            i <= n,
            acc as nat == be_value(der@.subrange(start as int, start + i)),
        decreases n - i,
    {
        let ghost prefix = der@.subrange(start as int, start + i);
        let ghost next = der@.subrange(start as int, start + i + 1);
        assert(next.drop_last() =~= prefix);
        proof {
            lemma_be_value_bound(prefix);
            lemma_pow256_grows(i as nat, 7);
            reveal_with_fuel(pow256, 8);
            assert(pow256(7) == 0x100_0000_0000_0000);
        }
        acc = acc * 256 + der[start + i] as u64;
        i = i + 1;
    }
    proof {
        lemma_be_value_bound(der@.subrange(start as int, start + n));
        if usize::BITS != 64 {
            lemma_pow256_grows(n as nat, 4);
            reveal_with_fuel(pow256, 5);
            assert(pow256(4) == 0x1_0000_0000);
        }
    }
    acc as usize
}

/// Reads the unit at the front of `der`, reporting a malformed buffer as an error.
pub fn try_read_tlv(der: &[u8]) -> (r: Result<(&[u8], (u8, usize, &[u8])), DerError>)
    ensures
        tlv_result_is(r, der@),
{
    if der.len() < 2 {
        return Err(DerError::TruncatedInput);
    }
    let tag = der[0];
    let first_len_byte = der[1];
    let header_len: usize;
    let len: usize;
    if first_len_byte < 0x80 {
        header_len = 2;
        len = first_len_byte as usize;
    } else {
        let len_len = (first_len_byte - 0x80) as usize;
        let max_len_len: usize = if usize::BITS == 64 { 8 } else { 4 };
        if len_len == 0 || len_len > max_len_len {
            return Err(DerError::UnsupportedLengthEncoding);
        }
        if der.len() - 2 < len_len {
            return Err(DerError::TruncatedInput);
        }
        header_len = 2 + len_len;
        len = read_be_length(der, 2, len_len);
    }
    let (_, body) = der.split_at(header_len);
    if body.len() < len {
        return Err(DerError::TruncatedInput);
    }
    let (value, rem) = body.split_at(len);
    proof {
        assert(value@ =~= der@.subrange(header_len as int, header_len + len));
        assert(rem@ =~= der@.subrange(header_len + len, der@.len() as int));
    }
    Ok((rem, (tag, len, value)))
}

/// Reads the unit at the front of `der`, which must hold a well-formed one.
pub fn read_tlv(der: &[u8]) -> (r: (&[u8], (u8, usize, &[u8])))
    requires
        spec_read_tlv(der@) is Ok,
    ensures
        spec_read_tlv(der@) == Ok::<_, DerError>((r.0@, (r.1.0, r.1.1 as nat, r.1.2@))),
{
    match try_read_tlv(der) {
        Ok(unit) => unit,
        Err(_) => vstd::pervasive::unreached(),
    }
}

} // verus!
