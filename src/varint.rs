//! Unsigned variable-length integers (7 data bits per byte, high bit set on
//! every byte but the last, least significant group first).
use vstd::prelude::*;

verus! {

/// The longest encoding of a `usize`.
pub const USIZE_LEN: usize = 10;

/// The minimal encoding of `n`.
pub open spec fn uvarint(n: nat) -> Seq<u8>
    decreases n,
{
    if n < 128 {
        seq![n as u8]
    } else {
        seq![(n % 128 + 128) as u8] + uvarint(n / 128)
    }
}

/// `128` to the power `k`.
pub open spec fn pow128(k: nat) -> nat
    decreases k,
{
    if k == 0 {
        1
    } else {
        128 * pow128((k - 1) as nat)
    }
}

/// Every byte of an encoding but the last has its continuation bit set.
pub proof fn lemma_uvarint_shape(n: nat)
    ensures
        uvarint(n).len() >= 1,
        uvarint(n)[uvarint(n).len() - 1] < 128,
        forall|j: int| 0 <= j < uvarint(n).len() - 1 ==> uvarint(n)[j] >= 128,
    decreases n,
{
    if n >= 128 {
        lemma_uvarint_shape(n / 128);
        assert forall|j: int| 0 <= j < uvarint(n).len() - 1 implies uvarint(n)[j] >= 128 by {
            if j > 0 {
                assert(uvarint(n)[j] == uvarint(n / 128)[j - 1]);
            }
        }
    }
}

/// A value below `128^k` takes at most `k` bytes.
pub proof fn lemma_uvarint_len(n: nat, k: nat)
    requires
        k >= 1,
        n < pow128(k),
    ensures
        uvarint(n).len() <= k,
    decreases k,
{
    if n >= 128 {
        assert(pow128(1) == 128) by {
            reveal_with_fuel(pow128, 2);
        }
        assert(n / 128 < pow128((k - 1) as nat)) by (nonlinear_arith)
            requires
                n < 128 * pow128((k - 1) as nat),
        ;
        lemma_uvarint_len(n / 128, (k - 1) as nat);
    }
}

/// An encoded `usize` fits in `USIZE_LEN` bytes.
pub proof fn lemma_uvarint_usize_len(n: usize)
    ensures
        uvarint(n as nat).len() <= USIZE_LEN,
{
    assert(pow128(0) == 1);
    assert(pow128(1) == 0x80);
    assert(pow128(2) == 0x4000);
    assert(pow128(3) == 0x20_0000);
    assert(pow128(4) == 0x1000_0000);
    assert(pow128(5) == 0x8_0000_0000);
    assert(pow128(6) == 0x400_0000_0000);
    assert(pow128(7) == 0x2_0000_0000_0000);
    assert(pow128(8) == 0x100_0000_0000_0000);
    assert(pow128(9) == 0x8000_0000_0000_0000);
    assert(pow128(10) == 0x40_0000_0000_0000_0000);
    lemma_uvarint_len(n as nat, 10);
}

/// Relies on unsigned_varint::encode::usize: the minimal encoding of `n`.
#[verifier::external_body]
fn encode_usize(n: usize) -> (r: Vec<u8>)
    ensures
        r@ == uvarint(n as nat),
{
    let mut buf = unsigned_varint::encode::usize_buffer();
    unsigned_varint::encode::usize(n, &mut buf).to_vec()
}

/// `r` is the number that `b` encodes, wherever `b` is the encoding of one.
pub open spec fn decodes_to(b: Seq<u8>, r: Option<usize>) -> bool {
    forall|n: usize| b == uvarint(n as nat) ==> r == Some(n)
}

/// Relies on unsigned_varint::decode::usize, given bytes whose last byte alone
/// ends the number: the encoding of `n` decodes to `n`. On such bytes its one
/// error is a non-minimal encoding, which comes back as `None`.
#[verifier::external_body]
fn decode_usize(b: &[u8]) -> (r: Option<usize>)
    requires
        1 <= b@.len() <= USIZE_LEN,
        b@[b@.len() - 1] < 128,
        forall|j: int| 0 <= j < b@.len() - 1 ==> b@[j] >= 128,
    ensures
        decodes_to(b@, r),
{
    match unsigned_varint::decode::usize(b) {
        Ok((n, _)) => Some(n),
        Err(_) => None,
    }
}

/// Why a varint could not be read.
#[derive(Debug, Clone, Copy, PartialEq, Eq, Structural)]
pub enum VarintError {
    /// The input ended inside the number.
    Insufficient,
    /// No terminating byte within the width of a `usize`.
    Overflow,
    /// A trailing zero group that a minimal encoding would drop.
    NotMinimal,
}

/// No byte among the first `k` ends a number.
pub open spec fn all_continue(s: Seq<u8>, k: int) -> bool {
    forall|j: int| 0 <= j < k ==> s[j] >= 128
}

/// Appends the encoding of `num` to `out` and returns its length.
pub fn write_varint_usize(num: usize, out: &mut Vec<u8>) -> (r: usize)
    ensures
        final(out)@ == old(out)@ + uvarint(num as nat),
        r == uvarint(num as nat).len(),
        1 <= r <= USIZE_LEN,
{
    proof {
        lemma_uvarint_shape(num as nat);
        lemma_uvarint_usize_len(num);
    }
    let mut bytes = encode_usize(num);
    let r = bytes.len();
    out.append(&mut bytes);
    r
}

/// Reads a varint from the front of `input`.
///
/// `Ok(None)` means the input is empty: a clean end at a record boundary.
/// `Ok(Some((n, k)))` gives the number and how many bytes it took.
pub fn read_varint_usize(input: &[u8]) -> (r: Result<Option<(usize, usize)>, VarintError>)
    ensures
        (r == Ok::<Option<(usize, usize)>, VarintError>(None)) <==> input@.len() == 0,
        r matches Ok(Some((n, k))) ==> 1 <= k <= input@.len() && k <= USIZE_LEN,
        forall|n: usize, rest: Seq<u8>|
            input@ == uvarint(n as nat) + rest ==> r == Ok::<Option<(usize, usize)>, VarintError>(
                Some((n, uvarint(n as nat).len() as usize)),
            ),
        (r == Err::<Option<(usize, usize)>, VarintError>(VarintError::Overflow)) <==> (
        input@.len() >= USIZE_LEN && all_continue(input@, USIZE_LEN as int)),
        (r == Err::<Option<(usize, usize)>, VarintError>(VarintError::Insufficient)) <==> (0
            < input@.len() < USIZE_LEN && all_continue(input@, input@.len() as int)),
{
    let mut i: usize = 0;
    while i < USIZE_LEN
        invariant
            i <= USIZE_LEN,
            all_continue(input@, i as int),
            i <= input@.len(),
        decreases USIZE_LEN - i,
    {
        if i >= input.len() {
            if i == 0 {
                return Ok(None);
            }
            proof {
                assert forall|n: usize, rest: Seq<u8>|
                    input@ == uvarint(n as nat) + rest implies false by {
                    lemma_uvarint_shape(n as nat);
                    let u = uvarint(n as nat);
                    assert(input@[u.len() - 1] == u[u.len() - 1]);
                }
            }
            return Err(VarintError::Insufficient);
        }
        if input[i] < 128 {
            let prefix = vstd::slice::slice_subrange(input, 0, i + 1);
            proof {
                assert forall|n: usize, rest: Seq<u8>|
                    input@ == uvarint(n as nat) + rest implies prefix@ == uvarint(n as nat) by {
                    lemma_uvarint_shape(n as nat);
                    lemma_uvarint_usize_len(n);
                    let u = uvarint(n as nat);
                    if u.len() - 1 > i {
                        assert(input@[i as int] == u[i as int]);
                    }
                    if u.len() - 1 < i {
                        assert(input@[u.len() - 1] == u[u.len() - 1]);
                    }
                    assert(prefix@ =~= u);
                }
            }
            return match decode_usize(prefix) {
                Some(n) => Ok(Some((n, i + 1))),
                None => Err(VarintError::NotMinimal),
            };
        }
        i += 1;
    }
    proof {
        assert forall|n: usize, rest: Seq<u8>| input@ == uvarint(n as nat) + rest implies false by {
            lemma_uvarint_shape(n as nat);
            lemma_uvarint_usize_len(n);
            let u = uvarint(n as nat);
            assert(input@[u.len() - 1] == u[u.len() - 1]);
        }
    }
    Err(VarintError::Overflow)
}

} // verus!
