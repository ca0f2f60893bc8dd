//! Bit-granular, big-endian, append-only output buffer.

use crate::error::PlayerInfoError;
use bitstream_io::{BigEndian, BitWrite, BitWriter};
use vstd::arithmetic::power2::{lemma2_to64, lemma_pow2_unfold, pow2};
use vstd::prelude::*;

verus! {

/// The `n` low bits of `value`, most significant first.
pub open spec fn bits_of(value: int, n: nat) -> Seq<bool>
    decreases n,
{
    if n == 0 {
        Seq::empty()
    } else {
        bits_of(value / 2, (n - 1) as nat).push(value % 2 == 1)
    }
}

/// The number that a run of bits spells, most significant first.
pub open spec fn value_of(bits: Seq<bool>) -> int
    decreases bits.len(),
{
    if bits.len() == 0 {
        0
    } else {
        2 * value_of(bits.drop_last()) + if bits.last() { 1int } else { 0int }
    }
}

/// How many zero bits bring a stream of `len` bits to a byte boundary.
pub open spec fn pad_len(len: nat) -> nat {
    ((8 - len % 8) % 8) as nat
}

/// The stream padded with zero bits to the next byte boundary.
pub open spec fn aligned(bits: Seq<bool>) -> Seq<bool> {
    bits + Seq::new(pad_len(bits.len()), |i: int| false)
}

/// The whole bytes of a bit stream, eight bits to the byte, most significant
/// bit first. Bits after the last whole byte are not part of it.
pub open spec fn pack(bits: Seq<bool>) -> Seq<u8> {
    Seq::new(bits.len() / 8, |k: int| value_of(bits.subrange(8 * k, 8 * k + 8)) as u8)
}

/// Whether `value` can be written in `width` bits.
pub open spec fn fits(width: u32, value: u32) -> bool {
    width >= 32 || (value as int) < pow2(width as nat)
}

pub proof fn lemma_bits_of_len(value: int, n: nat)
    ensures
        bits_of(value, n).len() == n,
    decreases n,
{
    if n > 0 {
        lemma_bits_of_len(value / 2, (n - 1) as nat);
    }
}

/// Reading back `n` written bits gives the value modulo `2^n`.
pub proof fn lemma_value_of_bits_of(value: int, n: nat)
    requires
        0 <= value,
    ensures
        value_of(bits_of(value, n)) == value % (pow2(n) as int),
    decreases n,
{
    if n == 0 {
        lemma2_to64();
    } else {
        let rest = bits_of(value / 2, (n - 1) as nat);
        let all = rest.push(value % 2 == 1);
        lemma_value_of_bits_of(value / 2, (n - 1) as nat);
        assert(all.drop_last() =~= rest);
        lemma_pow2_unfold(n);
        let p = pow2((n - 1) as nat) as int;
        vstd::arithmetic::power2::lemma_pow2_pos((n - 1) as nat);
        let q = value / 2;
        let a = q / p;
        let b = q % p;
        vstd::arithmetic::div_mod::lemma_fundamental_div_mod(q, p);
        assert(value == a * (2 * p) + (2 * b + value % 2)) by (nonlinear_arith)
            requires
                q == p * a + b,
                q == value / 2,
        ;
        vstd::arithmetic::div_mod::lemma_fundamental_div_mod_converse(
            value,
            2 * p,
            a,
            2 * b + value % 2,
        );
    }
}

/// `std::io::Error`, carried as an opaque value: the error of a refused
/// write.
#[verifier::external_type_specification]
#[verifier::external_body]
pub struct ExIoError(std::io::Error);

/// A `bitstream_io::BitWriter` over a `Vec<u8>` in big-endian order. Its
/// state is known to the verifier only as `written_bits`.
#[verifier::external_body]
pub struct BitBuf {
    inner: BitWriter<Vec<u8>, BigEndian>,
}

/// Every bit handed to the `BitWriter` so far, in the order of the calls:
/// those in the bytes it has passed on to its `Vec<u8>`, then those still
/// waiting in its queue.
pub uninterp spec fn written_bits(buf: BitBuf) -> Seq<bool>;

impl View for BitBuf {
    type V = Seq<bool>;

    open spec fn view(&self) -> Seq<bool> {
        written_bits(*self)
    }
}

/// `BitWriter::endian(Vec::new(), BigEndian)`: a writer that holds no bit.
#[verifier::external_body]
fn writer_new() -> (buf: BitBuf)
    ensures
        written_bits(buf) == Seq::<bool>::empty(),
{
    BitBuf { inner: BitWriter::endian(Vec::new(), BigEndian) }
}

/// `BitWrite::write_bit`: the bit is appended. The outside function can only
/// fail where the underlying writer fails, and a `Vec<u8>` never does.
#[verifier::external_body]
fn writer_put_bit(buf: &mut BitBuf, bit: bool)
    ensures
        written_bits(*final(buf)) == written_bits(*old(buf)).push(bit),
{
    let _ = buf.inner.write_bit(bit);
}

/// `BitWrite::write` with a `u32` value: an error, with nothing written,
/// when the value needs more than `width` bits; otherwise the `width` low
/// bits are appended, most significant first.
#[verifier::external_body]
fn writer_put(buf: &mut BitBuf, width: u32, value: u32) -> (r: Result<(), std::io::Error>)
    requires
        1 <= width <= 32,
    ensures
        r is Ok == fits(width, value),
        r is Ok ==> written_bits(*final(buf)) == written_bits(*old(buf)) + bits_of(
            value as int,
            width as nat,
        ),
        r is Err ==> written_bits(*final(buf)) == written_bits(*old(buf)),
{
    buf.inner.write(width, value)
}

/// `BitWrite::byte_align`: zero bits are appended up to the next byte
/// boundary, none if the stream stands on one.
#[verifier::external_body]
fn writer_align(buf: &mut BitBuf)
    ensures
        written_bits(*final(buf)) == aligned(written_bits(*old(buf))),
{
    let _ = buf.inner.byte_align();
}

/// `BitWriter::into_writer`: the bytes passed on so far, that is the whole
/// bytes of the stream; bits of a byte that is not full are dropped.
#[verifier::external_body]
fn writer_into_bytes(buf: BitBuf) -> (bytes: Vec<u8>)
    ensures
        bytes@ == pack(written_bits(buf)),
{
    buf.inner.into_writer()
}

impl BitBuf {
    /// An empty stream.
    pub fn new() -> (buf: BitBuf)
        ensures
            buf@ == Seq::<bool>::empty(),
    {
        writer_new()
    }

    /// Appends one bit.
    pub fn write_bit(&mut self, bit: bool)
        ensures
            final(self)@ == old(self)@.push(bit),
    {
        writer_put_bit(self, bit)
    }

    /// Appends the `width` low bits of `value`, most significant first.
    /// Nothing is written, and the write fails, when `width` is above 32 or
    /// `value` does not fit in `width` bits.
    pub fn write(&mut self, width: u32, value: u32) -> (r: Result<(), PlayerInfoError>)
        ensures
            r == if width <= 32 && fits(width, value) {
                Ok::<(), PlayerInfoError>(())
            } else {
                Err::<(), PlayerInfoError>(PlayerInfoError::Io)
            },
            r is Ok ==> final(self)@ == old(self)@ + bits_of(value as int, width as nat),
            r is Err ==> final(self)@ == old(self)@,
    {
        if width > 32 {
            Err(PlayerInfoError::Io)
        } else if width == 0 {
            proof {
                lemma2_to64();
                assert(old(self)@ + bits_of(value as int, 0) =~= old(self)@);
            }
            if value == 0 {
                Ok(())
            } else {
                Err(PlayerInfoError::Io)
            }
        } else {
            match writer_put(self, width, value) {
                Ok(()) => Ok(()),
                Err(_) => Err(PlayerInfoError::Io),
            }
        }
    }

    /// Pads with zero bits to the next byte boundary.
    pub fn byte_align(&mut self)
        ensures
            final(self)@ == aligned(old(self)@),
    {
        writer_align(self)
    }

    /// The bytes of the stream. Bits after the last byte boundary are lost.
    pub fn into_bytes(self) -> (bytes: Vec<u8>)
        ensures
            bytes@ == pack(self@),
    {
        writer_into_bytes(self)
    }
}

} // verus!
