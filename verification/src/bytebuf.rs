//! Byte-granular, fixed-capacity output buffer with the game's byte orders.

use osrs_buffer::ByteBuffer;
use vstd::prelude::*;
use vstd::string::StringSliceAdditionalSpecFns;

verus! {

/// `osrs_buffer::ByteBuffer`, carried as an opaque value: what is known of
/// one is what `store`, `write_mark` and `read_mark` say of it.
#[verifier::external_type_specification]
#[verifier::external_body]
pub struct ExByteBuffer(ByteBuffer);

/// The field `data` of an `osrs_buffer::ByteBuffer`: its whole backing
/// store, written or not.
pub uninterp spec fn store(buf: ByteBuffer) -> Seq<u8>;

/// The field `write_pos` of an `osrs_buffer::ByteBuffer`.
pub uninterp spec fn write_mark(buf: ByteBuffer) -> nat;

/// The field `read_pos` of an `osrs_buffer::ByteBuffer`.
pub uninterp spec fn read_mark(buf: ByteBuffer) -> nat;

/// `store` with `bytes` laid over it from index `at` on.
pub open spec fn placed(store: Seq<u8>, at: nat, bytes: Seq<u8>) -> Seq<u8> {
    store.subrange(0, at as int) + bytes + store.subrange(
        (at + bytes.len()) as int,
        store.len() as int,
    )
}

/// `post` is `pre` after `bytes` were written at its write position.
pub open spec fn wrote(pre: ByteBuffer, post: ByteBuffer, bytes: Seq<u8>) -> bool {
    &&& store(post) == placed(store(pre), write_mark(pre), bytes)
    &&& write_mark(post) == write_mark(pre) + bytes.len()
    &&& read_mark(post) == read_mark(pre)
}

/// The buffer has room for `n` more bytes.
pub open spec fn has_room(buf: ByteBuffer, n: nat) -> bool {
    write_mark(buf) + n <= store(buf).len()
}

/// The byte `b + 128` modulo 256.
pub open spec fn add128(b: u8) -> u8 {
    ((b + 128) % 256) as u8
}

/// The more significant byte of a 16-bit value.
pub open spec fn high_byte(v: i16) -> u8 {
    ((v as u16) >> 8) as u8
}

/// The less significant byte of a 16-bit value.
pub open spec fn low_byte(v: i16) -> u8 {
    ((v as u16) & 0xff) as u8
}

/// A 16-bit value in big-endian order.
pub open spec fn be16(v: i16) -> Seq<u8> {
    seq![high_byte(v), low_byte(v)]
}

/// A 32-bit value in big-endian order.
pub open spec fn be32(v: i32) -> Seq<u8> {
    seq![
        ((v as u32) >> 24) as u8,
        (((v as u32) >> 16) & 0xff) as u8,
        (((v as u32) >> 8) & 0xff) as u8,
        ((v as u32) & 0xff) as u8,
    ]
}

/// A 16-bit value in big-endian order, 128 added to its low byte modulo 256.
pub open spec fn be16_add(v: i16) -> Seq<u8> {
    seq![high_byte(v), add128(low_byte(v))]
}

/// The bytes of `src` in reverse order, 128 added to each modulo 256.
pub open spec fn reverse_add(src: Seq<u8>) -> Seq<u8> {
    Seq::new(src.len(), |i: int| add128(src[src.len() - 1 - i]))
}

/// The UTF-8 bytes of a string (for ASCII text, one byte per character)
/// followed by a zero byte.
pub open spec fn c_string(s: Seq<char>) -> Seq<u8> {
    vstd::utf8::encode_utf8(s).push(0u8)
}

/// `ByteBuffer::new`: `size` zero bytes of store, both positions at 0.
/// Allocating more than `isize::MAX` bytes panics, so that is left out.
#[verifier::external_body]
fn buffer_new(size: usize) -> (buf: ByteBuffer)
    requires
        size <= isize::MAX,
    ensures
        store(buf) == Seq::new(size as nat, |i: int| 0u8),
        write_mark(buf) == 0,
        read_mark(buf) == 0,
{
    ByteBuffer::new(size)
}

/// `ByteBuffer::write_i8`: one byte at the write position, which moves on
/// by one. It panics where the store is full.
#[verifier::external_body]
fn buffer_write_i8(buf: &mut ByteBuffer, v: i8)
    requires
        has_room(*old(buf), 1),
    ensures
        wrote(*old(buf), *final(buf), seq![v as u8]),
{
    buf.write_i8(v)
}

/// `ByteBuffer::write_i16`: two bytes, the more significant first. It panics
/// where fewer than two bytes of store are left.
#[verifier::external_body]
fn buffer_write_i16(buf: &mut ByteBuffer, v: i16)
    requires
        has_room(*old(buf), 2),
    ensures
        wrote(*old(buf), *final(buf), be16(v)),
{
    buf.write_i16(v)
}

/// `ByteBuffer::write_i32`: four bytes, the most significant first. It
/// panics where fewer than four bytes of store are left.
#[verifier::external_body]
fn buffer_write_i32(buf: &mut ByteBuffer, v: i32)
    requires
        has_room(*old(buf), 4),
    ensures
        wrote(*old(buf), *final(buf), be32(v)),
{
    buf.write_i32(v)
}

/// `ByteBuffer::write_i16_add`: the byte `v >> 8`, then the low byte of
/// `v + 128`. The sum is formed in 16 bits and panics on overflow, and the
/// writes panic where fewer than two bytes of store are left.
#[verifier::external_body]
fn buffer_write_i16_add(buf: &mut ByteBuffer, v: i16)
    requires
        has_room(*old(buf), 2),
        v + 128 <= i16::MAX,
    ensures
        wrote(
            *old(buf),
            *final(buf),
            seq![((v >> 8) as i8) as u8, (((v + 128) as i16) as i8) as u8],
        ),
{
    buf.write_i16_add(v)
}

/// `ByteBuffer::write_string_null_terminated`: the bytes of the string, then
/// a zero byte. It panics where the store cannot take them all.
#[verifier::external_body]
fn buffer_write_string(buf: &mut ByteBuffer, s: &str)
    requires
        has_room(*old(buf), s.spec_bytes().len() + 1),
    ensures
        wrote(*old(buf), *final(buf), s.spec_bytes().push(0u8)),
{
    buf.write_string_null_terminated(s)
}

/// `ByteBuffer::write_bytes_reversed_add`: the bytes of `src` between its
/// read and its write position, last first, each with 128 added modulo 256.
/// It panics where `src`'s positions lie outside its store or the target's
/// store cannot take the bytes.
#[verifier::external_body]
fn buffer_write_reversed_add(buf: &mut ByteBuffer, src: &ByteBuffer)
    requires
        read_mark(*src) <= write_mark(*src) <= store(*src).len(),
        has_room(*old(buf), (write_mark(*src) - read_mark(*src)) as nat),
    ensures
        wrote(
            *old(buf),
            *final(buf),
            reverse_add(store(*src).subrange(read_mark(*src) as int, write_mark(*src) as int)),
        ),
{
    buf.write_bytes_reversed_add(src)
}

/// The field `write_pos`, read.
#[verifier::external_body]
fn buffer_write_pos(buf: &ByteBuffer) -> (n: usize)
    ensures
        n == write_mark(*buf),
{
    buf.write_pos
}

/// The length of the field `data`, read.
#[verifier::external_body]
fn buffer_size(buf: &ByteBuffer) -> (n: usize)
    ensures
        n == store(*buf).len(),
{
    buf.data.len()
}

/// A copy of the field `data` up to the write position.
#[verifier::external_body]
fn buffer_written(buf: &ByteBuffer) -> (bytes: Vec<u8>)
    requires
        write_mark(*buf) <= store(*buf).len(),
    ensures
        bytes@ == store(*buf).subrange(0, write_mark(*buf) as int),
{
    buf.data[..buf.write_pos].to_vec()
}

/// An append-only byte buffer of fixed capacity.
pub struct ByteWriter {
    buf: ByteBuffer,
}

impl View for ByteWriter {
    type V = Seq<u8>;

    /// The bytes written so far.
    closed spec fn view(&self) -> Seq<u8> {
        store(self.buf).subrange(0, write_mark(self.buf) as int)
    }
}

impl ByteWriter {
    /// The number of bytes the buffer can hold in all.
    pub closed spec fn limit(&self) -> nat {
        store(self.buf).len()
    }

    /// The buffer is in order: its write position lies within its store and
    /// nothing has been read from it.
    pub closed spec fn wf(&self) -> bool {
        &&& write_mark(self.buf) <= store(self.buf).len()
        &&& read_mark(self.buf) == 0
        &&& store(self.buf).len() <= isize::MAX
    }

    /// The written bytes never outgrow the capacity.
    pub proof fn lemma_len_within_limit(&self)
        requires
            self.wf(),
        ensures
            self@.len() <= self.limit(),
            self.limit() <= isize::MAX,
    {
    }

    /// An empty buffer that can hold `size` bytes.
    pub fn new(size: usize) -> (w: ByteWriter)
        requires
            size <= isize::MAX,
        ensures
            w.wf(),
            w@ == Seq::<u8>::empty(),
            w.limit() == size,
    {
        let buf = buffer_new(size);
        ByteWriter { buf }
    }

    /// The number of bytes written so far.
    pub fn len(&self) -> (n: usize)
        requires
            self.wf(),
        ensures
            n == self@.len(),
            n <= self.limit(),
    {
        buffer_write_pos(&self.buf)
    }

    /// The number of bytes that can still be written.
    pub fn room(&self) -> (n: usize)
        requires
            self.wf(),
        ensures
            n == self.limit() - self@.len(),
    {
        buffer_size(&self.buf) - buffer_write_pos(&self.buf)
    }

    /// The bytes `tail` were appended and nothing else changed.
    pub open spec fn appended(&self, before: &ByteWriter, tail: Seq<u8>) -> bool {
        &&& self.wf()
        &&& self@ == before@ + tail
        &&& self.limit() == before.limit()
    }

    proof fn lemma_wrote(pre: ByteBuffer, post: ByteBuffer, bytes: Seq<u8>)
        requires
            wrote(pre, post, bytes),
            has_room(pre, bytes.len()),
            read_mark(pre) == 0,
            store(pre).len() <= isize::MAX,
        ensures
            (ByteWriter { buf: post }).appended(&ByteWriter { buf: pre }, bytes),
    {
        let a = ByteWriter { buf: pre };
        let b = ByteWriter { buf: post };
        assert(b@ =~= a@ + bytes);
    }

    /// Appends one byte.
    pub fn write_i8(&mut self, v: i8)
        requires
            old(self).wf(),
            old(self)@.len() + 1 <= old(self).limit(),
        ensures
            final(self).appended(old(self), seq![v as u8]),
    {
        buffer_write_i8(&mut self.buf, v);
        proof {
            Self::lemma_wrote(old(self).buf, self.buf, seq![v as u8]);
        }
    }

    /// Appends a 16-bit value, the more significant byte first.
    pub fn write_i16(&mut self, v: i16)
        requires
            old(self).wf(),
            old(self)@.len() + 2 <= old(self).limit(),
        ensures
            final(self).appended(old(self), be16(v)),
    {
        buffer_write_i16(&mut self.buf, v);
        proof {
            Self::lemma_wrote(old(self).buf, self.buf, be16(v));
        }
    }

    /// Appends a 32-bit value, the most significant byte first.
    pub fn write_i32(&mut self, v: i32)
        requires
            old(self).wf(),
            old(self)@.len() + 4 <= old(self).limit(),
        ensures
            final(self).appended(old(self), be32(v)),
    {
        buffer_write_i32(&mut self.buf, v);
        proof {
            Self::lemma_wrote(old(self).buf, self.buf, be32(v));
        }
    }

    /// Appends a 16-bit value, the more significant byte first and the less
    /// significant one with 128 added modulo 256.
    pub fn write_i16_add(&mut self, v: i16)
        requires
            old(self).wf(),
            old(self)@.len() + 2 <= old(self).limit(),
        ensures
            final(self).appended(old(self), be16_add(v)),
    {
        if v <= i16::MAX - 128 {
            buffer_write_i16_add(&mut self.buf, v);
            proof {
                assert(((v >> 8) as i8) as u8 == high_byte(v)) by (bit_vector);
                assert((((v + 128) as i16) as i8) as u8 == add128(low_byte(v))) by (bit_vector)
                    requires
                        v <= 0x7f7fi16,
                ;
                assert(seq![((v >> 8) as i8) as u8, (((v + 128) as i16) as i8) as u8]
                    =~= be16_add(v));
                Self::lemma_wrote(old(self).buf, self.buf, be16_add(v));
            }
        } else {
            let high: i8 = 0x7f;
            let low: i8 = (v - (i16::MAX - 127)) as i8;
            buffer_write_i8(&mut self.buf, high);
            let ghost mid = self.buf;
            buffer_write_i8(&mut self.buf, low);
            proof {
                assert(high as u8 == high_byte(v) && low as u8 == add128(low_byte(v)))
                    by (bit_vector)
                    requires
                        v > 0x7f7fi16,
                        high == 0x7fi8,
                        low == (v - 0x7f80i16) as i8,
                ;
                Self::lemma_wrote(old(self).buf, mid, seq![high as u8]);
                Self::lemma_wrote(mid, self.buf, seq![low as u8]);
                assert(old(self)@ + seq![high as u8] + seq![low as u8] =~= old(self)@
                    + be16_add(v));
            }
        }
    }

    /// Appends the bytes of a string and a closing zero byte.
    pub fn write_c_string(&mut self, s: &str)
        requires
            old(self).wf(),
            old(self)@.len() + c_string(s@).len() <= old(self).limit(),
        ensures
            final(self).appended(old(self), c_string(s@)),
    {
        buffer_write_string(&mut self.buf, s);
        proof {
            Self::lemma_wrote(old(self).buf, self.buf, c_string(s@));
        }
    }

    /// Appends the bytes of `src` in reverse order, each with 128 added
    /// modulo 256.
    pub fn reverse_add_copy(&mut self, src: &ByteWriter)
        requires
            old(self).wf(),
            src.wf(),
            old(self)@.len() + src@.len() <= old(self).limit(),
        ensures
            final(self).appended(old(self), reverse_add(src@)),
    {
        buffer_write_reversed_add(&mut self.buf, &src.buf);
        proof {
            Self::lemma_wrote(old(self).buf, self.buf, reverse_add(src@));
        }
    }

    /// A copy of the bytes written so far.
    pub fn to_vec(&self) -> (bytes: Vec<u8>)
        requires
            self.wf(),
        ensures
            bytes@ == self@,
    {
        buffer_written(&self.buf)
    }
}

} // verus!
