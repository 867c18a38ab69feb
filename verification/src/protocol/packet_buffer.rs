use vstd::prelude::*;

use vstd::utf8::encode_utf8;

use crate::errors::PacketError;
use crate::protocol::name_codec::{
    dotted, encode_qname, label_chars, labels_fit, name_end, name_labels, name_wire, split_labels,
    with_first, MAX_JUMPS, MAX_LABEL_LEN,
};

verus! {

/// Size of a message buffer: the classic limit of a DNS message over UDP.
pub const BUFFER_SIZE: usize = 512;

/// The 16-bit value whose big-endian bytes are `hi`, `lo`.
pub open spec fn u16_from_be(hi: u8, lo: u8) -> u16 {
    ((hi as u16) << 8) | (lo as u16)
}

/// The 32-bit value whose big-endian bytes are `b0`, `b1`, `b2`, `b3`.
pub open spec fn u32_from_be(b0: u8, b1: u8, b2: u8, b3: u8) -> u32 {
    ((b0 as u32) << 24) | ((b1 as u32) << 16) | ((b2 as u32) << 8) | (b3 as u32)
}

/// The two big-endian bytes of `v`.
pub open spec fn u16_to_be(v: u16) -> Seq<u8> {
    seq![(v >> 8) as u8, (v & 0xff) as u8]
}

/// The four big-endian bytes of `v`.
pub open spec fn u32_to_be(v: u32) -> Seq<u8> {
    seq![(v >> 24) as u8, ((v >> 16) & 0xff) as u8, ((v >> 8) & 0xff) as u8, (v & 0xff) as u8]
}

/// The 16-bit big-endian value stored in `buf` at `pos`.
pub open spec fn u16_at(buf: Seq<u8>, pos: int) -> u16 {
    u16_from_be(buf[pos], buf[pos + 1])
}

/// The 32-bit big-endian value stored in `buf` at `pos`.
pub open spec fn u32_at(buf: Seq<u8>, pos: int) -> u32 {
    u32_from_be(buf[pos], buf[pos + 1], buf[pos + 2], buf[pos + 3])
}

/// `buf` after `data` has been stored in it from `pos` on.
pub open spec fn written(buf: Seq<u8>, pos: int, data: Seq<u8>) -> Seq<u8> {
    Seq::new(
        buf.len(),
        |i: int|
            if pos <= i < pos + data.len() {
                data[i - pos]
            } else {
                buf[i]
            },
    )
}

/// Reading back the big-endian bytes of a 16-bit value gives the value.
pub proof fn lemma_u16_be_roundtrip(v: u16)
    ensures
        u16_to_be(v).len() == 2,
        u16_from_be(u16_to_be(v)[0], u16_to_be(v)[1]) == v,
{
    assert((((v >> 8) as u8) as u16) << 8 | (((v & 0xff) as u8) as u16) == v) by (bit_vector);
}

/// Reading back the big-endian bytes of a 32-bit value gives the value.
pub proof fn lemma_u32_be_roundtrip(v: u32)
    ensures
        u32_to_be(v).len() == 4,
        u32_from_be(u32_to_be(v)[0], u32_to_be(v)[1], u32_to_be(v)[2], u32_to_be(v)[3]) == v,
{
    assert((((v >> 24) as u8) as u32) << 24 | ((((v >> 16) & 0xff) as u8) as u32) << 16 | ((((v
        >> 8) & 0xff) as u8) as u32) << 8 | (((v & 0xff) as u8) as u32) == v) by (bit_vector);
}

/// Storing `a` and then `b` right behind it is storing `a + b`.
pub proof fn lemma_written_concat(buf: Seq<u8>, pos: int, a: Seq<u8>, b: Seq<u8>)
    ensures
        written(written(buf, pos, a), pos + a.len(), b) == written(buf, pos, a + b),
{
    assert(written(written(buf, pos, a), pos + a.len(), b) =~= written(buf, pos, a + b));
}

/// What was stored can be found where it was stored.
pub proof fn lemma_written_there(buf: Seq<u8>, pos: int, data: Seq<u8>)
    requires
        0 <= pos,
        pos + data.len() <= buf.len(),
    ensures
        written(buf, pos, data).len() == buf.len(),
        written(buf, pos, data).subrange(pos, pos + data.len()) == data,
{
    assert(written(buf, pos, data).subrange(pos, pos + data.len()) =~= data);
}

/// Where `a + b` stands in a buffer, `a` stands at its start and `b` behind `a`.
pub proof fn lemma_split_range(buf: Seq<u8>, pos: int, a: Seq<u8>, b: Seq<u8>)
    requires
        0 <= pos,
        pos + a.len() + b.len() <= buf.len(),
        buf.subrange(pos, pos + a.len() + b.len()) == a + b,
    ensures
        buf.subrange(pos, pos + a.len()) == a,
        buf.subrange(pos + a.len(), pos + a.len() + b.len()) == b,
{
    let whole = buf.subrange(pos, pos + a.len() + b.len());
    assert forall|k: int| 0 <= k < a.len() implies buf[pos + k] == a[k] by {
        assert(whole[k] == buf[pos + k]);
    }
    assert forall|k: int| 0 <= k < b.len() implies buf[pos + a.len() + k] == b[k] by {
        assert(whole[a.len() + k] == buf[pos + a.len() + k]);
    }
    assert(buf.subrange(pos, pos + a.len()) =~= a);
    assert(buf.subrange(pos + a.len(), pos + a.len() + b.len()) =~= b);
}

/// A 16-bit value whose big-endian bytes stand in a buffer is read back from there.
pub proof fn lemma_u16_read_back(buf: Seq<u8>, pos: int, v: u16)
    requires
        0 <= pos,
        pos + 2 <= buf.len(),
        buf.subrange(pos, pos + 2) == u16_to_be(v),
    ensures
        u16_at(buf, pos) == v,
{
    lemma_u16_be_roundtrip(v);
    assert(buf.subrange(pos, pos + 2)[0] == buf[pos]);
    assert(buf.subrange(pos, pos + 2)[1] == buf[pos + 1]);
}

/// A 32-bit value whose big-endian bytes stand in a buffer is read back from there.
pub proof fn lemma_u32_read_back(buf: Seq<u8>, pos: int, v: u32)
    requires
        0 <= pos,
        pos + 4 <= buf.len(),
        buf.subrange(pos, pos + 4) == u32_to_be(v),
    ensures
        u32_at(buf, pos) == v,
{
    lemma_u32_be_roundtrip(v);
    assert(buf.subrange(pos, pos + 4)[0] == buf[pos]);
    assert(buf.subrange(pos, pos + 4)[1] == buf[pos + 1]);
    assert(buf.subrange(pos, pos + 4)[2] == buf[pos + 2]);
    assert(buf.subrange(pos, pos + 4)[3] == buf[pos + 3]);
}

/// `rest` with the labels `done` put in front.
pub open spec fn prepend(done: Seq<Seq<u8>>, rest: Result<Seq<Seq<u8>>, PacketError>) -> Result<
    Seq<Seq<u8>>,
    PacketError,
> {
    match rest {
        Ok(labels) => Ok(done + labels),
        Err(e) => Err(e),
    }
}

/// A fixed buffer of 512 bytes with a cursor. Every read and write is checked
/// against the end of the buffer and fails instead of passing it.
#[derive(Debug)]
pub struct PacketBuffer {
    pub buffer: [u8; 512],
    pub pos: usize,
}

impl PacketBuffer {
    /// The bytes of the buffer.
    pub open spec fn bytes(&self) -> Seq<u8> {
        self.buffer@
    }

    /// A buffer that holds these bytes, with the cursor at its start.
    pub fn new(buffer: [u8; 512]) -> (r: Self)
        ensures
            r.buffer == buffer,
            r.pos == 0,
    {
        PacketBuffer { buffer, pos: 0 }
    }

    /// Moves the cursor. The position is not checked here: the next read or
    /// write checks it.
    pub fn seek(&mut self, pos: usize)
        ensures
            final(self).pos == pos,
            final(self).buffer == old(self).buffer,
    {
        self.pos = pos;
    }

    /// The byte under the cursor, which stays where it is.
    pub fn peek(&self) -> (r: Result<u8, PacketError>)
        ensures
            self.pos < BUFFER_SIZE ==> r == Ok::<u8, PacketError>(self.bytes()[self.pos as int]),
            self.pos >= BUFFER_SIZE ==> r == Err::<u8, PacketError>(PacketError::BufferUnderrun),
    {
        if self.pos >= BUFFER_SIZE {
            return Err(PacketError::BufferUnderrun);
        }
        Ok(self.buffer[self.pos])
    }

    /// Reads one byte and moves the cursor behind it.
    pub fn read(&mut self) -> (r: Result<u8, PacketError>)
        ensures
            final(self).buffer == old(self).buffer,
            old(self).pos < BUFFER_SIZE ==> r == Ok::<u8, PacketError>(
                old(self).bytes()[old(self).pos as int],
            ) && final(self).pos == old(self).pos + 1,
            old(self).pos >= BUFFER_SIZE ==> r == Err::<u8, PacketError>(
                PacketError::BufferUnderrun,
            ) && final(self).pos == old(self).pos,
    {
        if self.pos >= BUFFER_SIZE {
            return Err(PacketError::BufferUnderrun);
        }
        let num = self.buffer[self.pos];
        self.pos += 1;
        Ok(num)
    }

    /// Reads a 16-bit big-endian value and moves the cursor behind it.
    pub fn read_u16(&mut self) -> (r: Result<u16, PacketError>)
        ensures
            final(self).buffer == old(self).buffer,
            old(self).pos + 2 <= BUFFER_SIZE ==> r == Ok::<u16, PacketError>(
                u16_at(old(self).bytes(), old(self).pos as int),
            ) && final(self).pos == old(self).pos + 2,
            old(self).pos + 2 > BUFFER_SIZE ==> r == Err::<u16, PacketError>(
                PacketError::BufferUnderrun,
            ) && final(self).pos == old(self).pos,
    {
        if self.pos > BUFFER_SIZE - 2 {
            return Err(PacketError::BufferUnderrun);
        }
        let hi = self.buffer[self.pos];
        let lo = self.buffer[self.pos + 1];
        self.pos += 2;
        Ok(((hi as u16) << 8) | (lo as u16))
    }

    /// Reads a 32-bit big-endian value and moves the cursor behind it.
    pub fn read_u32(&mut self) -> (r: Result<u32, PacketError>)
        ensures
            final(self).buffer == old(self).buffer,
            old(self).pos + 4 <= BUFFER_SIZE ==> r == Ok::<u32, PacketError>(
                u32_at(old(self).bytes(), old(self).pos as int),
            ) && final(self).pos == old(self).pos + 4,
            old(self).pos + 4 > BUFFER_SIZE ==> r == Err::<u32, PacketError>(
                PacketError::BufferUnderrun,
            ) && final(self).pos == old(self).pos,
    {
        if self.pos > BUFFER_SIZE - 4 {
            return Err(PacketError::BufferUnderrun);
        }
        let b0 = self.buffer[self.pos];
        let b1 = self.buffer[self.pos + 1];
        let b2 = self.buffer[self.pos + 2];
        let b3 = self.buffer[self.pos + 3];
        self.pos += 4;
        Ok(((b0 as u32) << 24) | ((b1 as u32) << 16) | ((b2 as u32) << 8) | (b3 as u32))
    }

    /// Reads the name that starts under the cursor, following compression
    /// pointers, and gives it in dotted form. The cursor moves behind the
    /// name: behind its zero byte, or behind the first pointer that was
    /// followed. A pointer has to point strictly backwards, and at most
    /// `MAX_JUMPS` pointers are followed. On failure the cursor stays where
    /// it was.
    pub fn read_qname(&mut self) -> (r: Result<String, PacketError>)
        ensures
            final(self).buffer == old(self).buffer,
            match name_labels(old(self).bytes(), old(self).pos as int, 0) {
                Ok(labels) => r is Ok && r->Ok_0@ == dotted(labels) && final(self).pos
                    == name_end(old(self).bytes(), old(self).pos as int),
                Err(e) => r == Err::<String, PacketError>(e) && final(self).pos == old(self).pos,
            },
    {
        let ghost buf = self.buffer@;
        let start = self.pos;
        let mut cursor: usize = self.pos;
        let mut resume: Option<usize> = None;
        let mut jumps: usize = 0;
        let mut name = String::new();
        let mut first = true;
        let ghost done: Seq<Seq<u8>> = Seq::empty();
        loop
            invariant_except_break
                name_labels(buf, start as int, 0) == prepend(
                    done,
                    name_labels(buf, cursor as int, jumps as int),
                ),
                match resume {
                    Some(p) => p == name_end(buf, start as int),
                    None => name_end(buf, start as int) == name_end(buf, cursor as int),
                },
            invariant
                buf == self.buffer@,
                self.buffer == old(self).buffer,
                self.pos == start,
                start == old(self).pos,
                jumps <= MAX_JUMPS,
                name@ == dotted(done),
                first <==> done.len() == 0,
            ensures
                name_labels(buf, start as int, 0) == Ok::<Seq<Seq<u8>>, PacketError>(done),
                cursor <= BUFFER_SIZE,
                match resume {
                    Some(p) => p == name_end(buf, start as int),
                    None => name_end(buf, start as int) == cursor,
                },
            decreases MAX_JUMPS - jumps, BUFFER_SIZE - cursor,
        {
            if cursor >= BUFFER_SIZE {
                return Err(PacketError::BufferUnderrun);
            }
            let length = self.buffer[cursor];
            if length == 0 {
                cursor += 1;
                proof {
                    assert(done + Seq::<Seq<u8>>::empty() =~= done);
                }
                break ;
            }
            if length & 0xC0 == 0xC0 {
                if cursor + 1 >= BUFFER_SIZE {
                    return Err(PacketError::BufferUnderrun);
                }
                let low = self.buffer[cursor + 1];
                let target = ((((length as u16) << 8) | (low as u16)) & 0x3FFF) as usize;
                if target >= BUFFER_SIZE {
                    return Err(PacketError::PointerOutOfBounds);
                }
                if target >= cursor || jumps >= MAX_JUMPS {
                    return Err(PacketError::PointerCycle);
                }
                if resume.is_none() {
                    resume = Some(cursor + 2);
                }
                jumps += 1;
                cursor = target;
                continue ;
            }
            if length as usize > MAX_LABEL_LEN {
                return Err(PacketError::LabelTooLong);
            }
            if cursor + 1 + length as usize > BUFFER_SIZE {
                return Err(PacketError::BufferUnderrun);
            }
            let ghost label = buf.subrange(cursor + 1, cursor + 1 + length);
            if !first {
                name.push('.');
            }
            first = false;
            let ghost prefix = name@;
            let mut k: usize = 0;
            while k < length as usize
                invariant
                    k <= length,
                    cursor + 1 + length <= BUFFER_SIZE,
                    buf == self.buffer@,
                    label == buf.subrange(cursor + 1, cursor + 1 + length),
                    name@ == prefix + label_chars(label.subrange(0, k as int)),
                decreases length - k,
            {
                name.push(self.buffer[cursor + 1 + k] as char);
                proof {
                    assert(label_chars(label.subrange(0, k + 1)) =~= label_chars(
                        label.subrange(0, k as int),
                    ).push(label[k as int] as char));
                }
                k += 1;
            }
            proof {
                assert(label.subrange(0, length as int) =~= label);
                assert(prefix + label_chars(Seq::<u8>::empty()) =~= prefix);
                let grown = done.push(label);
                assert(grown.drop_last() =~= done);
                assert(grown.last() == label);
                let rest = name_labels(buf, cursor + 1 + length, jumps as int);
                assert(prepend(done, with_first(label, rest)) == prepend(grown, rest)) by {
                    if let Ok(r) = rest {
                        assert(done + (seq![label] + r) =~= grown + r);
                    }
                }
                done = grown;
            }
            cursor = cursor + 1 + length as usize;
        }
        match resume {
            Some(p) => {
                self.pos = p;
            },
            None => {
                self.pos = cursor;
            },
        }
        Ok(name)
    }

    /// Reads `length` bytes and moves the cursor behind them.
    pub fn read_bytes(&mut self, length: usize) -> (r: Result<Vec<u8>, PacketError>)
        ensures
            final(self).buffer == old(self).buffer,
            old(self).pos + length <= BUFFER_SIZE ==> r is Ok && r->Ok_0@ == old(
                self,
            ).bytes().subrange(old(self).pos as int, old(self).pos + length)
                && final(self).pos == old(self).pos + length,
            old(self).pos + length > BUFFER_SIZE ==> r == Err::<Vec<u8>, PacketError>(
                PacketError::BufferUnderrun,
            ) && final(self).pos == old(self).pos,
    {
        if self.pos > BUFFER_SIZE || length > BUFFER_SIZE - self.pos {
            return Err(PacketError::BufferUnderrun);
        }
        let start = self.pos;
        let mut bytes: Vec<u8> = Vec::new();
        let mut i: usize = 0;
        while i < length
            invariant
                i <= length,
                start + length <= BUFFER_SIZE,
                bytes@ == self.buffer@.subrange(start as int, start + i),
            decreases length - i,
        {
            bytes.push(self.buffer[start + i]);
            i += 1;
        }
        self.pos = start + length;
        Ok(bytes)
    }

    /// Writes one byte under the cursor and moves the cursor behind it.
    pub fn write(&mut self, num: u8) -> (r: Result<(), PacketError>)
        ensures
            old(self).pos < BUFFER_SIZE ==> r is Ok && final(self).bytes() == written(
                old(self).bytes(),
                old(self).pos as int,
                seq![num],
            ) && final(self).pos == old(self).pos + 1,
            old(self).pos >= BUFFER_SIZE ==> r == Err::<(), PacketError>(
                PacketError::BufferOverrun,
            ) && *final(self) == *old(self),
    {
        if self.pos >= BUFFER_SIZE {
            return Err(PacketError::BufferOverrun);
        }
        self.buffer[self.pos] = num;
        self.pos += 1;
        Ok(())
    }

    /// Writes a 16-bit value in big-endian order and moves the cursor behind it.
    pub fn write_u16(&mut self, num: u16) -> (r: Result<(), PacketError>)
        ensures
            old(self).pos + 2 <= BUFFER_SIZE ==> r is Ok && final(self).bytes() == written(
                old(self).bytes(),
                old(self).pos as int,
                u16_to_be(num),
            ) && final(self).pos == old(self).pos + 2,
            old(self).pos + 2 > BUFFER_SIZE ==> r == Err::<(), PacketError>(
                PacketError::BufferOverrun,
            ) && *final(self) == *old(self),
    {
        if self.pos > BUFFER_SIZE - 2 {
            return Err(PacketError::BufferOverrun);
        }
        self.buffer[self.pos] = (num >> 8) as u8;
        self.buffer[self.pos + 1] = (num & 0xff) as u8;
        self.pos += 2;
        Ok(())
    }

    /// Writes a 32-bit value in big-endian order and moves the cursor behind it.
    pub fn write_u32(&mut self, num: u32) -> (r: Result<(), PacketError>)
        ensures
            old(self).pos + 4 <= BUFFER_SIZE ==> r is Ok && final(self).bytes() == written(
                old(self).bytes(),
                old(self).pos as int,
                u32_to_be(num),
            ) && final(self).pos == old(self).pos + 4,
            old(self).pos + 4 > BUFFER_SIZE ==> r == Err::<(), PacketError>(
                PacketError::BufferOverrun,
            ) && *final(self) == *old(self),
    {
        if self.pos > BUFFER_SIZE - 4 {
            return Err(PacketError::BufferOverrun);
        }
        self.buffer[self.pos] = (num >> 24) as u8;
        self.buffer[self.pos + 1] = ((num >> 16) & 0xff) as u8;
        self.buffer[self.pos + 2] = ((num >> 8) & 0xff) as u8;
        self.buffer[self.pos + 3] = (num & 0xff) as u8;
        self.pos += 4;
        Ok(())
    }

    /// Writes a dotted name: each label with its length in front, then a
    /// zero byte. No pointer is written. A label of more than 63 bytes is
    /// refused; where the name is refused or does not fit, nothing is
    /// written.
    pub fn write_qname(&mut self, domain: &str) -> (r: Result<(), PacketError>)
        ensures
            !labels_fit(split_labels(encode_utf8(domain@))) ==> r == Err::<(), PacketError>(
                PacketError::LabelTooLong,
            ) && *final(self) == *old(self),
            labels_fit(split_labels(encode_utf8(domain@))) && old(self).pos + encode_utf8(
                domain@,
            ).len() + 2 > BUFFER_SIZE ==> r == Err::<(), PacketError>(PacketError::BufferOverrun)
                && *final(self) == *old(self),
            labels_fit(split_labels(encode_utf8(domain@))) && old(self).pos + encode_utf8(
                domain@,
            ).len() + 2 <= BUFFER_SIZE ==> r is Ok && final(self).bytes() == written(
                old(self).bytes(),
                old(self).pos as int,
                name_wire(encode_utf8(domain@)),
            ) && final(self).pos == old(self).pos + encode_utf8(domain@).len() + 2,
    {
        match encode_qname(domain) {
            Ok(wire) => self.write_bytes(wire),
            Err(e) => Err(e),
        }
    }

    /// Writes `bytes` from the cursor on and moves the cursor behind them.
    /// Where they do not fit, nothing is written.
    pub fn write_bytes(&mut self, bytes: Vec<u8>) -> (r: Result<(), PacketError>)
        ensures
            old(self).pos + bytes.len() <= BUFFER_SIZE ==> r is Ok && final(self).bytes()
                == written(old(self).bytes(), old(self).pos as int, bytes@) && final(self).pos
                == old(self).pos + bytes.len(),
            old(self).pos + bytes.len() > BUFFER_SIZE ==> r == Err::<(), PacketError>(
                PacketError::BufferOverrun,
            ) && *final(self) == *old(self),
    {
        if self.pos > BUFFER_SIZE || bytes.len() > BUFFER_SIZE - self.pos {
            return Err(PacketError::BufferOverrun);
        }
        let start = self.pos;
        let mut i: usize = 0;
        while i < bytes.len()
            invariant
                i <= bytes.len(),
                start + bytes.len() <= BUFFER_SIZE,
                self.buffer@ == written(
                    old(self).buffer@,
                    start as int,
                    bytes@.subrange(0, i as int),
                ),
            decreases bytes.len() - i,
        {
            self.buffer[start + i] = bytes[i];
            i += 1;
        }
        assert(bytes@.subrange(0, bytes.len() as int) == bytes@);
        self.pos = start + bytes.len();
        Ok(())
    }
}

} // verus!
