use vstd::prelude::*;
use vstd::utf8::{encode_utf8, is_ascii_chars, is_ascii_chars_encode_utf8};

use crate::errors::PacketError;

verus! {

/// The longest label that the wire format can hold.
pub const MAX_LABEL_LEN: usize = 63;

/// How many compression pointers one name may follow. No name without a
/// cycle needs more: a buffer of 512 bytes holds fewer pointers than that.
pub const MAX_JUMPS: usize = 512;

/// The byte that separates the labels of a dotted name.
pub const DOT: u8 = 46;

/// Whether a length byte announces a compression pointer: its two top bits are set.
pub open spec fn is_pointer(b: u8) -> bool {
    b & 0xC0 == 0xC0
}

/// The offset that the two bytes of a compression pointer hold: their low 14 bits.
pub open spec fn pointer_target(hi: u8, lo: u8) -> int {
    ((((hi as u16) << 8) | (lo as u16)) & 0x3FFF) as int
}

/// The labels of the name that starts in `buf` at `pos`, after `jumps`
/// pointers have been followed already, or the reason why there is no such name.
pub open spec fn name_labels(buf: Seq<u8>, pos: int, jumps: int) -> Result<
    Seq<Seq<u8>>,
    PacketError,
>
    decreases MAX_JUMPS - jumps, buf.len() - pos,
{
    if pos < 0 || pos >= buf.len() {
        Err(PacketError::BufferUnderrun)
    } else if buf[pos] == 0 {
        Ok(Seq::empty())
    } else if is_pointer(buf[pos]) {
        if pos + 1 >= buf.len() {
            Err(PacketError::BufferUnderrun)
        } else if pointer_target(buf[pos], buf[pos + 1]) >= buf.len() {
            Err(PacketError::PointerOutOfBounds)
        } else if pointer_target(buf[pos], buf[pos + 1]) >= pos || jumps >= MAX_JUMPS {
            Err(PacketError::PointerCycle)
        } else {
            name_labels(buf, pointer_target(buf[pos], buf[pos + 1]), jumps + 1)
        }
    } else if buf[pos] > MAX_LABEL_LEN {
        Err(PacketError::LabelTooLong)
    } else if pos + 1 + buf[pos] > buf.len() {
        Err(PacketError::BufferUnderrun)
    } else {
        with_first(
            buf.subrange(pos + 1, pos + 1 + buf[pos]),
            name_labels(buf, pos + 1 + buf[pos], jumps),
        )
    }
}

/// `rest` with `label` put in front, where `rest` is a list of labels.
pub open spec fn with_first(label: Seq<u8>, rest: Result<Seq<Seq<u8>>, PacketError>) -> Result<
    Seq<Seq<u8>>,
    PacketError,
> {
    match rest {
        Ok(labels) => Ok(seq![label] + labels),
        Err(e) => Err(e),
    }
}

/// Where the fields that follow the name at `pos` start: behind the zero byte
/// that ends the name, or behind the first pointer of the name.
pub open spec fn name_end(buf: Seq<u8>, pos: int) -> int
    decreases buf.len() - pos,
{
    if pos < 0 || pos >= buf.len() {
        pos
    } else if buf[pos] == 0 {
        pos + 1
    } else if is_pointer(buf[pos]) {
        pos + 2
    } else if buf[pos] > MAX_LABEL_LEN || pos + 1 + buf[pos] > buf.len() {
        pos
    } else {
        name_end(buf, pos + 1 + buf[pos])
    }
}

/// The characters that stand for the bytes of a label: byte by byte.
pub open spec fn label_chars(label: Seq<u8>) -> Seq<char> {
    Seq::new(label.len(), |i: int| label[i] as char)
}

/// The labels written as one name, with a dot between two labels.
pub open spec fn dotted(labels: Seq<Seq<u8>>) -> Seq<char>
    decreases labels.len(),
{
    if labels.len() == 0 {
        Seq::empty()
    } else if labels.len() == 1 {
        label_chars(labels[0])
    } else {
        dotted(labels.drop_last()) + seq!['.'] + label_chars(labels.last())
    }
}

/// The end of the label of `name` that starts at `i`: the index of the next
/// dot, or the length of the name.
pub open spec fn label_end(name: Seq<u8>, i: int) -> int
    decreases name.len() - i,
{
    if i < 0 || i >= name.len() || name[i] == DOT {
        i
    } else {
        label_end(name, i + 1)
    }
}

/// The labels of the part of `name` that starts at `i`: what stands between
/// its dots. A name that ends in a dot has an empty last label, and so has
/// the empty name.
pub open spec fn labels_from(name: Seq<u8>, i: int) -> Seq<Seq<u8>>
    decreases name.len() - i,
{
    if i < 0 || i > name.len() {
        Seq::empty()
    } else if label_end(name, i) >= name.len() {
        seq![name.subrange(i, name.len() as int)]
    } else {
        proof {
            lemma_label_end_bounds(name, i);
        }
        seq![name.subrange(i, label_end(name, i))] + labels_from(name, label_end(name, i) + 1)
    }
}

/// A label ends at or behind its start, within the name, and at a dot
/// unless it is the last label; it holds no dot.
pub proof fn lemma_label_end_bounds(name: Seq<u8>, i: int)
    requires
        0 <= i <= name.len(),
    ensures
        i <= label_end(name, i) <= name.len(),
        label_end(name, i) < name.len() ==> name[label_end(name, i)] == DOT,
        forall|k: int| i <= k < label_end(name, i) ==> name[k] != DOT,
    decreases name.len() - i,
{
    if i < name.len() && name[i] != DOT {
        lemma_label_end_bounds(name, i + 1);
    }
}

/// The labels of a dotted name.
pub open spec fn split_labels(name: Seq<u8>) -> Seq<Seq<u8>> {
    labels_from(name, 0)
}

/// Each label with its length in front.
pub open spec fn encode_labels(labels: Seq<Seq<u8>>) -> Seq<u8>
    decreases labels.len(),
{
    if labels.len() == 0 {
        Seq::empty()
    } else {
        seq![labels[0].len() as u8] + labels[0] + encode_labels(labels.drop_first())
    }
}

/// No label is longer than the wire format allows.
pub open spec fn labels_fit(labels: Seq<Seq<u8>>) -> bool {
    forall|i: int| 0 <= i < labels.len() ==> (#[trigger] labels[i]).len() <= MAX_LABEL_LEN
}

/// The wire form of a dotted name: its labels, each with its length in
/// front, and a zero byte at the end. No pointer is written.
pub open spec fn name_wire(name: Seq<u8>) -> Seq<u8> {
    encode_labels(split_labels(name)) + seq![0u8]
}

/// A name that reads back as it was written: every label has between 1 and
/// 63 bytes.
pub open spec fn name_is_plain(name: Seq<u8>) -> bool {
    forall|i: int|
        0 <= i < split_labels(name).len() ==> 1 <= (#[trigger] split_labels(name)[i]).len()
            <= MAX_LABEL_LEN
}

/// The wire form of a name has two bytes more than the name: the dots
/// become lengths, and a length and a zero byte are added.
pub proof fn lemma_encode_labels_len(name: Seq<u8>, i: int)
    requires
        0 <= i <= name.len(),
    ensures
        encode_labels(labels_from(name, i)).len() == name.len() - i + 1,
    decreases name.len() - i,
{
    lemma_label_end_bounds(name, i);
    let j = label_end(name, i);
    let labels = labels_from(name, i);
    if j >= name.len() {
        assert(labels.drop_first() =~= Seq::<Seq<u8>>::empty());
        assert(encode_labels(labels.drop_first()).len() == 0);
    } else {
        assert(labels.drop_first() =~= labels_from(name, j + 1));
        lemma_encode_labels_len(name, j + 1);
    }
}

/// A length byte of a label is no pointer.
pub proof fn lemma_label_length_is_no_pointer(b: u8)
    requires
        b <= MAX_LABEL_LEN,
    ensures
        !is_pointer(b),
{
    assert(b <= 63 ==> b & 0xC0 != 0xC0) by (bit_vector);
}

/// Labels of 1 to 63 bytes that stand in a buffer in wire form, with a zero
/// byte behind them, are read back as they are.
pub proof fn lemma_labels_read_back(buf: Seq<u8>, pos: int, labels: Seq<Seq<u8>>, jumps: int)
    requires
        forall|i: int| 0 <= i < labels.len() ==> 1 <= (#[trigger] labels[i]).len() <= MAX_LABEL_LEN,
        0 <= pos,
        pos + encode_labels(labels).len() + 1 <= buf.len(),
        buf.subrange(pos, pos + encode_labels(labels).len() + 1) == encode_labels(labels)
            + seq![0u8],
    ensures
        name_labels(buf, pos, jumps) == Ok::<Seq<Seq<u8>>, PacketError>(labels),
        name_end(buf, pos) == pos + encode_labels(labels).len() + 1,
    decreases labels.len(),
{
    let wire = encode_labels(labels) + seq![0u8];
    assert(buf[pos] == wire[0]) by {
        assert(buf.subrange(pos, pos + wire.len())[0] == buf[pos]);
    }
    if labels.len() == 0 {
        assert(name_labels(buf, pos, jumps) == Ok::<Seq<Seq<u8>>, PacketError>(Seq::empty()));
        assert(labels =~= Seq::<Seq<u8>>::empty());
    } else {
        let label = labels[0];
        let tail = labels.drop_first();
        let n = label.len() as int;
        assert(encode_labels(labels) == seq![n as u8] + label + encode_labels(tail));
        assert(buf[pos] == n as u8);
        lemma_label_length_is_no_pointer(n as u8);
        assert(buf.subrange(pos + 1, pos + 1 + n) =~= label) by {
            assert forall|k: int| 0 <= k < n implies buf[pos + 1 + k] == label[k] by {
                assert(buf.subrange(pos, pos + wire.len())[1 + k] == buf[pos + 1 + k]);
            }
        }
        assert(buf.subrange(pos + 1 + n, pos + 1 + n + encode_labels(tail).len() + 1)
            =~= encode_labels(tail) + seq![0u8]) by {
            assert forall|k: int| 0 <= k < encode_labels(tail).len() + 1 implies buf[pos + 1 + n
                + k] == (encode_labels(tail) + seq![0u8])[k] by {
                assert(buf.subrange(pos, pos + wire.len())[1 + n + k] == buf[pos + 1 + n + k]);
            }
        }
        assert forall|i: int| 0 <= i < tail.len() implies 1 <= (#[trigger] tail[i]).len()
            <= MAX_LABEL_LEN by {
            assert(tail[i] == labels[i + 1]);
        }
        lemma_labels_read_back(buf, pos + 1 + n, tail, jumps);
        assert(seq![label] + tail =~= labels);
    }
}

/// A name of more than one label is its first label, a dot, and the rest.
pub proof fn lemma_dotted_first(label: Seq<u8>, rest: Seq<Seq<u8>>)
    requires
        rest.len() > 0,
    ensures
        dotted(seq![label] + rest) == label_chars(label) + seq!['.'] + dotted(rest),
    decreases rest.len(),
{
    let all = seq![label] + rest;
    if rest.len() == 1 {
        assert(all.drop_last() =~= seq![label]);
        assert(dotted(all.drop_last()) == label_chars(label));
        assert(all.last() == rest[0]);
    } else {
        assert(all.drop_last() =~= seq![label] + rest.drop_last());
        lemma_dotted_first(label, rest.drop_last());
        assert(all.last() == rest.last());
        assert(label_chars(label) + seq!['.'] + dotted(rest.drop_last()) + seq!['.']
            + label_chars(rest.last()) =~= label_chars(label) + seq!['.'] + (dotted(
            rest.drop_last(),
        ) + seq!['.'] + label_chars(rest.last())));
    }
}

/// Splitting a name at its dots and joining the labels with dots gives the name.
pub proof fn lemma_dotted_labels_from(name: Seq<u8>, i: int)
    requires
        0 <= i <= name.len(),
    ensures
        dotted(labels_from(name, i)) == label_chars(name.subrange(i, name.len() as int)),
    decreases name.len() - i,
{
    lemma_label_end_bounds(name, i);
    let j = label_end(name, i);
    if j >= name.len() {
    } else {
        let tail = labels_from(name, j + 1);
        lemma_dotted_labels_from(name, j + 1);
        lemma_labels_from_nonempty(name, j + 1);
        lemma_dotted_first(name.subrange(i, j), tail);
        assert(label_chars(name.subrange(i, j)) + seq!['.'] + label_chars(
            name.subrange(j + 1, name.len() as int),
        ) =~= label_chars(name.subrange(i, name.len() as int)));
    }
}

/// Every name has at least one label.
pub proof fn lemma_labels_from_nonempty(name: Seq<u8>, i: int)
    requires
        0 <= i <= name.len(),
    ensures
        labels_from(name, i).len() > 0,
{
}

/// The bytes of an ASCII string stand for its characters one by one.
pub proof fn lemma_ascii_chars_of_bytes(s: Seq<char>)
    requires
        is_ascii_chars(s),
    ensures
        label_chars(encode_utf8(s)) == s,
        encode_utf8(s).len() == s.len(),
{
    is_ascii_chars_encode_utf8(s);
    assert(label_chars(encode_utf8(s)) =~= s);
}

/// A name in ASCII whose labels all have between 1 and 63 bytes, written
/// into a buffer, is read back as it was, and the cursor ends behind it.
pub proof fn lemma_name_roundtrip(buf: Seq<u8>, pos: int, name: Seq<char>, jumps: int)
    requires
        is_ascii_chars(name),
        name_is_plain(encode_utf8(name)),
        0 <= pos,
        pos + name.len() + 2 <= buf.len(),
        buf.subrange(pos, pos + name.len() + 2) == name_wire(encode_utf8(name)),
    ensures
        name_labels(buf, pos, jumps) == Ok::<Seq<Seq<u8>>, PacketError>(
            split_labels(encode_utf8(name)),
        ),
        dotted(split_labels(encode_utf8(name))) == name,
        name_end(buf, pos) == pos + name.len() + 2,
{
    let bytes = encode_utf8(name);
    lemma_ascii_chars_of_bytes(name);
    lemma_encode_labels_len(bytes, 0);
    lemma_labels_read_back(buf, pos, split_labels(bytes), jumps);
    lemma_dotted_labels_from(bytes, 0);
    assert(bytes.subrange(0, bytes.len() as int) =~= bytes);
}

/// The wire form of a dotted name.
pub fn encode_qname(domain: &str) -> (r: Result<Vec<u8>, PacketError>)
    ensures
        labels_fit(split_labels(encode_utf8(domain@))) ==> r is Ok && r->Ok_0@ == name_wire(
            encode_utf8(domain@),
        ) && r->Ok_0@.len() == encode_utf8(domain@).len() + 2,
        !labels_fit(split_labels(encode_utf8(domain@))) ==> r == Err::<Vec<u8>, PacketError>(
            PacketError::LabelTooLong,
        ),
{
    let bytes = domain.as_bytes();
    let n = bytes.len();
    let ghost name = bytes@;
    let mut out: Vec<u8> = Vec::new();
    let mut i: usize = 0;
    proof {
        lemma_encode_labels_len(name, 0);
    }
    loop
        invariant_except_break
            i <= n,
            encode_labels(split_labels(name)) == out@ + encode_labels(labels_from(name, i as int)),
            labels_fit(split_labels(name)) <==> labels_fit(labels_from(name, i as int)),
        invariant
            n == name.len(),
            name == bytes@,
            name == encode_utf8(domain@),
        ensures
            out@ == encode_labels(split_labels(name)),
            labels_fit(split_labels(name)),
        decreases n - i,
    {
        let mut j: usize = i;
        while j < n && bytes[j] != DOT
            invariant
                i <= j <= n,
                n == name.len(),
                name == bytes@,
                label_end(name, i as int) == label_end(name, j as int),
            decreases n - j,
        {
            j += 1;
        }
        proof {
            lemma_label_end_bounds(name, i as int);
        }
        let ghost rest = labels_from(name, i as int);
        let ghost label = name.subrange(i as int, j as int);
        assert(rest[0] == label);
        if j - i > MAX_LABEL_LEN {
            return Err(PacketError::LabelTooLong);
        }
        let ghost before = out@;
        out.push((j - i) as u8);
        let mut k: usize = i;
        while k < j
            invariant
                i <= k <= j <= n,
                j - i <= MAX_LABEL_LEN,
                n == name.len(),
                name == bytes@,
                out@ == before + seq![(j - i) as u8] + name.subrange(i as int, k as int),
            decreases j - k,
        {
            out.push(bytes[k]);
            k += 1;
        }
        if j >= n {
            proof {
                assert(rest.drop_first() =~= Seq::<Seq<u8>>::empty());
                assert(encode_labels(rest.drop_first()) =~= Seq::<u8>::empty());
                assert(encode_labels(rest) =~= seq![label.len() as u8] + label);
                assert(labels_fit(rest));
            }
            break ;
        }
        proof {
            let tail = labels_from(name, j + 1);
            assert(rest.drop_first() =~= tail);
            assert(encode_labels(rest) =~= seq![label.len() as u8] + label + encode_labels(tail));
            assert(labels_fit(rest) <==> labels_fit(tail)) by {
                if labels_fit(tail) {
                    assert forall|x: int| 0 <= x < rest.len() implies (#[trigger] rest[x]).len()
                        <= MAX_LABEL_LEN by {
                        if x > 0 {
                            assert(rest[x] == tail[x - 1]);
                        }
                    }
                }
                if labels_fit(rest) {
                    assert forall|x: int| 0 <= x < tail.len() implies (#[trigger] tail[x]).len()
                        <= MAX_LABEL_LEN by {
                        assert(tail[x] == rest[x + 1]);
                    }
                }
            }
        }
        i = j + 1;
    }
    out.push(0);
    Ok(out)
}

} // verus!
