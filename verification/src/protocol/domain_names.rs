use vstd::prelude::*;
use vstd::string::StringExecFns;
use vstd::utf8::encode_utf8;

use crate::errors::PacketError;
use crate::parsing::deserialize::{
    bits_value, bytes_left, has_bits, lemma_bits_value_bound, lemma_bits_value_left,
    lemma_bytes_left_twice, lemma_octets_left, octets_at, readable, take_8bits, take_n_bits,
    take_vec_of_n_bytes, BitInput,
};
use crate::parsing::serialize::{
    bits_append, bits_of, bytes_bits, lemma_low_bits_len, max_bits, number_bits, serialize_byte,
    serialize_n_bits, BitString, Serialize,
};
use crate::protocol::name_codec::label_chars;

verus! {

/// One part of a sequence of names in wire form.
#[derive(Clone, Debug)]
pub enum DomainParts {
    /// A compression pointer to the part at byte offset `pos`.
    Pointer { pos: u16 },
    /// A label with its length byte.
    Label { len: u8, string: String },
    /// The zero byte that ends a name.
    End,
}

/// What a part holds.
pub enum PartView {
    Pointer { pos: u16 },
    Label { len: u8, string: Seq<char> },
    End,
}

impl View for DomainParts {
    type V = PartView;

    open spec fn view(&self) -> PartView {
        match self {
            DomainParts::Pointer { pos } => PartView::Pointer { pos: *pos },
            DomainParts::Label { len, string } => PartView::Label { len: *len, string: string@ },
            DomainParts::End => PartView::End,
        }
    }
}

impl PartView {
    /// Number of bytes of the part on the wire.
    pub open spec fn size(self) -> int {
        match self {
            PartView::Pointer { .. } => 2,
            PartView::Label { len, .. } => len + 1,
            PartView::End => 1,
        }
    }
}

impl DomainParts {
    /// Number of bytes of the part on the wire: 2 for a pointer, the length
    /// byte and the bytes it announces for a label, 1 for the end of a name.
    pub fn get_size(&self) -> (r: u16)
        ensures
            r == self@.size(),
            1 <= r <= 256,
    {
        match self {
            DomainParts::Pointer { .. } => 2,
            DomainParts::Label { len, .. } => *len as u16 + 1,
            DomainParts::End => 1,
        }
    }

    /// A copy of the part.
    pub fn duplicate(&self) -> (r: DomainParts)
        ensures
            r@ == self@,
    {
        match self {
            DomainParts::Pointer { pos } => DomainParts::Pointer { pos: *pos },
            DomainParts::Label { len, string } => DomainParts::Label {
                len: *len,
                string: string.clone(),
            },
            DomainParts::End => DomainParts::End,
        }
    }
}

/// What a list of parts holds.
pub open spec fn parts_view(parts: Seq<DomainParts>) -> Seq<PartView> {
    Seq::new(parts.len(), |i: int| parts[i]@)
}

/// The byte offset at which the part of index `i` starts, counted from the
/// start of the first part.
pub open spec fn offset_of(parts: Seq<PartView>, i: int) -> int
    decreases i,
{
    if i <= 0 || i > parts.len() {
        0
    } else {
        offset_of(parts, i - 1) + parts[i - 1].size()
    }
}

/// Number of bytes of all the parts on the wire.
pub open spec fn total_size(parts: Seq<PartView>) -> int {
    offset_of(parts, parts.len() as int)
}

/// The index of the first part from `i` on that starts at or behind the
/// byte offset `pos`; the number of parts where there is none.
pub open spec fn part_at_or_after(parts: Seq<PartView>, pos: int, i: int) -> int
    decreases parts.len() - i,
{
    if i < 0 || i >= parts.len() {
        parts.len() as int
    } else if offset_of(parts, i) >= pos {
        i
    } else {
        part_at_or_after(parts, pos, i + 1)
    }
}

/// The name that starts with the part of index `i`, in dotted form: its
/// labels up to the end of the name, or up to a pointer and on from the
/// part that the pointer names. At most `fuel` pointers are followed; what
/// would come behind one more is left out, so that parts whose pointers go
/// round in a circle still have a name. Where the parts run out before the
/// name ends, the name ends in a dot.
pub open spec fn resolve_at(parts: Seq<PartView>, i: int, fuel: nat) -> Seq<char>
    decreases fuel, parts.len() - i,
{
    if i < 0 || i >= parts.len() {
        Seq::empty()
    } else {
        match parts[i] {
            PartView::End => Seq::empty(),
            PartView::Pointer { pos } => if fuel == 0 {
                Seq::empty()
            } else {
                resolve_at(parts, part_at_or_after(parts, pos as int, 0), (fuel - 1) as nat)
            },
            PartView::Label { string, .. } => if i + 1 < parts.len() && parts[i + 1] is End {
                string
            } else {
                string + seq!['.'] + resolve_at(parts, i + 1, fuel)
            },
        }
    }
}

/// The names that end at or behind the part of index `i`, each with the
/// byte offset at which it starts; `start` is the index of the first part
/// of the name that the part of index `i` belongs to. Labels behind the
/// last end of a name belong to no name.
pub open spec fn domains_from(parts: Seq<PartView>, i: int, start: int) -> Seq<(Seq<char>, u16)>
    decreases parts.len() - i,
{
    if i < 0 || i >= parts.len() {
        Seq::empty()
    } else if parts[i] is Label {
        domains_from(parts, i + 1, start)
    } else {
        seq![(resolve_at(parts, start, parts.len()), offset_of(parts, start) as u16)]
            + domains_from(parts, i + 1, i + 1)
    }
}

/// The names that the parts hold, each with the byte offset at which it starts.
pub open spec fn domains_of(parts: Seq<PartView>) -> Seq<(Seq<char>, u16)> {
    domains_from(parts, 0, 0)
}

/// What a list of names with their offsets holds.
pub open spec fn domains_view(domains: Seq<(String, u16)>) -> Seq<(Seq<char>, u16)> {
    Seq::new(domains.len(), |i: int| (domains[i].0@, domains[i].1))
}

/// Offsets grow with the index, by at least one byte for each part.
pub proof fn lemma_offsets_grow(parts: Seq<PartView>, i: int, j: int)
    requires
        0 <= i <= j <= parts.len(),
    ensures
        offset_of(parts, i) + (j - i) <= offset_of(parts, j),
        0 <= offset_of(parts, i),
    decreases j,
{
    if i < j {
        lemma_offsets_grow(parts, i, j - 1);
    } else if i > 0 {
        lemma_offsets_grow(parts, i - 1, i - 1);
    }
}

/// The part that starts at the offset of the part of index `i` is that part.
pub proof fn lemma_part_at_own_offset(parts: Seq<PartView>, i: int, from: int)
    requires
        0 <= from <= i < parts.len(),
    ensures
        part_at_or_after(parts, offset_of(parts, i), from) == i,
    decreases i - from,
{
    if from < i {
        lemma_offsets_grow(parts, from, i - 1);
        lemma_part_at_own_offset(parts, i, from + 1);
    }
}

/// The part that starts at the bit of index `at`, and the number of its
/// bits, or the reason why there is none. A byte of zero ends a name; two
/// set bits start a pointer of 14 bits; two clear bits start the length of
/// a label, which its bytes follow.
#[verifier::opaque]
pub open spec fn part_at_bits(bytes: Seq<u8>, at: int) -> Result<(PartView, int), PacketError> {
    if !has_bits(bytes.len() as int, at, 8) {
        Err(PacketError::BufferUnderrun)
    } else if bits_value(bytes, at, 8) == 0 {
        Ok((PartView::End, 8))
    } else if bits_value(bytes, at, 2) == 3 {
        if !has_bits(bytes.len() as int, at, 16) {
            Err(PacketError::BufferUnderrun)
        } else {
            Ok((PartView::Pointer { pos: bits_value(bytes, at + 2, 14) as u16 }, 16))
        }
    } else if bits_value(bytes, at, 2) != 0 {
        Err(PacketError::LabelTooLong)
    } else if !has_bits(bytes.len() as int, at, 8 + 8 * (bits_value(bytes, at, 8) as int)) {
        Err(PacketError::BufferUnderrun)
    } else {
        Ok(
            (
                PartView::Label {
                    len: bits_value(bytes, at, 8) as u8,
                    string: label_chars(octets_at(bytes, at + 8, bits_value(bytes, at, 8))),
                },
                8 + 8 * (bits_value(bytes, at, 8) as int),
            ),
        )
    }
}

/// The parts from the bit of index `at` on up to the end of the `count`-th
/// name, and the index of the bit behind them, or the reason why they
/// cannot be read. A name ends with an end part or with a pointer. A
/// pointer has to name a byte offset before its own, counted from the bit
/// of index `start`.
pub open spec fn parts_at_bits(bytes: Seq<u8>, at: int, count: nat, start: int) -> Result<
    (Seq<PartView>, int),
    PacketError,
>
    decreases 8 * bytes.len() - at,
{
    if count == 0 {
        Ok((Seq::empty(), at))
    } else {
        match part_at_bits(bytes, at) {
            Err(e) => Err(e),
            Ok((part, bits)) => if at < 0 {
                Err(PacketError::BufferUnderrun)
            } else if part is Pointer && 8 * part->pos >= at - start {
                Err(PacketError::PointerCycle)
            } else {
                proof {
                    lemma_part_size(bytes, at);
                }
                match parts_at_bits(
                    bytes,
                    at + bits,
                    if part is Label {
                        count
                    } else {
                        (count - 1) as nat
                    },
                    start,
                ) {
                    Err(e) => Err(e),
                    Ok((parts, end)) => Ok((seq![part] + parts, end)),
                }
            },
        }
    }
}

/// `rest` with the parts `done` put in front.
pub open spec fn parts_prepend(
    done: Seq<PartView>,
    rest: Result<(Seq<PartView>, int), PacketError>,
) -> Result<(Seq<PartView>, int), PacketError> {
    match rest {
        Ok((parts, end)) => Ok((done + parts, end)),
        Err(e) => Err(e),
    }
}

/// A part has 8 bits for each of its bytes and lies within the bytes.
pub proof fn lemma_part_size(bytes: Seq<u8>, at: int)
    requires
        0 <= at,
        part_at_bits(bytes, at) is Ok,
    ensures
        part_at_bits(bytes, at)->Ok_0.1 == 8 * part_at_bits(bytes, at)->Ok_0.0.size(),
        at + part_at_bits(bytes, at)->Ok_0.1 <= 8 * bytes.len(),
{
    reveal(part_at_bits);
    lemma_bits_value_bound(bytes, at, 8);
    vstd::arithmetic::power2::lemma2_to64();
}

/// The parts of `count` names are the first part and the parts behind it.
pub proof fn lemma_parts_step(bytes: Seq<u8>, at: int, count: nat, start: int)
    requires
        count > 0,
        0 <= at,
    ensures
        parts_at_bits(bytes, at, count, start) == match part_at_bits(bytes, at) {
            Err(e) => Err(e),
            Ok((part, bits)) => if part is Pointer && 8 * part->pos >= at - start {
                Err(PacketError::PointerCycle)
            } else {
                parts_prepend(
                    seq![part],
                    parts_at_bits(
                        bytes,
                        at + bits,
                        if part is Label {
                            count
                        } else {
                            (count - 1) as nat
                        },
                        start,
                    ),
                )
            },
        },
{
    if part_at_bits(bytes, at) is Ok {
        lemma_part_size(bytes, at);
    }
}

/// Putting a part behind the parts in front is putting it before the parts behind.
pub proof fn lemma_parts_prepend_push(
    done: Seq<PartView>,
    part: PartView,
    tail: Result<(Seq<PartView>, int), PacketError>,
)
    ensures
        parts_prepend(done, parts_prepend(seq![part], tail)) == parts_prepend(
            done.push(part),
            tail,
        ),
{
    if let Ok((p, e)) = tail {
        assert(done + (seq![part] + p) =~= done.push(part) + p);
    }
}

/// The part at a bit of what is left of some bytes is the part at that bit
/// of the bytes.
pub proof fn lemma_part_left(bytes: Seq<u8>, at: int)
    requires
        0 <= at <= 8 * bytes.len(),
    ensures
        part_at_bits(bytes_left(bytes, at), at % 8) == part_at_bits(bytes, at),
{
    reveal(part_at_bits);
    let left = bytes_left(bytes, at);
    let off = at % 8;
    let base = at / 8 * 8;
    assert(base + off == at);
    if at + 8 <= 8 * bytes.len() {
        assert(left.len() == bytes.len() - at / 8);
        lemma_bits_value_left(bytes, at, off, 8);
        lemma_bits_value_left(bytes, at, off, 2);
        let n = bits_value(bytes, at, 8);
        if at + 16 <= 8 * bytes.len() {
            lemma_bits_value_left(bytes, at, off + 2, 14);
        }
        if at + 8 + 8 * n <= 8 * bytes.len() {
            lemma_octets_left(bytes, at, off + 8, n);
        }
    } else {
        assert(left.len() == bytes.len() - at / 8);
    }
}

/// The bits of a part: two set bits and the 14 low bits of the offset for a
/// pointer, the length byte and the bytes of the string for a label, a
/// byte of zero for the end of a name.
pub open spec fn part_bits(part: PartView) -> Seq<bool> {
    match part {
        PartView::Pointer { pos } => number_bits(3, 2) + number_bits(pos as nat, 14),
        PartView::Label { len, string } => number_bits(len as nat, 8) + bytes_bits(
            encode_utf8(string),
        ),
        PartView::End => number_bits(0, 8),
    }
}

/// The bits of the parts, part after part.
pub open spec fn parts_bits(parts: Seq<PartView>) -> Seq<bool>
    decreases parts.len(),
{
    if parts.len() == 0 {
        Seq::empty()
    } else {
        parts_bits(parts.drop_last()) + part_bits(parts.last())
    }
}

/// The first parts have no more bits than all the parts.
pub proof fn lemma_parts_bits_grow(parts: Seq<PartView>, i: int)
    requires
        0 <= i <= parts.len(),
    ensures
        parts_bits(parts.subrange(0, i)).len() <= parts_bits(parts).len(),
    decreases parts.len() - i,
{
    if i < parts.len() {
        lemma_parts_bits_grow(parts, i + 1);
        assert(parts.subrange(0, i + 1).drop_last() =~= parts.subrange(0, i));
    } else {
        assert(parts.subrange(0, i) =~= parts);
    }
}

/// The first bytes have no more bits than all the bytes.
pub proof fn lemma_bytes_bits_grow(bytes: Seq<u8>, i: int)
    requires
        0 <= i <= bytes.len(),
    ensures
        bytes_bits(bytes.subrange(0, i)).len() <= bytes_bits(bytes).len(),
    decreases bytes.len() - i,
{
    if i < bytes.len() {
        lemma_bytes_bits_grow(bytes, i + 1);
        assert(bytes.subrange(0, i + 1).drop_last() =~= bytes.subrange(0, i));
    } else {
        assert(bytes.subrange(0, i) =~= bytes);
    }
}

/// A sequence of names in wire form, part by part.
#[derive(Debug, Clone)]
pub struct DomainNames {
    labels_array: Vec<DomainParts>,
}

impl View for DomainNames {
    type V = Seq<PartView>;

    closed spec fn view(&self) -> Seq<PartView> {
        parts_view(self.labels_array@)
    }
}

impl DomainNames {
    /// The names that these parts are.
    pub fn new_from_vec(labels_array: Vec<DomainParts>) -> (r: DomainNames)
        ensures
            r@ == parts_view(labels_array@),
    {
        DomainNames { labels_array }
    }

    /// A copy of the parts.
    pub fn get_labels(&self) -> (r: Vec<DomainParts>)
        ensures
            parts_view(r@) == self@,
    {
        let mut labels: Vec<DomainParts> = Vec::new();
        let mut i: usize = 0;
        while i < self.labels_array.len()
            invariant
                i <= self.labels_array.len(),
                parts_view(labels@) == self@.subrange(0, i as int),
            decreases self.labels_array.len() - i,
        {
            let ghost before = parts_view(labels@);
            labels.push(self.labels_array[i].duplicate());
            proof {
                assert(parts_view(labels@) =~= before.push(self@[i as int]));
                assert(self@.subrange(0, i + 1) =~= self@.subrange(0, i as int).push(
                    self@[i as int],
                ));
            }
            i += 1;
        }
        proof {
            assert(self@.subrange(0, self@.len() as int) =~= self@);
        }
        labels
    }

    /// Number of bytes of all the parts on the wire.
    pub fn get_total_len(&self) -> (r: usize)
        requires
            total_size(self@) <= usize::MAX,
        ensures
            r == total_size(self@),
    {
        let mut total_len: usize = 0;
        let mut i: usize = 0;
        while i < self.labels_array.len()
            invariant
                i <= self.labels_array.len(),
                total_len == offset_of(self@, i as int),
                total_size(self@) <= usize::MAX,
            decreases self.labels_array.len() - i,
        {
            proof {
                lemma_offsets_grow(self@, i + 1, self@.len() as int);
            }
            total_len += self.labels_array[i].get_size() as usize;
            i += 1;
        }
        total_len
    }

    /// The byte offset at which the part of index `index` starts; the
    /// number of bytes of all the parts for an index behind the last part.
    pub fn get_pos_from_index(&self, index: usize) -> (r: u16)
        requires
            total_size(self@) <= u16::MAX,
        ensures
            index <= self@.len() ==> r == offset_of(self@, index as int),
            index > self@.len() ==> r == total_size(self@),
    {
        let mut reading_pos: u16 = 0;
        let mut i: usize = 0;
        while i < self.labels_array.len()
            invariant
                i <= self.labels_array.len(),
                i <= index,
                reading_pos == offset_of(self@, i as int),
                total_size(self@) <= u16::MAX,
            decreases self.labels_array.len() - i,
        {
            if i == index {
                return reading_pos;
            }
            proof {
                lemma_offsets_grow(self@, i + 1, self@.len() as int);
            }
            reading_pos += self.labels_array[i].get_size();
            i += 1;
        }
        reading_pos
    }

    /// The parts from the first one on that starts at or behind the byte
    /// offset `pos`; no part where there is none.
    pub fn get_from_pos(&self, pos: u16) -> (r: &[DomainParts])
        requires
            total_size(self@) <= u16::MAX,
        ensures
            parts_view(r@) == self@.subrange(
                part_at_or_after(self@, pos as int, 0),
                self@.len() as int,
            ),
    {
        let i = self.index_from_pos(pos);
        let r = vstd::slice::slice_subrange(
            self.labels_array.as_slice(),
            i,
            self.labels_array.len(),
        );
        proof {
            assert(parts_view(r@) =~= self@.subrange(i as int, self@.len() as int));
        }
        r
    }

    /// The index of the first part that starts at or behind the byte offset
    /// `pos`; the number of parts where there is none.
    fn index_from_pos(&self, pos: u16) -> (r: usize)
        requires
            total_size(self@) <= u16::MAX,
        ensures
            r == part_at_or_after(self@, pos as int, 0),
            r <= self@.len(),
    {
        let mut reading_pos: u16 = 0;
        let mut i: usize = 0;
        while i < self.labels_array.len()
            invariant
                i <= self.labels_array.len(),
                reading_pos == offset_of(self@, i as int),
                total_size(self@) <= u16::MAX,
                part_at_or_after(self@, pos as int, 0) == part_at_or_after(
                    self@,
                    pos as int,
                    i as int,
                ),
            decreases self.labels_array.len() - i,
        {
            if pos > reading_pos {
                proof {
                    lemma_offsets_grow(self@, i + 1, self@.len() as int);
                }
                reading_pos += self.labels_array[i].get_size();
            } else {
                return i;
            }
            i += 1;
        }
        i
    }

    /// The name that starts with the part of index `index`, with at most
    /// `fuel` pointers followed.
    fn resolve(&self, index: usize, fuel: usize) -> (r: String)
        requires
            total_size(self@) <= u16::MAX,
        ensures
            r@ == resolve_at(self@, index as int, fuel as nat),
        decreases fuel,
    {
        let mut domain = String::new();
        let mut i: usize = index;
        while i < self.labels_array.len()
            invariant
                index <= i,
                total_size(self@) <= u16::MAX,
                resolve_at(self@, index as int, fuel as nat) == domain@ + resolve_at(
                    self@,
                    i as int,
                    fuel as nat,
                ),
            decreases self.labels_array.len() - i,
        {
            let ghost before = domain@;
            match &self.labels_array[i] {
                DomainParts::Pointer { pos } => {
                    if fuel > 0 {
                        let target = self.index_from_pos(*pos);
                        let rest = self.resolve(target, fuel - 1);
                        domain.append(rest.as_str());
                    }
                    proof {
                        assert(before + Seq::<char>::empty() =~= before);
                    }
                    return domain;
                },
                DomainParts::Label { len: _, string } => {
                    domain.append(string.as_str());
                    if i + 1 < self.labels_array.len() && self.labels_array[i + 1].is_end() {
                        return domain;
                    }
                    domain.append(".");
                    proof {
                        reveal_strlit(".");
                        assert("."@ =~= seq!['.']);
                        assert(before + (string@ + seq!['.'] + resolve_at(
                            self@,
                            i + 1,
                            fuel as nat,
                        )) =~= before + string@ + seq!['.'] + resolve_at(
                            self@,
                            i + 1,
                            fuel as nat,
                        ));
                    }
                },
                DomainParts::End => {
                    proof {
                        assert(before + Seq::<char>::empty() =~= before);
                    }
                    return domain;
                },
            }
            i += 1;
        }
        proof {
            assert(domain@ + Seq::<char>::empty() =~= domain@);
        }
        domain
    }

    /// The name that starts with the first part at or behind the byte
    /// offset `pos`, in dotted form. Pointers are followed, but no more of
    /// them than there are parts.
    pub fn get_domain_from_pos(&self, pos: u16) -> (r: String)
        requires
            total_size(self@) <= u16::MAX,
        ensures
            r@ == resolve_at(self@, part_at_or_after(self@, pos as int, 0), self@.len()),
    {
        let index = self.index_from_pos(pos);
        self.resolve(index, self.labels_array.len())
    }

    /// The names that the parts hold, in dotted form, each with the byte
    /// offset at which it starts. A name ends with an end part or with a
    /// pointer, which is followed.
    pub fn get_domains(&self) -> (r: Vec<(String, u16)>)
        requires
            total_size(self@) <= u16::MAX,
        ensures
            domains_view(r@) == domains_of(self@),
    {
        let mut domains: Vec<(String, u16)> = Vec::new();
        let mut start: usize = 0;
        let mut i: usize = 0;
        proof {
            assert(domains_view(domains@) =~= Seq::<(Seq<char>, u16)>::empty());
        }
        while i < self.labels_array.len()
            invariant
                start <= i <= self.labels_array.len(),
                total_size(self@) <= u16::MAX,
                domains_of(self@) == domains_view(domains@) + domains_from(
                    self@,
                    i as int,
                    start as int,
                ),
            decreases self.labels_array.len() - i,
        {
            let ghost before = domains_view(domains@);
            if !self.labels_array[i].is_label() {
                let start_pos = self.get_pos_from_index(start);
                let domain = self.resolve(start, self.labels_array.len());
                domains.push((domain, start_pos));
                proof {
                    let item = (
                        resolve_at(self@, start as int, self@.len()),
                        offset_of(self@, start as int) as u16,
                    );
                    assert(domains_view(domains@) =~= before.push(item));
                    assert(before + (seq![item] + domains_from(self@, i + 1, i + 1))
                        =~= before.push(item) + domains_from(self@, i + 1, i + 1));
                }
                start = i + 1;
            }
            i += 1;
        }
        proof {
            assert(domains_view(domains@) + Seq::<(Seq<char>, u16)>::empty() =~= domains_view(
                domains@,
            ));
        }
        domains
    }
}

impl DomainNames {
    /// Reads parts up to the end of the `num_of_domains`-th name. A name
    /// ends with an end part or with a pointer; a pointer has to name a byte
    /// offset before its own, counted from the start of the input.
    pub fn deserialize<'a>(input: BitInput<'a>, num_of_domains: u16) -> (r: Result<
        (BitInput<'a>, DomainNames),
        PacketError,
    >)
        requires
            readable(input),
        ensures
            match parts_at_bits(
                input.0@,
                input.1 as int,
                num_of_domains as nat,
                input.1 as int,
            ) {
                Ok((parts, end)) => r is Ok && r->Ok_0.1@ == parts && r->Ok_0.0.0@ == bytes_left(
                    input.0@,
                    end,
                ) && r->Ok_0.0.1 == input.1,
                Err(e) => r == Err::<(BitInput<'a>, DomainNames), PacketError>(e),
            },
    {
        let ghost bytes = input.0@;
        let ghost start = input.1 as int;
        let ghost at = start;
        let mut consumed: usize = 0;
        let mut domain_count: u16 = 0;
        let mut parts: Vec<DomainParts> = Vec::new();
        let mut rest = input;
        proof {
            assert(bytes_left(bytes, start) =~= bytes);
            assert(parts_view(parts@) =~= Seq::<PartView>::empty());
            let whole = parts_at_bits(bytes, start, num_of_domains as nat, start);
            assert(parts_prepend(Seq::empty(), whole) == whole) by {
                if let Ok((p, e)) = whole {
                    assert(Seq::<PartView>::empty() + p =~= p);
                }
            }
        }
        while domain_count < num_of_domains
            invariant
                domain_count <= num_of_domains,
                bytes == input.0@,
                start == input.1,
                0 <= start < 8,
                bytes.len() * 8 <= usize::MAX,
                at == start + 8 * consumed,
                at <= 8 * bytes.len() || (at <= start && bytes.len() == 0),
                rest.0@ == bytes_left(bytes, at),
                rest.1 == start,
                readable(rest),
                parts_at_bits(bytes, start, num_of_domains as nat, start) == parts_prepend(
                    parts_view(parts@),
                    parts_at_bits(bytes, at, (num_of_domains - domain_count) as nat, start),
                ),
            decreases 8 * bytes.len() - at,
        {
            let ghost done = parts_view(parts@);
            let ghost left = (num_of_domains - domain_count) as nat;
            proof {
                lemma_parts_step(bytes, at, left, start);
                if at <= 8 * bytes.len() {
                    lemma_part_left(bytes, at);
                } else {
                    reveal(part_at_bits);
                }
            }
            let (next, part) = DomainParts::deserialize(rest)?;
            let ghost bits = part_at_bits(bytes, at)->Ok_0.1;
            proof {
                lemma_part_size(bytes, at);
                lemma_bytes_left_twice(bytes, at, bits);
            }
            if let DomainParts::Pointer { pos } = &part {
                if *pos as usize >= consumed {
                    return Err(PacketError::PointerCycle);
                }
            }
            let ends_name = !part.is_label();
            consumed = consumed + part.get_size() as usize;
            proof {
                at = at + bits;
                let tail = parts_at_bits(
                    bytes,
                    at,
                    if part@ is Label {
                        left
                    } else {
                        (left - 1) as nat
                    },
                    start,
                );
                lemma_parts_prepend_push(done, part@, tail);
            }
            parts.push(part);
            proof {
                assert(parts_view(parts@) =~= done.push(part@));
            }
            rest = next;
            if ends_name {
                domain_count += 1;
            }
        }
        proof {
            assert(parts_view(parts@) + Seq::<PartView>::empty() =~= parts_view(parts@));
        }
        Ok((rest, DomainNames::new_from_vec(parts)))
    }
}

impl Serialize for DomainNames {
    open spec fn wire_bits(&self) -> Seq<bool> {
        parts_bits(self@)
    }

    /// The parts as bits, part after part.
    fn serialize(&self) -> (r: BitString) {
        let mut vec = BitString::new();
        let mut i: usize = 0;
        proof {
            assert(self@.subrange(0, 0) =~= Seq::<PartView>::empty());
        }
        while i < self.labels_array.len()
            invariant
                i <= self.labels_array.len(),
                parts_bits(self@).len() <= max_bits(),
                bits_of(vec) == parts_bits(self@.subrange(0, i as int)),
            decreases self.labels_array.len() - i,
        {
            let ghost before = bits_of(vec);
            let ghost part = self@[i as int];
            proof {
                lemma_parts_bits_grow(self@, i + 1);
                assert(self@.subrange(0, i + 1).drop_last() =~= self@.subrange(0, i as int));
                assert(self@.subrange(0, i + 1).last() == part);
                lemma_low_bits_len(3, 2);
                lemma_low_bits_len(0, 8);
            }
            match &self.labels_array[i] {
                DomainParts::Pointer { pos } => {
                    proof {
                        lemma_low_bits_len(*pos as nat, 14);
                    }
                    let mut mark = serialize_n_bits(2, 0b11);
                    bits_append(&mut vec, &mut mark);
                    let mut offset = serialize_n_bits(14, *pos as u64);
                    bits_append(&mut vec, &mut offset);
                    proof {
                        assert(bits_of(vec) =~= before + part_bits(part));
                    }
                },
                DomainParts::Label { len, string } => {
                    proof {
                        lemma_low_bits_len(*len as nat, 8);
                    }
                    let mut length = serialize_byte(*len);
                    bits_append(&mut vec, &mut length);
                    let bytes = string.as_str().as_bytes();
                    let ghost all = bytes@;
                    let mut k: usize = 0;
                    proof {
                        assert(all.subrange(0, 0) =~= Seq::<u8>::empty());
                        assert(bits_of(vec) =~= before + number_bits(*len as nat, 8) + bytes_bits(
                            all.subrange(0, 0),
                        ));
                    }
                    while k < bytes.len()
                        invariant
                            k <= bytes.len(),
                            all == bytes@,
                            all == encode_utf8(string@),
                            part == (PartView::Label { len: *len, string: string@ }),
                            before.len() + part_bits(part).len() <= max_bits(),
                            bits_of(vec) == before + number_bits(*len as nat, 8) + bytes_bits(
                                all.subrange(0, k as int),
                            ),
                        decreases bytes.len() - k,
                    {
                        proof {
                            lemma_bytes_bits_grow(all, k + 1);
                            assert(all.subrange(0, k + 1).drop_last() =~= all.subrange(
                                0,
                                k as int,
                            ));
                            lemma_low_bits_len(all[k as int] as nat, 8);
                            lemma_low_bits_len(*len as nat, 8);
                        }
                        let mut byte = serialize_byte(bytes[k]);
                        bits_append(&mut vec, &mut byte);
                        proof {
                            assert(bits_of(vec) =~= before + number_bits(*len as nat, 8)
                                + bytes_bits(all.subrange(0, k + 1)));
                        }
                        k += 1;
                    }
                    proof {
                        assert(all.subrange(0, all.len() as int) =~= all);
                        assert(bits_of(vec) =~= before + part_bits(part));
                    }
                },
                DomainParts::End => {
                    let mut end = serialize_byte(0);
                    bits_append(&mut vec, &mut end);
                },
            }
            i += 1;
        }
        proof {
            assert(self@.subrange(0, self@.len() as int) =~= self@);
        }
        vec
    }
}

impl DomainParts {
    /// Reads one part: the end of a name, a pointer, or a label.
    pub fn deserialize<'a>(input: BitInput<'a>) -> (r: Result<
        (BitInput<'a>, DomainParts),
        PacketError,
    >)
        requires
            readable(input),
        ensures
            match part_at_bits(input.0@, input.1 as int) {
                Ok((part, bits)) => r is Ok && r->Ok_0.1@ == part && r->Ok_0.0.0@ == bytes_left(
                    input.0@,
                    input.1 + bits,
                ) && r->Ok_0.0.1 == input.1 && readable(r->Ok_0.0),
                Err(e) => r == Err::<(BitInput<'a>, DomainParts), PacketError>(e),
            },
    {
        let ghost bytes = input.0@;
        let ghost at = input.1 as int;
        proof {
            reveal(part_at_bits);
        }
        let (after_length, length) = take_8bits(input)?;
        if length == 0 {
            return Ok((after_length, DomainParts::End));
        }
        let (after_mark, mark) = take_n_bits(input, 2)?;
        if mark == 3 {
            proof {
                lemma_bits_value_bound(bytes, at + 2, 14);
                vstd::arithmetic::power2::lemma2_to64();
                lemma_bytes_left_twice(bytes, at + 2, 0);
                if at + 16 <= 8 * bytes.len() {
                    lemma_bits_value_left(bytes, at + 2, (at + 2) % 8, 14);
                    lemma_bytes_left_twice(bytes, at + 2, 14);
                }
            }
            let (rest, pos) = take_n_bits(after_mark, 14)?;
            return Ok((rest, DomainParts::Pointer { pos: pos as u16 }));
        }
        if mark != 0 {
            return Err(PacketError::LabelTooLong);
        }
        proof {
            lemma_bytes_left_twice(bytes, at + 8, 0);
            if at + 8 + 8 * length <= 8 * bytes.len() {
                lemma_octets_left(bytes, at + 8, (at + 8) % 8, length as nat);
                lemma_bytes_left_twice(bytes, at + 8, 8 * length);
            }
        }
        let (rest, octets) = take_vec_of_n_bytes(after_length, length as u16)?;
        let mut string = String::new();
        let mut k: usize = 0;
        while k < octets.len()
            invariant
                k <= octets.len(),
                string@ == label_chars(octets@.subrange(0, k as int)),
            decreases octets.len() - k,
        {
            string.push(octets[k] as char);
            proof {
                assert(label_chars(octets@.subrange(0, k + 1)) =~= label_chars(
                    octets@.subrange(0, k as int),
                ).push(octets@[k as int] as char));
            }
            k += 1;
        }
        proof {
            assert(octets@.subrange(0, octets.len() as int) =~= octets@);
        }
        Ok((rest, DomainParts::Label { len: length, string }))
    }

    /// Whether the part ends a name.
    pub fn is_end(&self) -> (r: bool)
        ensures
            r == (self@ is End),
    {
        match self {
            DomainParts::End => true,
            _ => false,
        }
    }

    /// Whether the part is a label.
    pub fn is_label(&self) -> (r: bool)
        ensures
            r == (self@ is Label),
    {
        match self {
            DomainParts::Label { .. } => true,
            _ => false,
        }
    }
}

} // verus!
