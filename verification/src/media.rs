//! Which contents of media files Symphonia can be handed: it takes some malformed ones for granted
//! and panics on them.

use vstd::prelude::*;

verus! {

/// The two bytes from a place on, as a number, the first byte counting most.
pub open spec fn be16(bytes: Seq<u8>, at: int) -> int {
    bytes[at] * 0x100 + bytes[at + 1]
}

/// The four bytes from a place on, as a number.
pub open spec fn be32(bytes: Seq<u8>, at: int) -> int {
    be16(bytes, at) * 0x1_0000 + be16(bytes, at + 2)
}

/// The eight bytes from a place on, as a number.
pub open spec fn be64(bytes: Seq<u8>, at: int) -> int {
    be32(bytes, at) * 0x1_0000_0000 + be32(bytes, at + 4)
}

fn read_byte(bytes: &Vec<u8>, at: u64) -> (value: u8)
    requires
        at < bytes@.len(),
    ensures
        value == bytes@[at as int],
{
    let length: usize = bytes.len();
    assert(at < length);
    bytes[at as usize]
}

fn read16(bytes: &Vec<u8>, at: u64) -> (value: u32)
    requires
        at + 2 <= bytes@.len(),
        bytes@.len() <= LONGEST,
    ensures
        value == be16(bytes@, at as int),
        value <= 0xffff,
{
    read_byte(bytes, at) as u32 * 0x100 + read_byte(bytes, at + 1) as u32
}

fn read32(bytes: &Vec<u8>, at: u64) -> (value: u32)
    requires
        at + 4 <= bytes@.len(),
        bytes@.len() <= LONGEST,
    ensures
        value == be32(bytes@, at as int),
{
    read16(bytes, at) * 0x1_0000 + read16(bytes, at + 2)
}

fn read64(bytes: &Vec<u8>, at: u64) -> (value: u64)
    requires
        at + 8 <= bytes@.len(),
        bytes@.len() <= LONGEST,
    ensures
        value == be64(bytes@, at as int),
{
    read32(bytes, at) as u64 * 0x1_0000_0000 + read32(bytes, at + 4) as u64
}

/// The longest contents that are looked at: 256 TiB.
pub const LONGEST: u64 = 0x1_0000_0000_0000;

/// `moov`, the atom that describes an MP4 file.
pub const MOOV: u32 = 0x6d6f_6f76;

/// `meta`, an atom around tags.
pub const META: u32 = 0x6d65_7461;

/// `sidx`, an index of segments.
pub const SIDX: u32 = 0x7369_6478;

/// `trak`, a track.
pub const TRAK: u32 = 0x7472_616b;

/// `udta`, what users add.
pub const UDTA: u32 = 0x7564_7461;

/// `mvex`, the fragments of a movie.
pub const MVEX: u32 = 0x6d76_6578;

/// `mdia`, the media of a track.
pub const MDIA: u32 = 0x6d64_6961;

/// `edts`, the edits of a track.
pub const EDTS: u32 = 0x6564_7473;

/// `mdhd`, the header of media.
pub const MDHD: u32 = 0x6d64_6864;

/// `hdlr`, the handler of media.
pub const HDLR: u32 = 0x6864_6c72;

/// `minf`, information on media.
pub const MINF: u32 = 0x6d69_6e66;

/// `stbl`, the tables of samples.
pub const STBL: u32 = 0x7374_626c;

/// `stsd`, the description of samples.
pub const STSD: u32 = 0x7374_7364;

/// `stts`, the durations of samples.
pub const STTS: u32 = 0x7374_7473;

/// `stsc`, the samples in chunks.
pub const STSC: u32 = 0x7374_7363;

/// `stsz`, the sizes of samples.
pub const STSZ: u32 = 0x7374_737a;

/// `stco`, the places of chunks.
pub const STCO: u32 = 0x7374_636f;

/// `co64`, the places of chunks in long files.
pub const CO64: u32 = 0x636f_3634;

/// `ilst`, a list of tags.
pub const ILST: u32 = 0x696c_7374;

/// `data`, the value of a tag.
pub const DATA: u32 = 0x6461_7461;

/// `mean`, the namespace of a tag.
pub const MEAN: u32 = 0x6d65_616e;

/// `name`, the name of a tag.
pub const NAME: u32 = 0x6e61_6d65;

/// `esds`, the description of a stream.
pub const ESDS: u32 = 0x6573_6473;

/// `wave`, the parameters of a decoder.
pub const WAVE: u32 = 0x7761_7665;

/// `lpcm`, uncompressed sound.
pub const LPCM: u32 = 0x6c70_636d;

/// The header of an atom: its kind, where its payload begins and how long that is, and how long the
/// atom is in all, nothing where it reaches to the end of what it stands in.
#[verifier::ext_equal]
pub struct HeaderView {
    pub kind: int,
    pub data: int,
    pub len: int,
    pub size: int,
}

/// The header at a place, where one lies there whole before `limit`. A length of one announces a
/// long length.
pub open spec fn header_at(bytes: Seq<u8>, at: int, limit: int) -> Option<HeaderView> {
    if at + 8 > limit {
        None
    } else {
        let length = be32(bytes, at);
        let kind = be32(bytes, at + 4);
        if length == 0 {
            Some(HeaderView { kind, data: at + 8, len: 0, size: 0 })
        } else if length == 1 {
            if at + 16 > limit || be64(bytes, at + 8) < 16 {
                None
            } else {
                Some(
                    HeaderView {
                        kind,
                        data: at + 16,
                        len: be64(bytes, at + 8) - 16,
                        size: be64(bytes, at + 8),
                    },
                )
            }
        } else if length < 8 {
            None
        } else {
            Some(HeaderView { kind, data: at + 8, len: length - 8, size: length })
        }
    }
}

/// An atom: its kind, where its payload begins and how long that is, and where the next atom
/// begins.
#[verifier::ext_equal]
pub struct AtomView {
    pub kind: int,
    pub data: int,
    pub len: int,
    pub next: int,
}

/// The atom at a place in something that ends at `to`, where it lies whole before `limit`.
pub open spec fn atom_at(bytes: Seq<u8>, at: int, to: int, limit: int) -> Option<AtomView> {
    match header_at(bytes, at, limit) {
        None => None,
        Some(header) => {
            let next = if header.size == 0 {
                to
            } else {
                at + header.size
            };
            if header.data <= next <= limit {
                Some(AtomView { kind: header.kind, data: header.data, len: header.len, next })
            } else {
                None
            }
        },
    }
}

#[derive(Clone, Copy)]
struct Header {
    kind: u32,
    data: u64,
    len: u64,
    size: u64,
}

impl Header {
    spec fn model(self) -> HeaderView {
        HeaderView {
            kind: self.kind as int,
            data: self.data as int,
            len: self.len as int,
            size: self.size as int,
        }
    }
}

#[derive(Clone, Copy)]
struct Atom {
    kind: u32,
    data: u64,
    len: u64,
    next: u64,
}

impl Atom {
    spec fn model(self) -> AtomView {
        AtomView {
            kind: self.kind as int,
            data: self.data as int,
            len: self.len as int,
            next: self.next as int,
        }
    }
}

fn read_header(bytes: &Vec<u8>, at: u64, limit: u64) -> (header: Option<Header>)
    requires
        at <= limit <= bytes@.len() <= LONGEST,
    ensures
        match header {
            Some(h) => header_at(bytes@, at as int, limit as int) == Some(h.model()) && at + 8
                <= h.data <= limit && (h.size == 0 ==> h.len == 0) && (h.size != 0 ==> at + h.size
                == h.data + h.len),
            None => header_at(bytes@, at as int, limit as int) is None,
        },
{
    if limit - at < 8 {
        return None;
    }
    let length: u64 = read32(bytes, at) as u64;
    let kind: u32 = read32(bytes, at + 4);
    if length == 0 {
        Some(Header { kind, data: at + 8, len: 0, size: 0 })
    } else if length == 1 {
        if limit - at < 16 {
            return None;
        }
        let long: u64 = read64(bytes, at + 8);
        if long < 16 {
            None
        } else {
            Some(Header { kind, data: at + 16, len: long - 16, size: long })
        }
    } else if length < 8 {
        None
    } else {
        Some(Header { kind, data: at + 8, len: length - 8, size: length })
    }
}

fn read_atom(bytes: &Vec<u8>, at: u64, to: u64, limit: u64) -> (atom: Option<Atom>)
    requires
        at <= limit <= bytes@.len() <= LONGEST,
        to <= limit,
    ensures
        match atom {
            Some(a) => atom_at(bytes@, at as int, to as int, limit as int) == Some(a.model()) && at
                + 8 <= a.data && a.data + a.len <= a.next <= limit,
            None => atom_at(bytes@, at as int, to as int, limit as int) is None,
        },
{
    match read_header(bytes, at, limit) {
        None => None,
        Some(header) => {
            if header.size > limit - at {
                return None;
            }
            let next: u64 = if header.size == 0 {
                to
            } else {
                at + header.size
            };
            if header.data <= next {
                Some(Atom { kind: header.kind, data: header.data, len: header.len, next })
            } else {
                None
            }
        },
    }
}

/// An MP4 file's durations are told without a sum out of bounds: the table of counts and durations
/// lies in the payload, and its products add up to a number of 64 bits.
pub open spec fn durations_fit(bytes: Seq<u8>, data: int, len: int) -> bool {
    &&& len >= 8
    &&& 8 * be32(bytes, data + 4) <= len - 8
    &&& total_duration(bytes, data + 8, be32(bytes, data + 4)) <= u64::MAX
}

/// The durations of the first `count` entries of a table, added up.
pub open spec fn total_duration(bytes: Seq<u8>, table: int, count: int) -> int
    decreases count,
{
    if count <= 0 {
        0
    } else {
        let entry = table + 8 * (count - 1);
        total_duration(bytes, table, count - 1) + be32(bytes, entry) * be32(bytes, entry + 4)
    }
}

proof fn lemma_total_duration_grows(bytes: Seq<u8>, table: int, few: int, many: int)
    requires
        few <= many,
        0 <= table,
        table + 8 * many <= bytes.len(),
    ensures
        0 <= total_duration(bytes, table, few) <= total_duration(bytes, table, many),
    decreases many,
{
    if many > 0 {
        let entry = table + 8 * (many - 1);
        assert(0 <= be32(bytes, entry) * be32(bytes, entry + 4)) by (nonlinear_arith)
            requires
                0 <= be32(bytes, entry),
                0 <= be32(bytes, entry + 4),
        ;
        if few < many {
            lemma_total_duration_grows(bytes, table, few, many - 1);
        } else {
            lemma_total_duration_grows(bytes, table, few - 1, many - 1);
        }
    }
}

fn test_durations(bytes: &Vec<u8>, data: u64, len: u64) -> (ok: bool)
    requires
        data + len <= bytes@.len() <= LONGEST,
    ensures
        ok == durations_fit(bytes@, data as int, len as int),
{
    if len < 8 {
        return false;
    }
    let count: u64 = read32(bytes, data + 4) as u64;
    if 8 * count > len - 8 {
        return false;
    }
    let table: u64 = data + 8;
    let mut total: u64 = 0;
    let mut i: u64 = 0;
    while i < count
        invariant
            i <= count <= u32::MAX,
            table + 8 * count <= bytes@.len() <= LONGEST,
            total == total_duration(bytes@, table as int, i as int),
            len >= 8,
            table == data + 8,
            count == be32(bytes@, data + 4),
        decreases count - i,
    {
        let samples: u32 = read32(bytes, table + 8 * i);
        let each: u32 = read32(bytes, table + 8 * i + 4);
        assert(samples * each <= 0xffff_ffff * 0xffff_ffff) by (nonlinear_arith)
            requires
                samples <= 0xffff_ffff,
                each <= 0xffff_ffff,
        ;
        proof {
            lemma_total_duration_grows(bytes@, table as int, i + 1, count as int);
        }
        match total.checked_add(samples as u64 * each as u64) {
            Some(sum) => {
                total = sum;
            },
            None => {
                return false;
            },
        }
        i = i + 1;
    }
    true
}

/// Where the first chunk of an entry of a table of chunks stands in the file.
pub open spec fn first_chunk(bytes: Seq<u8>, table: int, i: int) -> int {
    be32(bytes, table + 12 * i)
}

/// The samples before an entry of a table of chunks.
pub open spec fn samples_before(bytes: Seq<u8>, table: int, i: int) -> int
    decreases i,
{
    if i <= 0 {
        0
    } else {
        samples_before(bytes, table, i - 1) + (first_chunk(bytes, table, i) - first_chunk(
            bytes,
            table,
            i - 1,
        )) * be32(bytes, table + 12 * (i - 1) + 4)
    }
}

/// An MP4 file's chunks are told without a number out of bounds: the table lies in the payload,
/// its chunks count from one and ascend, and no entry has too many samples before it.
pub open spec fn chunks_fit(bytes: Seq<u8>, data: int, len: int) -> bool {
    let count = be32(bytes, data + 4);
    let table = data + 8;
    &&& len >= 8
    &&& 12 * count <= len - 8
    &&& forall|i: int| 0 <= i < count ==> #[trigger] entry_fits(bytes, table, i)
}

/// An entry of a table of chunks follows on the one before it.
pub open spec fn entry_fits(bytes: Seq<u8>, table: int, i: int) -> bool {
    &&& first_chunk(bytes, table, i) >= 1
    &&& i > 0 ==> first_chunk(bytes, table, i - 1) <= first_chunk(bytes, table, i)
    &&& samples_before(bytes, table, i) <= u32::MAX
}

fn test_chunks(bytes: &Vec<u8>, data: u64, len: u64) -> (ok: bool)
    requires
        data + len <= bytes@.len() <= LONGEST,
    ensures
        ok == chunks_fit(bytes@, data as int, len as int),
{
    if len < 8 {
        return false;
    }
    let count: u64 = read32(bytes, data + 4) as u64;
    if 12 * count > len - 8 {
        return false;
    }
    let table: u64 = data + 8;
    let mut chunk: u64 = 0;
    let mut each: u64 = 0;
    let mut samples: u64 = 0;
    let mut i: u64 = 0;
    while i < count
        invariant
            i <= count <= u32::MAX,
            table + 12 * count <= bytes@.len() <= LONGEST,
            len >= 8,
            12 * count <= len - 8,
            table == data + 8,
            count == be32(bytes@, data + 4),
            forall|k: int| 0 <= k < i ==> #[trigger] entry_fits(bytes@, table as int, k),
            each <= u32::MAX,
            chunk <= u32::MAX,
            samples <= u32::MAX,
            i == 0 ==> chunk == 0 && each == 0 && samples == 0,
            i > 0 ==> {
                &&& chunk == first_chunk(bytes@, table as int, i - 1)
                &&& each == be32(bytes@, table + 12 * (i - 1) + 4)
                &&& samples == samples_before(bytes@, table as int, i - 1)
            },
        decreases count - i,
    {
        let next: u64 = read32(bytes, table + 12 * i) as u64;
        if next < 1 || next < chunk {
            assert(!entry_fits(bytes@, table as int, i as int));
            return false;
        }
        let step: u64 = next - chunk;
        assert(0 <= step * each <= 0xffff_ffff * 0xffff_ffff) by (nonlinear_arith)
            requires
                0 <= step <= 0xffff_ffff,
                0 <= each <= 0xffff_ffff,
        ;
        assert(step * 0 == 0);
        let sum: u64 = samples + step * each;
        assert(sum == samples_before(bytes@, table as int, i as int));
        if sum > 0xffff_ffff {
            assert(!entry_fits(bytes@, table as int, i as int));
            return false;
        }
        samples = sum;
        chunk = next;
        each = read32(bytes, table + 12 * i + 4) as u64;
        assert(entry_fits(bytes@, table as int, i as int));
        i = i + 1;
    }
    true
}

/// A table of entries of one size lies in the payload, after `head` bytes that end with its count.
pub open spec fn table_fits(bytes: Seq<u8>, data: int, len: int, head: int, size: int) -> bool {
    &&& len >= head
    &&& size * be32(bytes, data + head - 4) <= len - head
}

fn test_table(bytes: &Vec<u8>, data: u64, len: u64, head: u64, size: u64) -> (ok: bool)
    requires
        data + len <= bytes@.len() <= LONGEST,
        4 <= head <= 12,
        size <= 8,
    ensures
        ok == table_fits(bytes@, data as int, len as int, head as int, size as int),
{
    if len < head {
        return false;
    }
    let count: u64 = read32(bytes, data + head - 4) as u64;
    assert(size * count <= 8 * 0xffff_ffff) by (nonlinear_arith)
        requires
            size <= 8,
            count <= 0xffff_ffff,
    ;
    size * count <= len - head
}

/// A table of sample sizes lies in the payload, where the samples are not all of one size.
pub open spec fn sizes_fit(bytes: Seq<u8>, data: int, len: int) -> bool {
    len >= 12 && (be32(bytes, data + 4) == 0 ==> table_fits(bytes, data, len, 12, 4))
}

/// The fields of a media header lie in the payload.
pub open spec fn media_header_fits(bytes: Seq<u8>, data: int, len: int) -> bool {
    ||| len >= 24 && bytes[data] == 0
    ||| len >= 36 && bytes[data] == 1
}

fn test_media_header(bytes: &Vec<u8>, data: u64, len: u64) -> (ok: bool)
    requires
        data + len <= bytes@.len() <= LONGEST,
    ensures
        ok == media_header_fits(bytes@, data as int, len as int),
{
    (len >= 24 && read_byte(bytes, data) == 0) || (len >= 36 && read_byte(bytes, data) == 1)
}

/// The unit in which a media header counts time: how many there are in a second.
pub open spec fn time_unit(bytes: Seq<u8>, data: int) -> int {
    if bytes[data] == 0 {
        be32(bytes, data + 12)
    } else {
        be32(bytes, data + 20)
    }
}

/// An index of segments, as far as there is room for one, points to a place that can be counted.
/// The place is counted from the end of a payload of length `len`.
pub open spec fn index_fits(bytes: Seq<u8>, data: int, len: int, room: int) -> bool {
    room >= 1 && (bytes[data] == 1 ==> room >= 28 && data + len + be64(bytes, data + 20)
        <= u64::MAX)
}

fn test_index(bytes: &Vec<u8>, data: u64, len: u64, room: u64) -> (ok: bool)
    requires
        len <= room,
        data + room <= bytes@.len() <= LONGEST,
    ensures
        ok == index_fits(bytes@, data as int, len as int, room as int),
{
    room >= 1 && (read_byte(bytes, data) != 1 || (room >= 28 && read64(bytes, data + 20)
        <= u64::MAX - (data + len)))
}

/// A descriptor in the description of a stream: its tag, where its body begins, and the length
/// that it gives for that.
#[verifier::ext_equal]
pub struct DescriptorView {
    pub tag: int,
    pub body: int,
    pub len: int,
}

/// A length in up to `left` bytes from a place on, after `value`: seven bits in each byte, and a
/// mark on each but the last. With it comes the place after it.
pub open spec fn descriptor_length(
    bytes: Seq<u8>,
    at: int,
    to: int,
    value: int,
    left: nat,
) -> Option<(int, int)>
    decreases left,
{
    if left == 0 {
        Some((value, at))
    } else if at >= to {
        None
    } else {
        let more = value * 128 + bytes[at] % 128;
        if bytes[at] < 128 {
            Some((more, at + 1))
        } else {
            descriptor_length(bytes, at + 1, to, more, (left - 1) as nat)
        }
    }
}

/// A length is no negative number, and the place after it comes no earlier than it.
pub proof fn lemma_descriptor_length(bytes: Seq<u8>, at: int, to: int, value: int, left: nat)
    requires
        0 <= value,
    ensures
        match descriptor_length(bytes, at, to, value, left) {
            Some((len, body)) => len >= 0 && body >= at,
            None => true,
        },
    decreases left,
{
    if left > 0 && at < to {
        lemma_descriptor_length(
            bytes,
            at + 1,
            to,
            value * 128 + bytes[at] % 128,
            (left - 1) as nat,
        );
    }
}

/// The descriptor at a place, where its tag and its length lie before `to`.
pub open spec fn descriptor_at(bytes: Seq<u8>, at: int, to: int) -> Option<DescriptorView> {
    if at >= to {
        None
    } else {
        match descriptor_length(bytes, at + 1, to, 0, 4) {
            Some((len, body)) => Some(DescriptorView { tag: bytes[at] as int, body, len }),
            None => None,
        }
    }
}

#[derive(Clone, Copy)]
struct Descriptor {
    tag: u8,
    body: u64,
    len: u64,
}

impl Descriptor {
    spec fn model(self) -> DescriptorView {
        DescriptorView { tag: self.tag as int, body: self.body as int, len: self.len as int }
    }
}

fn read_descriptor(bytes: &Vec<u8>, at: u64, to: u64) -> (descriptor: Option<Descriptor>)
    requires
        to <= bytes@.len() <= LONGEST,
    ensures
        match descriptor {
            Some(d) => descriptor_at(bytes@, at as int, to as int) == Some(d.model()) && at
                < d.body <= to && d.len < 0x1000_0000,
            None => descriptor_at(bytes@, at as int, to as int) is None,
        },
{
    if at >= to {
        return None;
    }
    let tag: u8 = read_byte(bytes, at);
    let mut place: u64 = at + 1;
    let mut value: u64 = 0;
    let mut left: u64 = 4;
    while left > 0
        invariant
            at < place <= to <= bytes@.len() <= LONGEST,
            left <= 4,
            left == 4 ==> value == 0,
            left == 3 ==> value < 0x80,
            left == 2 ==> value < 0x4000,
            left == 1 ==> value < 0x20_0000,
            left == 0 ==> value < 0x1000_0000,
            tag == bytes@[at as int],
            descriptor_length(bytes@, at + 1, to as int, 0, 4) == descriptor_length(
                bytes@,
                place as int,
                to as int,
                value as int,
                left as nat,
            ),
        decreases left,
    {
        if place >= to {
            return None;
        }
        let byte: u8 = read_byte(bytes, place);
        value = value * 128 + (byte % 128) as u64;
        place = place + 1;
        if byte < 128 {
            return Some(Descriptor { tag, body: place, len: value });
        }
        left = left - 1;
    }
    Some(Descriptor { tag, body: place, len: value })
}

/// Where the descriptors in the body of a stream's own descriptor begin: after its number, its
/// flags and what the flags announce.
pub open spec fn stream_parts(bytes: Seq<u8>, body: int) -> int {
    let flags = bytes[body + 2];
    let url = body + 3 + (if flags >= 128 {
        2int
    } else {
        0
    });
    let after = if flags / 64 % 2 == 1 {
        url + 1 + bytes[url]
    } else {
        url
    };
    after + (if flags / 32 % 2 == 1 {
        2int
    } else {
        0
    })
}

/// How many places lie between two.
pub open spec fn between(from: int, to: int) -> nat {
    if from < to {
        (to - from) as nat
    } else {
        0
    }
}

/// No descriptor of a decoder in the body of a stream's descriptor is too short. What stands
/// before `to` counts.
pub open spec fn decoders_fit(bytes: Seq<u8>, from: int, to: int) -> bool
    decreases between(from, to),
{
    if to - from <= 2 {
        true
    } else {
        proof {
            lemma_descriptor_length(bytes, from + 1, to, 0, 4);
        }
        match descriptor_at(bytes, from, to) {
            None => true,
            Some(d) => if d.tag == 4 && d.len < 13 {
                false
            } else if d.tag == 6 {
                decoders_fit(bytes, d.body + 1, to)
            } else {
                decoders_fit(bytes, d.body + d.len, to)
            },
        }
    }
}

fn test_decoders(bytes: &Vec<u8>, from: u64, to: u64) -> (ok: bool)
    requires
        to <= bytes@.len() <= LONGEST,
        from <= 2 * LONGEST,
    ensures
        ok == decoders_fit(bytes@, from as int, to as int),
{
    let mut at: u64 = from;
    while at < to && to - at > 2
        invariant
            to <= bytes@.len() <= LONGEST,
            at <= 4 * LONGEST,
            decoders_fit(bytes@, from as int, to as int) == decoders_fit(
                bytes@,
                at as int,
                to as int,
            ),
        decreases to + 8 * LONGEST - at,
    {
        match read_descriptor(bytes, at, to) {
            None => {
                return true;
            },
            Some(d) => {
                if d.tag == 4 && d.len < 13 {
                    return false;
                }
                if d.tag == 6 {
                    at = d.body + 1;
                } else {
                    at = d.body + d.len;
                }
            },
        }
    }
    true
}

/// The descriptors of the description of a stream hold one of the stream, or did before, and
/// those of streams and of their decoders are not too short.
pub open spec fn streams_fit(bytes: Seq<u8>, from: int, to: int, seen: bool) -> bool
    decreases between(from, to),
{
    if to - from <= 2 {
        seen
    } else {
        proof {
            lemma_descriptor_length(bytes, from + 1, to, 0, 4);
        }
        match descriptor_at(bytes, from, to) {
            None => true,
            Some(d) => if d.tag != 3 {
                streams_fit(bytes, d.body + d.len, to, seen)
            } else if d.len < 3 {
                false
            } else if d.body + 3 > to || stream_url(bytes, d.body) >= to {
                true
            } else {
                let parts = stream_parts(bytes, d.body);
                let end = parts + d.len - 3;
                &&& decoders_fit(
                    bytes,
                    parts,
                    if end <= to {
                        end
                    } else {
                        to
                    },
                )
                &&& streams_fit(bytes, end, to, true)
            },
        }
    }
}

/// The place where the address in a stream's descriptor would stand.
pub open spec fn stream_url(bytes: Seq<u8>, body: int) -> int {
    body + 3 + (if bytes[body + 2] >= 128 {
        2int
    } else {
        0
    })
}

fn test_streams(bytes: &Vec<u8>, from: u64, to: u64) -> (ok: bool)
    requires
        from <= to <= bytes@.len() <= LONGEST,
    ensures
        ok == streams_fit(bytes@, from as int, to as int, false),
{
    let mut at: u64 = from;
    let mut seen: bool = false;
    while at < to && to - at > 2
        invariant
            to <= bytes@.len() <= LONGEST,
            at <= 4 * LONGEST,
            streams_fit(bytes@, from as int, to as int, false) == streams_fit(
                bytes@,
                at as int,
                to as int,
                seen,
            ),
        decreases to + 8 * LONGEST - at,
    {
        match read_descriptor(bytes, at, to) {
            None => {
                return true;
            },
            Some(d) => {
                if d.tag != 3 {
                    at = d.body + d.len;
                } else if d.len < 3 {
                    return false;
                } else if d.body + 3 > to {
                    return true;
                } else {
                    let flags: u8 = read_byte(bytes, d.body + 2);
                    let mut parts: u64 = d.body + 3;
                    if flags >= 128 {
                        parts = parts + 2;
                    }
                    if parts >= to {
                        return true;
                    }
                    if flags / 64 % 2 == 1 {
                        parts = parts + 1 + read_byte(bytes, parts) as u64;
                    }
                    if flags / 32 % 2 == 1 {
                        parts = parts + 2;
                    }
                    let end: u64 = parts + d.len - 3;
                    let inner: u64 = if end <= to {
                        end
                    } else {
                        to
                    };
                    if !test_decoders(bytes, parts, inner) {
                        return false;
                    }
                    at = end;
                    seen = true;
                }
            },
        }
    }
    seen
}

/// The description of a stream: after four bytes, its descriptors.
pub open spec fn stream_fits(bytes: Seq<u8>, data: int, len: int) -> bool {
    len >= 4 && streams_fit(bytes, data + 4, data + len, false)
}

/// What an atom stands in, as far as the atoms in it are read.
#[derive(Clone, Copy, Debug, PartialEq, Eq, Structural)]
pub enum Place {
    File,
    Movie,
    Track,
    Media,
    MediaInfo,
    SampleTable,
    UserData,
    Meta,
    TagList,
    Tag,
    Entry,
    Wave,
    Other,
}

/// What reading an atom comes to: nothing can go wrong, something does, or it is a matter of the
/// atoms that stand in a part of it.
#[verifier::ext_equal]
pub enum InnerView {
    Fine,
    Broken,
    Within { place: Place, from: int, to: int, limit: int },
}

/// Fine where a condition holds.
pub open spec fn fine_if(condition: bool) -> InnerView {
    if condition {
        InnerView::Fine
    } else {
        InnerView::Broken
    }
}

/// A matter of the atoms in the whole payload.
pub open spec fn all_of(place: Place, atom: AtomView) -> InnerView {
    InnerView::Within {
        place,
        from: atom.data,
        to: atom.data + atom.len,
        limit: atom.data + atom.len,
    }
}

/// A matter of the atoms in the payload after its first four bytes.
pub open spec fn after_version(place: Place, atom: AtomView) -> InnerView {
    if atom.len < 4 {
        InnerView::Broken
    } else {
        InnerView::Within {
            place,
            from: atom.data + 4,
            to: atom.data + atom.len,
            limit: atom.data + atom.len,
        }
    }
}

/// The kinds of tags whose values are read.
pub open spec fn is_tag(kind: int) -> bool {
    ||| kind == 0x2d2d_2d2d  // `----`
    ||| kind == 0x6141_5254  // `aART`
    ||| kind == 0x6361_7467  // `catg`
    ||| kind == 0x636f_7672  // `covr`
    ||| kind == 0x6370_696c  // `cpil`
    ||| kind == 0x6370_7274  // `cprt`
    ||| kind == 0x6465_7363  // `desc`
    ||| kind == 0x6469_736b  // `disk`
    ||| kind == 0x6567_6964  // `egid`
    ||| kind == 0x676e_7265  // `gnre`
    ||| kind == 0x6b65_7977  // `keyw`
    ||| kind == 0x6c64_6573  // `ldes`
    ||| kind == 0x6f77_6e72  // `ownr`
    ||| kind == 0x7063_7374  // `pcst`
    ||| kind == 0x7075_7264  // `purd`
    ||| kind == 0x7075_726c  // `purl`
    ||| kind == 0x7261_7465  // `rate`
    ||| kind == 0x736f_6161  // `soaa`
    ||| kind == 0x736f_616c  // `soal`
    ||| kind == 0x736f_6172  // `soar`
    ||| kind == 0x736f_636f  // `soco`
    ||| kind == 0x736f_6e6d  // `sonm`
    ||| kind == 0x7374_696b  // `stik`
    ||| kind == 0x746d_706f  // `tmpo`
    ||| kind == 0x7472_6b6e  // `trkn`
    ||| kind == 0x7476_656e  // `tven`
    ||| kind == 0x7476_6573  // `tves`
    ||| kind == 0x7476_6e6e  // `tvnn`
    ||| kind == 0x7476_7368  // `tvsh`
    ||| kind == 0x7476_736e  // `tvsn`
    ||| kind == 0xa961_6c62  // `alb` after a copyright sign
    ||| kind == 0xa941_5254  // `ART` after a copyright sign
    ||| kind == 0xa963_6d74  // `cmt` after a copyright sign
    ||| kind == 0xa964_6179  // `day` after a copyright sign
    ||| kind == 0xa965_6e63  // `enc` after a copyright sign
    ||| kind == 0xa967_656e  // `gen` after a copyright sign
    ||| kind == 0xa967_7270  // `grp` after a copyright sign
    ||| kind == 0xa96c_7972  // `lyr` after a copyright sign
    ||| kind == 0xa96e_616d  // `nam` after a copyright sign
    ||| kind == 0xa974_6f6f  // `too` after a copyright sign
    ||| kind == 0xa977_7274  // `wrt` after a copyright sign

}

fn test_tag(kind: u32) -> (tag: bool)
    ensures
        tag == is_tag(kind as int),
{
    kind == 0x2d2d_2d2d || kind == 0x6141_5254 || kind == 0x6361_7467 || kind == 0x636f_7672
        || kind == 0x6370_696c || kind == 0x6370_7274 || kind == 0x6465_7363
        || kind == 0x6469_736b || kind == 0x6567_6964 || kind == 0x676e_7265
        || kind == 0x6b65_7977 || kind == 0x6c64_6573 || kind == 0x6f77_6e72
        || kind == 0x7063_7374 || kind == 0x7075_7264 || kind == 0x7075_726c
        || kind == 0x7261_7465 || kind == 0x736f_6161 || kind == 0x736f_616c
        || kind == 0x736f_6172 || kind == 0x736f_636f || kind == 0x736f_6e6d
        || kind == 0x7374_696b || kind == 0x746d_706f || kind == 0x7472_6b6e
        || kind == 0x7476_656e || kind == 0x7476_6573 || kind == 0x7476_6e6e
        || kind == 0x7476_7368 || kind == 0x7476_736e || kind == 0xa961_6c62
        || kind == 0xa941_5254 || kind == 0xa963_6d74 || kind == 0xa964_6179
        || kind == 0xa965_6e63 || kind == 0xa967_656e || kind == 0xa967_7270
        || kind == 0xa96c_7972 || kind == 0xa96e_616d || kind == 0xa974_6f6f
        || kind == 0xa977_7274
}

/// The kinds of sample descriptions that are read: those of sound.
pub open spec fn is_sound(kind: int) -> bool {
    ||| kind == LPCM
    ||| kind == WAVE
    ||| kind == 0x6d70_3461  // `mp4a`
    ||| kind == 0x616c_6163  // `alac`
    ||| kind == 0x664c_6143  // `fLaC`
    ||| kind == 0x4f70_7573  // `Opus`
    ||| kind == 0x2e6d_7033  // `.mp3`
    ||| kind == 0x616c_6177  // `alaw`
    ||| kind == 0x756c_6177  // `ulaw`
    ||| kind == 0x7261_7720  // `raw `
    ||| kind == 0x736f_7774  // `sowt`
    ||| kind == 0x7477_6f73  // `twos`
    ||| kind == 0x696e_3234  // `in24`
    ||| kind == 0x696e_3332  // `in32`
    ||| kind == 0x666c_3332  // `fl32`
    ||| kind == 0x666c_3634  // `fl64`

}

fn test_sound(kind: u32) -> (sound: bool)
    ensures
        sound == is_sound(kind as int),
{
    kind == LPCM || kind == WAVE || kind == 0x6d70_3461 || kind == 0x616c_6163 || kind
        == 0x664c_6143 || kind == 0x4f70_7573 || kind == 0x2e6d_7033 || kind == 0x616c_6177 || kind
        == 0x756c_6177 || kind == 0x7261_7720 || kind == 0x736f_7774 || kind == 0x7477_6f73 || kind
        == 0x696e_3234 || kind == 0x696e_3332 || kind == 0x666c_3332 || kind == 0x666c_3634
}

/// How long the fields of a sound description of a version are.
pub open spec fn fields_len(version: int) -> int {
    if version == 0 {
        28
    } else if version == 1 {
        44
    } else {
        64
    }
}

/// The description of samples: it holds one description, and where that is of sound, it has to lie
/// there whole with its fields in it, and the atoms after them matter. The last of these may reach
/// beyond the description that it stands in. Uncompressed sound is described by the third version
/// only.
pub open spec fn description(bytes: Seq<u8>, atom: AtomView) -> InnerView {
    if atom.next - atom.data < 8 || be32(bytes, atom.data + 4) != 1 {
        fine_if(atom.next - atom.data >= 8)
    } else {
        match header_at(bytes, atom.data + 8, atom.next) {
            None => InnerView::Broken,
            Some(entry) => if !is_sound(entry.kind) {
                InnerView::Fine
            } else if entry.len < 28 || entry.data + entry.len > atom.next {
                InnerView::Broken
            } else {
                let version = be16(bytes, entry.data + 8);
                if version > 2 {
                    InnerView::Fine
                } else if entry.len < fields_len(version) || (entry.kind == LPCM && version != 2) {
                    InnerView::Broken
                } else {
                    InnerView::Within {
                        place: Place::Entry,
                        from: entry.data + fields_len(version),
                        to: entry.data + entry.len,
                        limit: atom.next,
                    }
                }
            },
        }
    }
}

/// What reading an atom in some place comes to. Tables and headers are read as far as there is room
/// before the next atom.
pub open spec fn inner(bytes: Seq<u8>, place: Place, atom: AtomView) -> InnerView {
    let kind = atom.kind;
    let room = atom.next - atom.data;
    match place {
        Place::File => if kind == MOOV {
            all_of(Place::Movie, atom)
        } else if kind == META {
            after_version(Place::Meta, atom)
        } else if kind == SIDX {
            fine_if(index_fits(bytes, atom.data, atom.len, room))
        } else {
            InnerView::Fine
        },
        Place::Movie => if kind == TRAK {
            all_of(Place::Track, atom)
        } else if kind == UDTA {
            all_of(Place::UserData, atom)
        } else if kind == MVEX {
            all_of(Place::Other, atom)
        } else {
            InnerView::Fine
        },
        Place::Track => if kind == MDIA {
            all_of(Place::Media, atom)
        } else if kind == EDTS {
            all_of(Place::Other, atom)
        } else {
            InnerView::Fine
        },
        Place::Media => if kind == MDHD {
            fine_if(media_header_fits(bytes, atom.data, room))
        } else if kind == HDLR {
            fine_if(atom.len >= 24)
        } else if kind == MINF {
            all_of(Place::MediaInfo, atom)
        } else {
            InnerView::Fine
        },
        Place::MediaInfo => if kind == STBL {
            all_of(Place::SampleTable, atom)
        } else {
            InnerView::Fine
        },
        Place::SampleTable => if kind == STSD {
            description(bytes, atom)
        } else if kind == STTS {
            fine_if(durations_fit(bytes, atom.data, room))
        } else if kind == STSC {
            fine_if(chunks_fit(bytes, atom.data, room))
        } else if kind == STSZ {
            fine_if(sizes_fit(bytes, atom.data, room))
        } else if kind == STCO {
            fine_if(table_fits(bytes, atom.data, room, 8, 4))
        } else if kind == CO64 {
            fine_if(table_fits(bytes, atom.data, room, 8, 8))
        } else {
            InnerView::Fine
        },
        Place::UserData => if kind == META {
            after_version(Place::Meta, atom)
        } else {
            InnerView::Fine
        },
        Place::Meta => if kind == ILST {
            all_of(Place::TagList, atom)
        } else {
            InnerView::Fine
        },
        Place::TagList => if is_tag(kind) {
            all_of(Place::Tag, atom)
        } else {
            InnerView::Fine
        },
        Place::Tag => if kind == DATA {
            fine_if(atom.len >= 8)
        } else if kind == MEAN || kind == NAME {
            fine_if(atom.len >= 4)
        } else {
            InnerView::Fine
        },
        Place::Entry => if kind == ESDS {
            fine_if(stream_fits(bytes, atom.data, atom.len))
        } else if kind == WAVE {
            all_of(Place::Wave, atom)
        } else {
            InnerView::Fine
        },
        Place::Wave => if kind == ESDS {
            fine_if(stream_fits(bytes, atom.data, atom.len))
        } else {
            InnerView::Fine
        },
        Place::Other => InnerView::Fine,
    }
}

#[derive(Clone, Copy)]
enum Inner {
    Fine,
    Broken,
    Within { place: Place, from: u64, to: u64, limit: u64 },
}

impl Inner {
    spec fn model(self) -> InnerView {
        match self {
            Inner::Fine => InnerView::Fine,
            Inner::Broken => InnerView::Broken,
            Inner::Within { place, from, to, limit } => InnerView::Within {
                place,
                from: from as int,
                to: to as int,
                limit: limit as int,
            },
        }
    }

    spec fn lies_in(self, atom: Atom) -> bool {
        match self {
            Inner::Within { place, from, to, limit } => atom.data <= from <= to <= limit
                <= atom.next,
            _ => true,
        }
    }
}

fn choose_fine(condition: bool) -> (inner: Inner)
    ensures
        inner.model() == fine_if(condition),
        !(inner is Within),
{
    if condition {
        Inner::Fine
    } else {
        Inner::Broken
    }
}

fn read_description(bytes: &Vec<u8>, atom: Atom) -> (result: Inner)
    requires
        atom.data + atom.len <= atom.next <= bytes@.len() <= LONGEST,
    ensures
        result.model() == description(bytes@, atom.model()),
        result.lies_in(atom),
{
    if atom.next - atom.data < 8 {
        return Inner::Broken;
    }
    if read32(bytes, atom.data + 4) != 1 {
        return Inner::Fine;
    }
    match read_header(bytes, atom.data + 8, atom.next) {
        None => Inner::Broken,
        Some(entry) => {
            if !test_sound(entry.kind) {
                return Inner::Fine;
            }
            if entry.len < 28 || entry.len > atom.next - entry.data {
                return Inner::Broken;
            }
            let version: u32 = read16(bytes, entry.data + 8);
            if version > 2 {
                return Inner::Fine;
            }
            let fields: u64 = if version == 0 {
                28
            } else if version == 1 {
                44
            } else {
                64
            };
            if entry.len < fields || (entry.kind == LPCM && version != 2) {
                Inner::Broken
            } else {
                Inner::Within {
                    place: Place::Entry,
                    from: entry.data + fields,
                    to: entry.data + entry.len,
                    limit: atom.next,
                }
            }
        },
    }
}

fn read_inner(bytes: &Vec<u8>, place: Place, atom: Atom) -> (result: Inner)
    requires
        atom.data + atom.len <= atom.next <= bytes@.len() <= LONGEST,
    ensures
        result.model() == inner(bytes@, place, atom.model()),
        result.lies_in(atom),
{
    let kind: u32 = atom.kind;
    let data: u64 = atom.data;
    let len: u64 = atom.len;
    let room: u64 = atom.next - atom.data;
    let container: Option<Place> = match place {
        Place::File if kind == MOOV => Some(Place::Movie),
        Place::Movie if kind == TRAK => Some(Place::Track),
        Place::Movie if kind == UDTA => Some(Place::UserData),
        Place::Movie if kind == MVEX => Some(Place::Other),
        Place::Track if kind == MDIA => Some(Place::Media),
        Place::Track if kind == EDTS => Some(Place::Other),
        Place::Media if kind == MINF => Some(Place::MediaInfo),
        Place::MediaInfo if kind == STBL => Some(Place::SampleTable),
        Place::Meta if kind == ILST => Some(Place::TagList),
        Place::TagList if test_tag(kind) => Some(Place::Tag),
        Place::Entry if kind == WAVE => Some(Place::Wave),
        _ => None,
    };
    if let Some(inside) = container {
        return Inner::Within { place: inside, from: data, to: data + len, limit: data + len };
    }
    match place {
        Place::File | Place::UserData => {
            if kind == META {
                if len < 4 {
                    Inner::Broken
                } else {
                    Inner::Within {
                        place: Place::Meta,
                        from: data + 4,
                        to: data + len,
                        limit: data + len,
                    }
                }
            } else if kind == SIDX && place == Place::File {
                choose_fine(test_index(bytes, data, len, room))
            } else {
                Inner::Fine
            }
        },
        Place::Media => {
            if kind == MDHD {
                choose_fine(test_media_header(bytes, data, room))
            } else if kind == HDLR {
                choose_fine(len >= 24)
            } else {
                Inner::Fine
            }
        },
        Place::SampleTable => {
            if kind == STSD {
                read_description(bytes, atom)
            } else if kind == STTS {
                choose_fine(test_durations(bytes, data, room))
            } else if kind == STSC {
                choose_fine(test_chunks(bytes, data, room))
            } else if kind == STSZ {
                choose_fine(
                    room >= 12 && (read32(bytes, data + 4) != 0 || test_table(
                        bytes,
                        data,
                        room,
                        12,
                        4,
                    )),
                )
            } else if kind == STCO {
                choose_fine(test_table(bytes, data, room, 8, 4))
            } else if kind == CO64 {
                choose_fine(test_table(bytes, data, room, 8, 8))
            } else {
                Inner::Fine
            }
        },
        Place::Tag => {
            if kind == DATA {
                choose_fine(len >= 8)
            } else if kind == MEAN || kind == NAME {
                choose_fine(len >= 4)
            } else {
                Inner::Fine
            }
        },
        Place::Entry | Place::Wave => {
            if kind == ESDS {
                choose_fine(len >= 4 && test_streams(bytes, data + 4, data + len))
            } else {
                Inner::Fine
            }
        },
        _ => Inner::Fine,
    }
}

/// Reading the atoms of something from one place of a file to another goes well: each lies whole
/// before `limit`, and so it is within those whose atoms are read.
pub open spec fn atoms_read(bytes: Seq<u8>, place: Place, from: int, to: int, limit: int) -> bool
    decreases between(from, limit),
{
    if from >= to {
        true
    } else {
        match atom_at(bytes, from, to, limit) {
            None => false,
            Some(atom) => {
                &&& match inner(bytes, place, atom) {
                    InnerView::Fine => true,
                    InnerView::Broken => false,
                    InnerView::Within { place: inside, from: first, to: last, limit: bound } => {
                        if from < first && bound <= limit {
                            atoms_read(bytes, inside, first, last, bound)
                        } else {
                            false
                        }
                    },
                }
                &&& if from < atom.next {
                    atoms_read(bytes, place, atom.next, to, limit)
                } else {
                    false
                }
            },
        }
    }
}

fn test_atoms(bytes: &Vec<u8>, place: Place, from: u64, to: u64, limit: u64) -> (ok: bool)
    requires
        from <= to <= limit <= bytes@.len() <= LONGEST,
    ensures
        ok == atoms_read(bytes@, place, from as int, to as int, limit as int),
    decreases limit - from,
{
    let mut at: u64 = from;
    while at < to
        invariant
            from <= at <= limit <= bytes@.len() <= LONGEST,
            to <= limit,
            atoms_read(bytes@, place, from as int, to as int, limit as int) == atoms_read(
                bytes@,
                place,
                at as int,
                to as int,
                limit as int,
            ),
        decreases limit - at,
    {
        match read_atom(bytes, at, to, limit) {
            None => {
                return false;
            },
            Some(atom) => {
                match read_inner(bytes, place, atom) {
                    Inner::Fine => {},
                    Inner::Broken => {
                        return false;
                    },
                    Inner::Within { place: inside, from: first, to: last, limit: bound } => {
                        if !test_atoms(bytes, inside, first, last, bound) {
                            return false;
                        }
                    },
                }
                at = atom.next;
            },
        }
    }
    true
}

/// The last atom of a kind from one place of a file to another.
pub open spec fn last_atom(bytes: Seq<u8>, from: int, to: int, kind: u32) -> Option<AtomView>
    decreases between(from, to),
{
    if from >= to {
        None
    } else {
        match atom_at(bytes, from, to, to) {
            None => None,
            Some(atom) => if from < atom.next {
                match last_atom(bytes, atom.next, to, kind) {
                    Some(later) => Some(later),
                    None => if atom.kind == kind {
                        Some(atom)
                    } else {
                        None
                    },
                }
            } else {
                None
            },
        }
    }
}

fn find_last(bytes: &Vec<u8>, from: u64, to: u64, kind: u32) -> (found: Option<Atom>)
    requires
        from <= to <= bytes@.len() <= LONGEST,
    ensures
        match found {
            Some(a) => last_atom(bytes@, from as int, to as int, kind) == Some(a.model()) && a.data
                + a.len <= a.next <= to,
            None => last_atom(bytes@, from as int, to as int, kind) is None,
        },
{
    let mut at: u64 = from;
    let mut found: Option<Atom> = None;
    while at < to
        invariant
            from <= at <= to <= bytes@.len() <= LONGEST,
            last_atom(bytes@, from as int, to as int, kind) == (match last_atom(
                bytes@,
                at as int,
                to as int,
                kind,
            ) {
                Some(later) => Some(later),
                None => match found {
                    Some(a) => Some(a.model()),
                    None => None,
                },
            }),
            found matches Some(a) ==> a.data + a.len <= a.next <= to,
        decreases to - at,
    {
        match read_atom(bytes, at, to, to) {
            None => {
                return found;
            },
            Some(atom) => {
                if atom.kind == kind {
                    found = Some(atom);
                }
                at = atom.next;
            },
        }
    }
    found
}

/// The media of a track count time in some unit. The last header of the last media is the one that
/// counts.
pub open spec fn track_is_timed(bytes: Seq<u8>, track: AtomView) -> bool {
    match last_atom(bytes, track.data, track.data + track.len, MDIA) {
        None => true,
        Some(media) => match last_atom(bytes, media.data, media.data + media.len, MDHD) {
            None => true,
            Some(header) => media_header_fits(bytes, header.data, header.next - header.data)
                ==> time_unit(bytes, header.data) != 0,
        },
    }
}

fn test_track(bytes: &Vec<u8>, track: Atom) -> (ok: bool)
    requires
        track.data + track.len <= bytes@.len() <= LONGEST,
    ensures
        ok == track_is_timed(bytes@, track.model()),
{
    match find_last(bytes, track.data, track.data + track.len, MDIA) {
        None => true,
        Some(media) => match find_last(bytes, media.data, media.data + media.len, MDHD) {
            None => true,
            Some(header) => {
                if !test_media_header(bytes, header.data, header.next - header.data) {
                    true
                } else if read_byte(bytes, header.data) == 0 {
                    read32(bytes, header.data + 12) != 0
                } else {
                    read32(bytes, header.data + 20) != 0
                }
            },
        },
    }
}

/// The tracks from one place of a file to another count time in some unit.
pub open spec fn tracks_are_timed(bytes: Seq<u8>, from: int, to: int) -> bool
    decreases between(from, to),
{
    if from >= to {
        true
    } else {
        match atom_at(bytes, from, to, to) {
            None => true,
            Some(atom) => {
                &&& atom.kind == TRAK ==> track_is_timed(bytes, atom)
                &&& if from < atom.next {
                    tracks_are_timed(bytes, atom.next, to)
                } else {
                    true
                }
            },
        }
    }
}

fn test_tracks(bytes: &Vec<u8>, from: u64, to: u64) -> (ok: bool)
    requires
        from <= to <= bytes@.len() <= LONGEST,
    ensures
        ok == tracks_are_timed(bytes@, from as int, to as int),
{
    let mut at: u64 = from;
    while at < to
        invariant
            from <= at <= to <= bytes@.len() <= LONGEST,
            tracks_are_timed(bytes@, from as int, to as int) == tracks_are_timed(
                bytes@,
                at as int,
                to as int,
            ),
        decreases to - at,
    {
        match read_atom(bytes, at, to, to) {
            None => {
                return true;
            },
            Some(atom) => {
                if atom.kind == TRAK && !test_track(bytes, atom) {
                    return false;
                }
                at = atom.next;
            },
        }
    }
    true
}

/// The tracks of an MP4 file from a place on count time in some unit. The last description of a
/// movie is the one that counts.
pub open spec fn movie_is_timed(bytes: Seq<u8>, from: int) -> bool {
    match last_atom(bytes, from, bytes.len() as int, MOOV) {
        None => true,
        Some(movie) => tracks_are_timed(bytes, movie.data, movie.data + movie.len),
    }
}

fn test_movie(bytes: &Vec<u8>, from: u64) -> (ok: bool)
    requires
        from <= bytes@.len() <= LONGEST,
    ensures
        ok == movie_is_timed(bytes@, from as int),
{
    match find_last(bytes, from, bytes.len() as u64, MOOV) {
        None => true,
        Some(movie) => test_tracks(bytes, movie.data, movie.data + movie.len),
    }
}

/// What marks the beginning of something that Symphonia reads.
#[derive(Clone, Copy, Debug, PartialEq, Eq, Structural)]
pub enum Mark {
    Nothing,
    Mpeg,
    Adts,
    Mp4,
    Id3,
}

/// The mark at a place: a frame of MPEG audio or of ADTS, the name of the first atom of an MP4
/// file, or an ID3v2 tag.
pub open spec fn mark_at(bytes: Seq<u8>, at: int) -> Mark {
    let first = bytes[at];
    let second = bytes[at + 1];
    if first == 0xff && second == 0xf1 {
        Mark::Adts
    } else if first == 0xff && (0xe2 <= second <= 0xe7 || 0xf2 <= second <= 0xf7 || second
        >= 0xfa) {
        Mark::Mpeg
    } else if be32(bytes, at) == 0x6674_7970 {
        Mark::Mp4
    } else if be16(bytes, at) == 0x4944 && bytes[at + 2] == 0x33 {
        Mark::Id3
    } else {
        Mark::Nothing
    }
}

fn read_mark(bytes: &Vec<u8>, at: u64) -> (mark: Mark)
    requires
        at + 16 <= bytes@.len() <= LONGEST,
    ensures
        mark == mark_at(bytes@, at as int),
{
    let first: u8 = read_byte(bytes, at);
    let second: u8 = read_byte(bytes, at + 1);
    if first == 0xff && second == 0xf1 {
        Mark::Adts
    } else if first == 0xff && ((0xe2 <= second && second <= 0xe7) || (0xf2 <= second && second
        <= 0xf7) || second >= 0xfa) {
        Mark::Mpeg
    } else if read32(bytes, at) == 0x6674_7970 {
        Mark::Mp4
    } else if read16(bytes, at) == 0x4944 && read_byte(bytes, at + 2) == 0x33 {
        Mark::Id3
    } else {
        Mark::Nothing
    }
}

/// How long the ID3v2 tag at a place is after its header: seven bits in each of four bytes.
pub open spec fn id3_len(bytes: Seq<u8>, at: int) -> int {
    bytes[at + 6] % 128 * 0x20_0000 + bytes[at + 7] % 128 * 0x4000 + bytes[at + 8] % 128 * 0x80
        + bytes[at + 9] % 128
}

fn read_id3_len(bytes: &Vec<u8>, at: u64) -> (len: u64)
    requires
        at + 16 <= bytes@.len() <= LONGEST,
    ensures
        len == id3_len(bytes@, at as int),
        len < 0x1000_0000,
{
    (read_byte(bytes, at + 6) % 128) as u64 * 0x20_0000 + (read_byte(bytes, at + 7) % 128) as u64
        * 0x4000 + (read_byte(bytes, at + 8) % 128) as u64 * 0x80 + (read_byte(bytes, at + 9)
        % 128) as u64
}

/// Where the restrictions of the ID3v2 tag at a place stand: after the fields of its extended
/// header that come before them.
pub open spec fn restrictions_at(bytes: Seq<u8>, at: int) -> int {
    let flags = bytes[at + 15];
    at + 17 + (if flags / 64 % 2 == 1 {
        1int
    } else {
        0
    }) + (if flags / 32 % 2 == 1 {
        6int
    } else {
        0
    })
}

/// The restrictions of the ID3v2 tag at a place, where it is of the fourth version and has them,
/// leave their second bit clear.
pub open spec fn id3_read(bytes: Seq<u8>, at: int) -> bool {
    let place = restrictions_at(bytes, at);
    bytes[at + 3] == 4 && bytes[at + 5] / 64 % 2 == 1 && bytes[at + 15] / 16 % 2 == 1 && place
        < bytes.len() ==> bytes[place] / 64 % 2 == 0
}

fn test_id3(bytes: &Vec<u8>, at: u64) -> (ok: bool)
    requires
        at + 16 <= bytes@.len() <= LONGEST,
    ensures
        ok == id3_read(bytes@, at as int),
{
    let flags: u8 = read_byte(bytes, at + 15);
    let mut place: u64 = at + 17;
    if flags / 64 % 2 == 1 {
        place = place + 1;
    }
    if flags / 32 % 2 == 1 {
        place = place + 6;
    }
    if read_byte(bytes, at + 3) == 4 && read_byte(bytes, at + 5) / 64 % 2 == 1 && flags / 16 % 2
        == 1 && place < bytes.len() as u64 {
        read_byte(bytes, place) / 64 % 2 == 0
    } else {
        true
    }
}

/// Searching the contents from a place on, and reading what is found, goes well. What follows an
/// ID3v2 tag is searched in turn. How many ADTS frames there are is guessed from places spread over
/// what follows the first one, less the length of what stands before it: four bytes have to be left
/// of that.
pub open spec fn search_returns(bytes: Seq<u8>, from: int) -> bool
    decreases between(from, bytes.len() as int),
{
    if from < 0 || from + 16 > bytes.len() {
        true
    } else {
        match mark_at(bytes, from) {
            Mark::Nothing => search_returns(bytes, from + 1),
            Mark::Mpeg => true,
            Mark::Adts => 2 * from + 4 <= bytes.len(),
            Mark::Mp4 => {
                let first = if from < 4 {
                    0
                } else {
                    from - 4
                };
                let end = bytes.len() as int;
                atoms_read(bytes, Place::File, first, end, end) && movie_is_timed(bytes, first)
            },
            Mark::Id3 => id3_read(bytes, from) && search_returns(
                bytes,
                from + 10 + id3_len(bytes, from),
            ),
        }
    }
}

/// Symphonia can be handed the contents of a media file: it takes none of what it reads in them for
/// granted that is not so.
pub open spec fn probe_returns(contents: Seq<u8>) -> bool {
    contents.len() <= LONGEST && search_returns(contents, 0)
}

/// Tests whether Symphonia can be handed the contents of a media file.
pub fn may_be_probed(contents: &Vec<u8>) -> (ok: bool)
    ensures
        ok == probe_returns(contents@),
{
    let length: u64 = contents.len() as u64;
    if length > LONGEST {
        return false;
    }
    let mut at: u64 = 0;
    while at < length && length - at >= 16
        invariant
            length == contents@.len() <= LONGEST,
            at <= 2 * LONGEST,
            search_returns(contents@, 0) == search_returns(contents@, at as int),
        decreases 4 * LONGEST - at,
    {
        match read_mark(contents, at) {
            Mark::Nothing => {
                at = at + 1;
            },
            Mark::Mpeg => {
                return true;
            },
            Mark::Adts => {
                return 2 * at + 4 <= length;
            },
            Mark::Mp4 => {
                let from: u64 = if at < 4 {
                    0
                } else {
                    at - 4
                };
                return test_atoms(contents, Place::File, from, length, length) && test_movie(
                    contents,
                    from,
                );
            },
            Mark::Id3 => {
                if !test_id3(contents, at) {
                    return false;
                }
                at = at + 10 + read_id3_len(contents, at);
            },
        }
    }
    true
}

} // verus!
