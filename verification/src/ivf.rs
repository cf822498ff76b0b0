use vstd::prelude::*;
use crate::frame::{FrameRate, RateError, rate_spec};

verus! {

/// Size of the IVF file header.
pub const HEADER_BYTES: usize = 32;

/// Size of the header in front of every IVF packet.
pub const PACKET_HEADER_BYTES: usize = 12;

/// Largest accepted IVF file.
pub const MAX_INPUT_BYTES: u64 = 268435456;

/// Largest accepted number of packets.
pub const MAX_PACKETS: usize = 65536;

/// Largest accepted packet payload.
pub const MAX_PACKET_BYTES: usize = 1048576;

/// Where one packet's payload lies in the file.
#[derive(Clone, Copy, Debug, PartialEq, Eq, Structural)]
pub struct PacketIndex {
    pub offset: usize,
    pub size: usize,
}

/// The bytes of one compressed packet.
#[derive(Clone, Debug)]
pub struct Packet {
    bytes: Vec<u8>,
}

impl Packet {
    /// Wraps a packet payload.
    pub fn new(bytes: Vec<u8>) -> (packet: Packet)
        ensures
            packet.bytes() == bytes@,
    {
        Packet { bytes }
    }

    /// The payload.
    pub closed spec fn bytes(&self) -> Seq<u8> {
        self.bytes@
    }

    /// The payload as a slice.
    pub fn as_bytes(&self) -> (bytes: &[u8])
        ensures
            bytes@ == self.bytes(),
    {
        self.bytes.as_slice()
    }

    /// The payload, moved out.
    pub fn into_bytes(self) -> (bytes: Vec<u8>)
        ensures
            bytes@ == self.bytes(),
    {
        self.bytes
    }
}

/// Why an IVF file was refused.
#[derive(Clone, Copy, Debug, PartialEq, Eq, Structural)]
pub enum IvfError {
    /// The file is empty or larger than `MAX_INPUT_BYTES`.
    InputSize,
    /// The file ends inside the 32-byte header.
    Truncated,
    /// The signature, version, header size or codec is not that of AV1 IVF.
    InvalidHeader,
    /// A declared frame side is zero.
    ZeroDimensions,
    /// The declared frame rate is refused.
    Rate(RateError),
    /// The declared frame count is zero or above `MAX_PACKETS`.
    FrameCountRange,
    /// A packet header is cut short, or data follows the declared frames.
    FrameTable,
    /// The packet at this index has an empty, oversized or truncated payload.
    InvalidPacket(usize),
    /// The packet at this index does not carry its index as timestamp.
    BadTimestamp(usize),
    /// The file holds a different number of packets than it declares.
    CountMismatch(usize, usize),
}

/// The little-endian value of a byte string.
pub open spec fn le_value(s: Seq<u8>) -> nat
    decreases s.len(),
{
    if s.len() == 0 {
        0
    } else {
        s[0] as nat + 256 * le_value(s.drop_first())
    }
}

/// The little-endian value of `s[offset..offset + n]`.
pub open spec fn le_at(s: Seq<u8>, offset: int, n: int) -> nat {
    le_value(s.subrange(offset, offset + n))
}

proof fn lemma_le_step(s: Seq<u8>, offset: int, n: int)
    requires
        0 <= offset,
        0 < n,
        offset + n <= s.len(),
    ensures
        le_at(s, offset, n) == s[offset] as nat + 256 * le_at(s, offset + 1, n - 1),
{
    assert(s.subrange(offset, offset + n).drop_first() =~= s.subrange(offset + 1, offset + n));
}

proof fn lemma_le_empty(s: Seq<u8>, offset: int)
    requires
        0 <= offset <= s.len(),
    ensures
        le_at(s, offset, 0) == 0,
{
    assert(s.subrange(offset, offset) =~= Seq::<u8>::empty());
}

/// Reads a little-endian `u16` at `offset`.
pub fn read_u16(bytes: &[u8], offset: usize) -> (value: u16)
    requires
        offset + 2 <= bytes.len(),
    ensures
        value == le_at(bytes@, offset as int, 2),
{
    proof {
        lemma_le_step(bytes@, offset as int, 2);
        lemma_le_step(bytes@, offset + 1, 1);
        lemma_le_empty(bytes@, offset + 2);
    }
    (bytes[offset] as u16) + (bytes[offset + 1] as u16) * 256
}

/// Reads a little-endian `u32` at `offset`.
pub fn read_u32(bytes: &[u8], offset: usize) -> (value: u32)
    requires
        offset + 4 <= bytes.len(),
    ensures
        value == le_at(bytes@, offset as int, 4),
{
    proof {
        lemma_le_step(bytes@, offset as int, 4);
        lemma_le_step(bytes@, offset + 1, 3);
        lemma_le_step(bytes@, offset + 2, 2);
        lemma_le_step(bytes@, offset + 3, 1);
        lemma_le_empty(bytes@, offset + 4);
    }
    let b0 = bytes[offset] as u32;
    let b1 = bytes[offset + 1] as u32;
    let b2 = bytes[offset + 2] as u32;
    let b3 = bytes[offset + 3] as u32;
    b0 + 256 * (b1 + 256 * (b2 + 256 * b3))
}

/// Reads a little-endian `u64` at `offset`.
pub fn read_u64(bytes: &[u8], offset: usize) -> (value: u64)
    requires
        offset + 8 <= bytes.len(),
    ensures
        value == le_at(bytes@, offset as int, 8),
{
    let low = read_u32(bytes, offset) as u64;
    let high = read_u32(bytes, offset + 4) as u64;
    proof {
        lemma_le_step(bytes@, offset as int, 8);
        lemma_le_step(bytes@, offset + 1, 7);
        lemma_le_step(bytes@, offset + 2, 6);
        lemma_le_step(bytes@, offset + 3, 5);
        lemma_le_step(bytes@, offset + 4, 4);
        lemma_le_step(bytes@, offset + 5, 3);
        lemma_le_step(bytes@, offset + 6, 2);
        lemma_le_step(bytes@, offset + 7, 1);
        lemma_le_empty(bytes@, offset + 8);
        let b = bytes@;
        let o = offset as int;
        assert(le_at(b, o, 4) == b[o] + 256 * (b[o + 1] + 256 * (b[o + 2] + 256 * (b[o + 3]
            + 256 * le_at(b, o + 4, 0))))) by {
            lemma_le_step(b, o, 4);
            lemma_le_step(b, o + 1, 3);
            lemma_le_step(b, o + 2, 2);
            lemma_le_step(b, o + 3, 1);
            lemma_le_empty(b, o + 4);
        }
        assert(le_at(b, o + 4, 4) == b[o + 4] + 256 * (b[o + 5] + 256 * (b[o + 6] + 256 * (b[o
            + 7] + 256 * le_at(b, o + 8, 0)))));
    }
    low + 4294967296 * high
}

/// What `validate_header` returns for a 32-byte IVF header: the `DKIF`
/// signature, version 0, header size 32 and the `AV01` codec, nonzero
/// dimensions, and an accepted frame rate.
pub open spec fn header_spec(h: Seq<u8>) -> Result<FrameRate, IvfError> {
    if h.subrange(0, 4) != seq![0x44u8, 0x4bu8, 0x49u8, 0x46u8] || le_at(h, 4, 2) != 0 || le_at(
        h,
        6,
        2,
    ) != HEADER_BYTES || h.subrange(8, 12) != seq![0x41u8, 0x56u8, 0x30u8, 0x31u8] {
        Err(IvfError::InvalidHeader)
    } else if le_at(h, 12, 2) == 0 || le_at(h, 14, 2) == 0 {
        Err(IvfError::ZeroDimensions)
    } else {
        match rate_spec(le_at(h, 16, 4) as u32, le_at(h, 20, 4) as u32) {
            Ok(rate) => Ok(rate),
            Err(e) => Err(IvfError::Rate(e)),
        }
    }
}

fn bytes_match(bytes: &[u8], offset: usize, expected: &[u8]) -> (same: bool)
    requires
        offset + expected.len() <= bytes.len(),
    ensures
        same == (bytes@.subrange(offset as int, offset + expected.len()) == expected@),
{
    let mut i: usize = 0;
    while i < expected.len()
        invariant
            i <= expected.len(),
            offset + expected.len() <= bytes.len(),
            forall|j: int| 0 <= j < i ==> bytes@[offset + j] == expected@[j],
        decreases expected.len() - i,
    {
        if bytes[offset + i] != expected[i] {
            assert(bytes@.subrange(offset as int, offset + expected.len())[i as int]
                != expected@[i as int]);
            return false;
        }
        i = i + 1;
    }
    assert(bytes@.subrange(offset as int, offset + expected.len()) =~= expected@);
    true
}

/// Checks an AV1 IVF header and returns its frame rate.
pub fn validate_header(bytes: &[u8]) -> (rate: Result<FrameRate, IvfError>)
    requires
        bytes.len() == HEADER_BYTES,
    ensures
        rate == header_spec(bytes@),
{
    let signature: [u8; 4] = [0x44u8, 0x4bu8, 0x49u8, 0x46u8];
    let codec: [u8; 4] = [0x41u8, 0x56u8, 0x30u8, 0x31u8];
    assert(signature@ =~= seq![0x44u8, 0x4bu8, 0x49u8, 0x46u8]);
    assert(codec@ =~= seq![0x41u8, 0x56u8, 0x30u8, 0x31u8]);
    if !bytes_match(bytes, 0, &signature) || read_u16(bytes, 4) != 0 || read_u16(bytes, 6) as usize
        != HEADER_BYTES || !bytes_match(bytes, 8, &codec) {
        return Err(IvfError::InvalidHeader);
    }
    if read_u16(bytes, 12) == 0 || read_u16(bytes, 14) == 0 {
        return Err(IvfError::ZeroDimensions);
    }
    match FrameRate::new(read_u32(bytes, 16), read_u32(bytes, 20)) {
        Ok(rate) => Ok(rate),
        Err(e) => Err(IvfError::Rate(e)),
    }
}

/// Puts `prefix` in front of a successful table, or passes an error on.
pub open spec fn prepend(prefix: Seq<PacketIndex>, rest: Result<Seq<PacketIndex>, IvfError>) -> Result<
    Seq<PacketIndex>,
    IvfError,
> {
    match rest {
        Ok(tail) => Ok(prefix + tail),
        Err(e) => Err(e),
    }
}

/// The packet table of `file` read from `offset`, where `count` packets came
/// before: each packet is a 12-byte header (payload size, then a timestamp
/// equal to the packet's index) followed by a payload of 1 to
/// `MAX_PACKET_BYTES` bytes, and the table holds exactly `declared` packets
/// that end where the file ends.
pub open spec fn table_spec(file: Seq<u8>, declared: nat, offset: nat, count: nat) -> Result<
    Seq<PacketIndex>,
    IvfError,
>
    decreases file.len() - offset,
{
    if offset >= file.len() {
        if count == declared {
            Ok(Seq::empty())
        } else {
            Err(IvfError::CountMismatch(declared as usize, count as usize))
        }
    } else if count == declared || file.len() - offset < PACKET_HEADER_BYTES {
        Err(IvfError::FrameTable)
    } else {
        let size = le_at(file, offset as int, 4);
        let timestamp = le_at(file, offset + 4int, 8);
        let body = offset + PACKET_HEADER_BYTES;
        if size == 0 || size > MAX_PACKET_BYTES || size > file.len() - body {
            Err(IvfError::InvalidPacket(count as usize))
        } else if timestamp != count {
            Err(IvfError::BadTimestamp(count as usize))
        } else {
            prepend(
                seq![PacketIndex { offset: body as usize, size: size as usize }],
                table_spec(file, declared, (body + size) as nat, count + 1),
            )
        }
    }
}

/// What `index_packets` returns: a frame count outside `1..=MAX_PACKETS` is
/// refused, otherwise the table that follows the header.
pub open spec fn index_spec(file: Seq<u8>, declared: nat) -> Result<Seq<PacketIndex>, IvfError> {
    if declared == 0 || declared > MAX_PACKETS {
        Err(IvfError::FrameCountRange)
    } else {
        table_spec(file, declared, HEADER_BYTES as nat, 0)
    }
}

/// Indexes the packets that follow the header of `file`.
pub fn index_packets(file: &[u8], declared: usize) -> (packets: Result<Vec<PacketIndex>, IvfError>)
    requires
        file.len() >= HEADER_BYTES,
    ensures
        match packets {
            Ok(table) => index_spec(file@, declared as nat) == Ok::<Seq<PacketIndex>, IvfError>(
                table@,
            ),
            Err(e) => index_spec(file@, declared as nat) == Err::<Seq<PacketIndex>, IvfError>(e),
        },
{
    if declared == 0 || declared > MAX_PACKETS {
        return Err(IvfError::FrameCountRange);
    }
    let file_bytes = file.len();
    let mut packets: Vec<PacketIndex> = Vec::new();
    let mut offset: usize = HEADER_BYTES;
    while offset < file_bytes
        invariant
            file_bytes == file.len(),
            HEADER_BYTES <= offset,
            packets.len() <= declared <= MAX_PACKETS,
            1 <= declared,
            table_spec(file@, declared as nat, HEADER_BYTES as nat, 0) == prepend(
                packets@,
                table_spec(file@, declared as nat, offset as nat, packets.len() as nat),
            ),
        decreases file_bytes - offset,
    {
        let count = packets.len();
        if count == declared || file_bytes - offset < PACKET_HEADER_BYTES {
            return Err(IvfError::FrameTable);
        }
        let size = read_u32(file, offset) as usize;
        let timestamp = read_u64(file, offset + 4);
        let body = offset + PACKET_HEADER_BYTES;
        if size == 0 || size > MAX_PACKET_BYTES || size > file_bytes - body {
            return Err(IvfError::InvalidPacket(count));
        }
        if timestamp != count as u64 {
            return Err(IvfError::BadTimestamp(count));
        }
        let ghost before = packets@;
        let entry = PacketIndex { offset: body, size };
        packets.push(entry);
        proof {
            let rest = table_spec(file@, declared as nat, (body + size) as nat, (count + 1) as nat);
            assert(table_spec(file@, declared as nat, offset as nat, count as nat) == prepend(
                seq![entry],
                rest,
            ));
            match rest {
                Ok(tail) => {
                    assert(before + (seq![entry] + tail) =~= packets@ + tail);
                },
                Err(e) => {},
            }
        }
        offset = body + size;
    }
    if packets.len() != declared {
        return Err(IvfError::CountMismatch(declared, packets.len()));
    }
    assert(packets@ + Seq::<PacketIndex>::empty() =~= packets@);
    Ok(packets)
}

/// Before the packet header at `offset`, with `count` packets read from a
/// file of `file_len` bytes: the table is complete (`None`), the header at
/// `offset` must be read next, or the table is refused.
pub open spec fn next_header_spec(file_len: nat, declared: nat, offset: nat, count: nat) -> Result<
    Option<usize>,
    IvfError,
> {
    if offset >= file_len {
        if count == declared {
            Ok(None)
        } else {
            Err(IvfError::CountMismatch(declared as usize, count as usize))
        }
    } else if count == declared || file_len - offset < PACKET_HEADER_BYTES {
        Err(IvfError::FrameTable)
    } else {
        Ok(Some(offset as usize))
    }
}

/// The packet that the 12-byte `header` read at `offset` announces, or why
/// it is refused.
pub open spec fn header_step_spec(file_len: nat, offset: nat, count: nat, header: Seq<u8>) -> Result<
    PacketIndex,
    IvfError,
> {
    let size = le_at(header, 0, 4);
    let timestamp = le_at(header, 4, 8);
    let body = offset + PACKET_HEADER_BYTES;
    if size == 0 || size > MAX_PACKET_BYTES || size > file_len - body {
        Err(IvfError::InvalidPacket(count as usize))
    } else if timestamp != count {
        Err(IvfError::BadTimestamp(count as usize))
    } else {
        Ok(PacketIndex { offset: body as usize, size: size as usize })
    }
}

/// Reading the table header by header gives the table of the whole file:
/// the decision before a header and the packet a header announces are those
/// of `table_spec`, which then goes on behind that packet.
pub proof fn lemma_headers_read_the_table(
    file: Seq<u8>,
    declared: nat,
    offset: nat,
    count: nat,
    header: Seq<u8>,
)
    requires
        file.len() <= usize::MAX,
        offset + PACKET_HEADER_BYTES <= file.len() ==> header == file.subrange(
            offset as int,
            offset + PACKET_HEADER_BYTES,
        ),
    ensures
        table_spec(file, declared, offset, count) == match next_header_spec(
            file.len(),
            declared,
            offset,
            count,
        ) {
            Ok(None) => Ok(Seq::empty()),
            Err(e) => Err(e),
            Ok(Some(_)) => match header_step_spec(file.len(), offset, count, header) {
                Ok(entry) => prepend(
                    seq![entry],
                    table_spec(file, declared, (entry.offset + entry.size) as nat, count + 1),
                ),
                Err(e) => Err(e),
            },
        },
{
    if offset < file.len() && count != declared && file.len() - offset >= PACKET_HEADER_BYTES {
        assert(header.subrange(0, 4) =~= file.subrange(offset as int, offset + 4int));
        assert(header.subrange(4, 12) =~= file.subrange(offset + 4int, offset + 12int));
    }
}

/// Builds the packet table of a file read header by header.
pub struct TableReader {
    file_len: usize,
    declared: usize,
    offset: usize,
    packets: Vec<PacketIndex>,
}

impl TableReader {
    /// The size of the file being indexed.
    pub closed spec fn file_len(&self) -> nat {
        self.file_len as nat
    }

    /// The number of packets the file declares.
    pub closed spec fn declared(&self) -> nat {
        self.declared as nat
    }

    /// Where the next packet header starts.
    pub closed spec fn offset(&self) -> nat {
        self.offset as nat
    }

    /// The packets read so far.
    pub closed spec fn table(&self) -> Seq<PacketIndex> {
        self.packets@
    }

    /// The declared count is accepted and not yet exceeded, and reading starts
    /// behind the file header.
    pub closed spec fn wf(&self) -> bool {
        &&& 1 <= self.declared <= MAX_PACKETS
        &&& self.packets.len() <= self.declared
        &&& HEADER_BYTES <= self.offset
    }

    /// Starts indexing a file of `file_len` bytes that declares `declared`
    /// packets; a count outside `1..=MAX_PACKETS` is refused.
    pub fn new(file_len: usize, declared: usize) -> (reader: Result<TableReader, IvfError>)
        ensures
            match reader {
                Ok(r) => {
                    &&& 1 <= declared <= MAX_PACKETS
                    &&& r.wf()
                    &&& r.file_len() == file_len
                    &&& r.declared() == declared
                    &&& r.offset() == HEADER_BYTES
                    &&& r.table() == Seq::<PacketIndex>::empty()
                },
                Err(e) => (declared == 0 || declared > MAX_PACKETS) && e == IvfError::FrameCountRange,
            },
    {
        if declared == 0 || declared > MAX_PACKETS {
            return Err(IvfError::FrameCountRange);
        }
        Ok(TableReader { file_len, declared, offset: HEADER_BYTES, packets: Vec::new() })
    }

    /// Whether the table is complete, which header to read next, or why the
    /// table is refused.
    pub fn next_header(&self) -> (next: Result<Option<usize>, IvfError>)
        requires
            self.wf(),
        ensures
            next == next_header_spec(
                self.file_len(),
                self.declared(),
                self.offset(),
                self.table().len(),
            ),
    {
        let count = self.packets.len();
        if self.offset >= self.file_len {
            if count == self.declared {
                Ok(None)
            } else {
                Err(IvfError::CountMismatch(self.declared, count))
            }
        } else if count == self.declared || self.file_len - self.offset < PACKET_HEADER_BYTES {
            Err(IvfError::FrameTable)
        } else {
            Ok(Some(self.offset))
        }
    }

    /// Takes the 12-byte packet header read where `next_header` pointed:
    /// records its packet and moves behind it, or refuses it and changes
    /// nothing.
    pub fn accept(&mut self, header: &[u8]) -> (accepted: Result<(), IvfError>)
        requires
            old(self).wf(),
            header.len() == PACKET_HEADER_BYTES,
            next_header_spec(
                old(self).file_len(),
                old(self).declared(),
                old(self).offset(),
                old(self).table().len(),
            ) == Ok::<Option<usize>, IvfError>(Some(old(self).offset() as usize)),
        ensures
            final(self).wf(),
            final(self).file_len() == old(self).file_len(),
            final(self).declared() == old(self).declared(),
            match header_step_spec(
                old(self).file_len(),
                old(self).offset(),
                old(self).table().len(),
                header@,
            ) {
                Ok(entry) => {
                    &&& accepted is Ok
                    &&& final(self).table() == old(self).table().push(entry)
                    &&& final(self).offset() == entry.offset + entry.size
                },
                Err(e) => {
                    &&& accepted == Err::<(), IvfError>(e)
                    &&& final(self).table() == old(self).table()
                    &&& final(self).offset() == old(self).offset()
                },
            },
    {
        let count = self.packets.len();
        let size = read_u32(header, 0) as usize;
        let timestamp = read_u64(header, 4);
        let body = self.offset + PACKET_HEADER_BYTES;
        if size == 0 || size > MAX_PACKET_BYTES || size > self.file_len - body {
            return Err(IvfError::InvalidPacket(count));
        }
        if timestamp != count as u64 {
            return Err(IvfError::BadTimestamp(count));
        }
        self.packets.push(PacketIndex { offset: body, size });
        self.offset = body + size;
        Ok(())
    }

    /// The packets read.
    pub fn finish(self) -> (table: Vec<PacketIndex>)
        ensures
            table@ == self.table(),
    {
        self.packets
    }
}

/// Where the header of packet `i` of `table` starts, for a table read from `offset`.
pub open spec fn header_start(table: Seq<PacketIndex>, i: int, offset: nat) -> int {
    if i == 0 {
        offset as int
    } else {
        table[i - 1].offset + table[i - 1].size
    }
}

/// Packet `i` sits right behind its header, which records its size and the
/// timestamp `count + i`.
pub open spec fn packet_fits(
    file: Seq<u8>,
    table: Seq<PacketIndex>,
    i: int,
    offset: nat,
    count: nat,
) -> bool {
    let p = table[i];
    let start = header_start(table, i, offset);
    &&& p.offset == start + PACKET_HEADER_BYTES
    &&& 0 < p.size <= MAX_PACKET_BYTES
    &&& p.offset + p.size <= file.len()
    &&& le_at(file, start, 4) == p.size
    &&& le_at(file, start + 4, 8) == count + i
}

/// A packet table that lays packets end to end from `offset` to the end of
/// the file, each behind its 12-byte header, with valid sizes and sequential
/// timestamps starting at `count`.
pub open spec fn tiles_file(file: Seq<u8>, table: Seq<PacketIndex>, offset: nat, count: nat) -> bool {
    &&& forall|i: int| 0 <= i < table.len() ==> #[trigger] packet_fits(file, table, i, offset, count)
    &&& table.len() == 0 ==> offset >= file.len()
    &&& table.len() > 0 ==> table.last().offset + table.last().size == file.len()
}

/// An accepted packet table covers the file exactly: packets follow each
/// other behind their headers, up to the last byte, and there are as many
/// as declared.
pub proof fn lemma_table_tiles_file(file: Seq<u8>, declared: nat, offset: nat, count: nat)
    requires
        table_spec(file, declared, offset, count) is Ok,
        file.len() <= usize::MAX,
    ensures
        tiles_file(file, table_spec(file, declared, offset, count)->Ok_0, offset, count),
        table_spec(file, declared, offset, count)->Ok_0.len() + count == declared,
    decreases file.len() - offset,
{
    if offset < file.len() {
        let size = le_at(file, offset as int, 4);
        let body = offset + PACKET_HEADER_BYTES;
        let next = (body + size) as nat;
        let entry = PacketIndex { offset: body as usize, size: size as usize };
        let rest_r = table_spec(file, declared, next, count + 1);
        assert(table_spec(file, declared, offset, count) == prepend(seq![entry], rest_r));
        lemma_table_tiles_file(file, declared, next, count + 1);
        let rest = rest_r->Ok_0;
        let table = table_spec(file, declared, offset, count)->Ok_0;
        assert(table == seq![entry] + rest);
        assert(0 < size <= MAX_PACKET_BYTES && size <= file.len() - body);
        assert(le_at(file, offset + 4int, 8) == count);
        assert(table[0] == entry);
        assert(packet_fits(file, table, 0, offset, count));
        assert forall|i: int| 0 <= i < table.len() implies #[trigger] packet_fits(
            file,
            table,
            i,
            offset,
            count,
        ) by {
            if i > 0 {
                assert(packet_fits(file, rest, i - 1, next, count + 1));
                assert(table[i] == rest[i - 1]);
                if i > 1 {
                    assert(table[i - 1] == rest[i - 2]);
                }
                assert(header_start(table, i, offset) == header_start(rest, i - 1, next));
            }
        }
        if rest.len() > 0 {
            assert(table.last() == rest.last());
        }
    }
}

/// The packet index of a validated AV1 IVF file.
pub struct IvfIndex {
    file_bytes: usize,
    packets: Vec<PacketIndex>,
    frame_rate: FrameRate,
}

/// What `IvfIndex::parse` returns for a whole file: a size check, the header,
/// then the packet table of the declared length.
pub open spec fn ivf_spec(file: Seq<u8>) -> Result<(FrameRate, Seq<PacketIndex>), IvfError> {
    if file.len() == 0 || file.len() > MAX_INPUT_BYTES {
        Err(IvfError::InputSize)
    } else if file.len() < HEADER_BYTES {
        Err(IvfError::Truncated)
    } else {
        match header_spec(file.subrange(0, HEADER_BYTES as int)) {
            Err(e) => Err(e),
            Ok(rate) => match index_spec(file, le_at(file, 24, 4)) {
                Err(e) => Err(e),
                Ok(table) => Ok((rate, table)),
            },
        }
    }
}

impl IvfIndex {
    /// The declared frame rate.
    pub closed spec fn rate(&self) -> FrameRate {
        self.frame_rate
    }

    /// The packet table.
    pub closed spec fn table(&self) -> Seq<PacketIndex> {
        self.packets@
    }

    /// The size of the indexed file.
    pub closed spec fn file_len(&self) -> nat {
        self.file_bytes as nat
    }

    /// Validates a whole IVF file and indexes its packets.
    pub fn parse(file: &[u8]) -> (index: Result<IvfIndex, IvfError>)
        ensures
            match index {
                Ok(index) => ivf_spec(file@) == Ok::<(FrameRate, Seq<PacketIndex>), IvfError>(
                    (index.rate(), index.table()),
                ) && index.file_len() == file@.len(),
                Err(e) => ivf_spec(file@) == Err::<(FrameRate, Seq<PacketIndex>), IvfError>(e),
            },
    {
        if file.len() == 0 || file.len() as u64 > MAX_INPUT_BYTES {
            return Err(IvfError::InputSize);
        }
        if file.len() < HEADER_BYTES {
            return Err(IvfError::Truncated);
        }
        let mut header: Vec<u8> = Vec::new();
        let mut i: usize = 0;
        while i < HEADER_BYTES
            invariant
                i <= HEADER_BYTES <= file.len(),
                header@ == file@.subrange(0, i as int),
            decreases HEADER_BYTES - i,
        {
            header.push(file[i]);
            i = i + 1;
            assert(header@ =~= file@.subrange(0, i as int));
        }
        let frame_rate = match validate_header(header.as_slice()) {
            Ok(rate) => rate,
            Err(e) => return Err(e),
        };
        let declared = read_u32(file, 24) as usize;
        match index_packets(file, declared) {
            Ok(packets) => Ok(IvfIndex { file_bytes: file.len(), packets, frame_rate }),
            Err(e) => Err(e),
        }
    }

    /// The index of a file read piecewise: its frame rate from the header and
    /// the table a reader completed.
    pub fn from_reader(frame_rate: FrameRate, reader: TableReader) -> (index: IvfIndex)
        requires
            reader.wf(),
            next_header_spec(
                reader.file_len(),
                reader.declared(),
                reader.offset(),
                reader.table().len(),
            ) == Ok::<Option<usize>, IvfError>(None),
        ensures
            index.rate() == frame_rate,
            index.table() == reader.table(),
            index.file_len() == reader.file_len(),
    {
        let file_bytes = reader.file_len;
        IvfIndex { file_bytes, packets: reader.finish(), frame_rate }
    }

    /// Number of packets.
    pub fn packet_count(&self) -> (n: usize)
        ensures
            n == self.table().len(),
    {
        self.packets.len()
    }

    /// The declared frame rate.
    pub fn frame_rate(&self) -> (rate: FrameRate)
        ensures
            rate == self.rate(),
    {
        self.frame_rate
    }

    /// Size of the indexed file.
    pub fn source_bytes(&self) -> (n: usize)
        ensures
            n == self.file_len(),
    {
        self.file_bytes
    }

    /// Where packet `index` lies in the file.
    pub fn packet_at(&self, index: usize) -> (entry: PacketIndex)
        requires
            index < self.table().len(),
        ensures
            entry == self.table()[index as int],
    {
        self.packets[index]
    }
}

/// A header is accepted exactly when it starts with `DKIF`, version 0, header
/// size 32 and codec `AV01`, declares nonzero width and height, and declares
/// an accepted rate (bytes 16..20 over bytes 20..24, little-endian); a bad
/// signature is reported before zero dimensions, and those before the rate.
pub proof fn lemma_header_acceptance(h: Seq<u8>)
    requires
        h.len() == HEADER_BYTES,
    ensures
        ({
            let signature_ok = h[0] == 0x44 && h[1] == 0x4b && h[2] == 0x49 && h[3] == 0x46
                && h[4] == 0 && h[5] == 0 && h[6] == 32 && h[7] == 0 && h[8] == 0x41 && h[9]
                == 0x56 && h[10] == 0x30 && h[11] == 0x31;
            let dims_ok = (h[12] != 0 || h[13] != 0) && (h[14] != 0 || h[15] != 0);
            &&& !signature_ok ==> header_spec(h) == Err::<FrameRate, IvfError>(
                IvfError::InvalidHeader,
            )
            &&& (signature_ok && !dims_ok) ==> header_spec(h) == Err::<FrameRate, IvfError>(
                IvfError::ZeroDimensions,
            )
            &&& (signature_ok && dims_ok) ==> header_spec(h) == match rate_spec(
                le_at(h, 16, 4) as u32,
                le_at(h, 20, 4) as u32,
            ) {
                Ok(r) => Ok(r),
                Err(e) => Err(IvfError::Rate(e)),
            }
        }),
{
    let sig = seq![0x44u8, 0x4bu8, 0x49u8, 0x46u8];
    let codec = seq![0x41u8, 0x56u8, 0x30u8, 0x31u8];
    assert(h.subrange(0, 4) == sig <==> (h[0] == 0x44 && h[1] == 0x4b && h[2] == 0x49 && h[3]
        == 0x46)) by {
        if h[0] == 0x44 && h[1] == 0x4b && h[2] == 0x49 && h[3] == 0x46 {
            assert(h.subrange(0, 4) =~= sig);
        }
        if h.subrange(0, 4) == sig {
            assert(h.subrange(0, 4)[0] == h[0]);
            assert(h.subrange(0, 4)[1] == h[1]);
            assert(h.subrange(0, 4)[2] == h[2]);
            assert(h.subrange(0, 4)[3] == h[3]);
        }
    }
    assert(h.subrange(8, 12) == codec <==> (h[8] == 0x41 && h[9] == 0x56 && h[10] == 0x30 && h[11]
        == 0x31)) by {
        if h[8] == 0x41 && h[9] == 0x56 && h[10] == 0x30 && h[11] == 0x31 {
            assert(h.subrange(8, 12) =~= codec);
        }
        if h.subrange(8, 12) == codec {
            assert(h.subrange(8, 12)[0] == h[8]);
            assert(h.subrange(8, 12)[1] == h[9]);
            assert(h.subrange(8, 12)[2] == h[10]);
            assert(h.subrange(8, 12)[3] == h[11]);
        }
    }
    lemma_le_step(h, 4, 2);
    lemma_le_step(h, 5, 1);
    lemma_le_empty(h, 6);
    lemma_le_step(h, 6, 2);
    lemma_le_step(h, 7, 1);
    lemma_le_empty(h, 8);
    lemma_le_step(h, 12, 2);
    lemma_le_step(h, 13, 1);
    lemma_le_empty(h, 14);
    lemma_le_step(h, 14, 2);
    lemma_le_step(h, 15, 1);
    lemma_le_empty(h, 16);
}

} // verus!
