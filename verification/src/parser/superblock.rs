//! The QNX6 superblock: its fixed header and its three root nodes.
use crate::text::{
    decimal, digit_value, hex, hex_byte, lemma_hex_byte_decodes, push_decimal, push_hex,
    push_hex_byte,
};
use vstd::prelude::*;
use vstd::slice::slice_subrange;
use vstd::string::*;

verus! {

/// The number of bytes that a QNX6 superblock occupies on disk.
pub const SUPERBLOCK_SIZE: usize = 1000;

/// The number of bytes of the fixed fields before the root nodes.
pub const SUPERBLOCK_HEADER_SIZE: usize = 72;

/// The number of bytes of one root node.
pub const ROOT_NODE_SIZE: usize = 80;

/// The least number of bytes that a superblock is parsed from: the header and three root nodes.
pub const SUPERBLOCK_MIN_LEN: usize = 312;

/// The little-endian value of the two bytes of `b` at `at`.
pub open spec fn le_u16(b: Seq<u8>, at: int) -> int {
    b[at] + 256 * b[at + 1]
}

/// The little-endian value of the four bytes of `b` at `at`.
pub open spec fn le_u32(b: Seq<u8>, at: int) -> int {
    le_u16(b, at) + 65536 * le_u16(b, at + 2)
}

/// The little-endian value of the eight bytes of `b` at `at`.
pub open spec fn le_u64(b: Seq<u8>, at: int) -> int {
    le_u32(b, at) + 4294967296 * le_u32(b, at + 4)
}

/// The text of a 16-byte volume id: lower-case hexadecimal bytes in stored order,
/// grouped 4-2-2-2-6 and joined by dashes.
pub open spec fn uuid_text(b: Seq<u8>) -> Seq<char> {
    hex_byte(b[0], false) + hex_byte(b[1], false) + hex_byte(b[2], false) + hex_byte(b[3], false)
        + seq!['-'] + hex_byte(b[4], false) + hex_byte(b[5], false) + seq!['-'] + hex_byte(
        b[6],
        false,
    ) + hex_byte(b[7], false) + seq!['-'] + hex_byte(b[8], false) + hex_byte(b[9], false)
        + seq!['-'] + hex_byte(b[10], false) + hex_byte(b[11], false) + hex_byte(b[12], false)
        + hex_byte(b[13], false) + hex_byte(b[14], false) + hex_byte(b[15], false)
}

/// The message of a read of `n` bytes at `offset` that runs past the end of the data.
pub open spec fn short_read_message(n: nat, offset: nat) -> Seq<char> {
    "expected "@ + decimal(n) + " bytes at superblock offset 0x"@ + hex(offset, false)
}

/// The message of a superblock parse from fewer than `SUPERBLOCK_MIN_LEN` bytes.
pub open spec fn too_small_message(len: nat) -> Seq<char> {
    "superblock data is too small: expected at least 312 bytes, got "@ + decimal(len)
}

/// The message of a root node parse from a slice of the wrong length.
pub open spec fn root_node_length_message() -> Seq<char> {
    "root node must be 80 bytes"@
}

/// One root node of a superblock, kept as its raw bytes.
#[derive(Debug, Clone, Copy, PartialEq, Eq)]
pub struct RootNode {
    pub raw: [u8; ROOT_NODE_SIZE],
}

/// The fields of a QNX6 superblock.
#[derive(Debug, Clone, PartialEq, Eq)]
pub struct SuperBlock {
    pub magic: u32,
    pub checksum: u32,
    pub serial: u64,
    pub c_time: u32,
    pub a_time: u32,
    pub flags: u32,
    pub version1: u16,
    pub version2: u16,
    pub volumeid: String,
    pub block_size: u32,
    pub num_of_inodes: u32,
    pub free_inodes: u32,
    pub num_of_blocks: u32,
    pub free_blocks: u32,
    pub alloc_groups: u32,
    pub root_node_inode: RootNode,
    pub root_node_bitmap: RootNode,
    pub root_node_longfilename: RootNode,
}

/// A superblock as plain values.
pub struct SuperBlockView {
    pub magic: u32,
    pub checksum: u32,
    pub serial: u64,
    pub c_time: u32,
    pub a_time: u32,
    pub flags: u32,
    pub version1: u16,
    pub version2: u16,
    pub volumeid: Seq<char>,
    pub block_size: u32,
    pub num_of_inodes: u32,
    pub free_inodes: u32,
    pub num_of_blocks: u32,
    pub free_blocks: u32,
    pub alloc_groups: u32,
    pub root_node_inode: Seq<u8>,
    pub root_node_bitmap: Seq<u8>,
    pub root_node_longfilename: Seq<u8>,
}

impl View for SuperBlock {
    type V = SuperBlockView;

    open spec fn view(&self) -> SuperBlockView {
        SuperBlockView {
            magic: self.magic,
            checksum: self.checksum,
            serial: self.serial,
            c_time: self.c_time,
            a_time: self.a_time,
            flags: self.flags,
            version1: self.version1,
            version2: self.version2,
            volumeid: self.volumeid@,
            block_size: self.block_size,
            num_of_inodes: self.num_of_inodes,
            free_inodes: self.free_inodes,
            num_of_blocks: self.num_of_blocks,
            free_blocks: self.free_blocks,
            alloc_groups: self.alloc_groups,
            root_node_inode: self.root_node_inode.raw@,
            root_node_bitmap: self.root_node_bitmap.raw@,
            root_node_longfilename: self.root_node_longfilename.raw@,
        }
    }
}

/// The superblock that the bytes `d` (at least `SUPERBLOCK_MIN_LEN` of them) hold.
pub open spec fn superblock_of(d: Seq<u8>) -> SuperBlockView {
    SuperBlockView {
        magic: le_u32(d, 0) as u32,
        checksum: le_u32(d, 4) as u32,
        serial: le_u64(d, 8) as u64,
        c_time: le_u32(d, 16) as u32,
        a_time: le_u32(d, 20) as u32,
        flags: le_u32(d, 24) as u32,
        version1: le_u16(d, 28) as u16,
        version2: le_u16(d, 30) as u16,
        volumeid: uuid_text(d.subrange(32, 48)),
        block_size: le_u32(d, 48) as u32,
        num_of_inodes: le_u32(d, 52) as u32,
        free_inodes: le_u32(d, 56) as u32,
        num_of_blocks: le_u32(d, 60) as u32,
        free_blocks: le_u32(d, 64) as u32,
        alloc_groups: le_u32(d, 68) as u32,
        root_node_inode: d.subrange(72, 152),
        root_node_bitmap: d.subrange(152, 232),
        root_node_longfilename: d.subrange(232, 312),
    }
}

/// The one-line summary of a superblock.
pub open spec fn superblock_text(v: SuperBlockView) -> Seq<char> {
    "<SuperBlock magic=0x"@ + hex(v.magic as nat, true) + ", volumeid="@ + v.volumeid
        + ", serial="@ + decimal(v.serial as nat) + ", block_size="@ + decimal(
        v.block_size as nat,
    ) + ", inodes="@ + decimal(v.num_of_inodes as nat) + ", blocks="@ + decimal(
        v.num_of_blocks as nat,
    ) + ">"@
}

impl SuperBlock {
    /// Parses a superblock from the start of `data`; fails exactly when `data` is shorter
    /// than `SUPERBLOCK_MIN_LEN`.
    pub fn parse(data: &[u8]) -> (r: Result<SuperBlock, String>)
        ensures
            match r {
                Ok(sb) => {
                    &&& data@.len() >= SUPERBLOCK_MIN_LEN
                    &&& sb@ == superblock_of(data@)
                    &&& sb.magic == data@[0] + 256 * data@[1] + 65536 * data@[2] + 16777216
                        * data@[3]
                    &&& sb.block_size == data@[48] + 256 * data@[49] + 65536 * data@[50]
                        + 16777216 * data@[51]
                    &&& sb.num_of_inodes == data@[52] + 256 * data@[53] + 65536 * data@[54]
                        + 16777216 * data@[55]
                    &&& sb.num_of_blocks == data@[60] + 256 * data@[61] + 65536 * data@[62]
                        + 16777216 * data@[63]
                    &&& sb.serial == data@[8] + 256 * data@[9] + 65536 * data@[10] + 16777216
                        * data@[11] + 4294967296 * data@[12] + 1099511627776 * data@[13]
                        + 281474976710656 * data@[14] + 72057594037927936 * data@[15]
                },
                Err(e) => data@.len() < SUPERBLOCK_MIN_LEN && e@ == too_small_message(
                    data@.len(),
                ),
            },
    {
        if data.len() < SUPERBLOCK_HEADER_SIZE + ROOT_NODE_SIZE * 3 {
            let mut message = String::new();
            message.append("superblock data is too small: expected at least 312 bytes, got ");
            push_decimal(&mut message, data.len() as u64);
            return Err(message);
        }
        let volumeid_raw = match read_array::<16>(data, 32) {
            Ok(a) => a,
            Err(e) => return Err(e),
        };
        let magic = match read_u32_le(data, 0) { Ok(v) => v, Err(e) => return Err(e) };
        let checksum = match read_u32_le(data, 4) { Ok(v) => v, Err(e) => return Err(e) };
        let serial = match read_u64_le(data, 8) { Ok(v) => v, Err(e) => return Err(e) };
        let c_time = match read_u32_le(data, 16) { Ok(v) => v, Err(e) => return Err(e) };
        let a_time = match read_u32_le(data, 20) { Ok(v) => v, Err(e) => return Err(e) };
        let flags = match read_u32_le(data, 24) { Ok(v) => v, Err(e) => return Err(e) };
        let version1 = match read_u16_le(data, 28) { Ok(v) => v, Err(e) => return Err(e) };
        let version2 = match read_u16_le(data, 30) { Ok(v) => v, Err(e) => return Err(e) };
        let volumeid = format_uuid(volumeid_raw);
        let block_size = match read_u32_le(data, 48) { Ok(v) => v, Err(e) => return Err(e) };
        let num_of_inodes = match read_u32_le(data, 52) { Ok(v) => v, Err(e) => return Err(e) };
        let free_inodes = match read_u32_le(data, 56) { Ok(v) => v, Err(e) => return Err(e) };
        let num_of_blocks = match read_u32_le(data, 60) { Ok(v) => v, Err(e) => return Err(e) };
        let free_blocks = match read_u32_le(data, 64) { Ok(v) => v, Err(e) => return Err(e) };
        let alloc_groups = match read_u32_le(data, 68) { Ok(v) => v, Err(e) => return Err(e) };
        let root_node_inode = match RootNode::parse(slice_subrange(data, 72, 152)) {
            Ok(n) => n,
            Err(e) => return Err(e),
        };
        let root_node_bitmap = match RootNode::parse(slice_subrange(data, 152, 232)) {
            Ok(n) => n,
            Err(e) => return Err(e),
        };
        let root_node_longfilename = match RootNode::parse(slice_subrange(data, 232, 312)) {
            Ok(n) => n,
            Err(e) => return Err(e),
        };
        proof {
            assert(volumeid_raw@ =~= data@.subrange(32, 48));
            lemma_superblock_fields_are_little_endian(data@);
        }
        Ok(SuperBlock {
            magic,
            checksum,
            serial,
            c_time,
            a_time,
            flags,
            version1,
            version2,
            volumeid,
            block_size,
            num_of_inodes,
            free_inodes,
            num_of_blocks,
            free_blocks,
            alloc_groups,
            root_node_inode,
            root_node_bitmap,
            root_node_longfilename,
        })
    }

    /// The one-line summary of this superblock.
    pub fn display_string(&self) -> (s: String)
        ensures
            s@ == superblock_text(self@),
    {
        let mut s = String::new();
        s.append("<SuperBlock magic=0x");
        push_hex(&mut s, self.magic as u64, true);
        s.append(", volumeid=");
        s.append(self.volumeid.as_str());
        s.append(", serial=");
        push_decimal(&mut s, self.serial);
        s.append(", block_size=");
        push_decimal(&mut s, self.block_size as u64);
        s.append(", inodes=");
        push_decimal(&mut s, self.num_of_inodes as u64);
        s.append(", blocks=");
        push_decimal(&mut s, self.num_of_blocks as u64);
        s.append(">");
        s
    }
}

impl RootNode {
    /// Takes a root node from a slice of exactly `ROOT_NODE_SIZE` bytes.
    pub fn parse(data: &[u8]) -> (r: Result<RootNode, String>)
        ensures
            match r {
                Ok(node) => data@.len() == ROOT_NODE_SIZE && node.raw@ == data@,
                Err(e) => data@.len() != ROOT_NODE_SIZE && e@ == root_node_length_message(),
            },
    {
        if data.len() != ROOT_NODE_SIZE {
            let mut message = String::new();
            message.append("root node must be 80 bytes");
            return Err(message);
        }
        let mut raw = [0u8; ROOT_NODE_SIZE];
        let mut i: usize = 0;
        while i < ROOT_NODE_SIZE
            invariant
                i <= ROOT_NODE_SIZE,
                data@.len() == ROOT_NODE_SIZE,
                raw@.len() == ROOT_NODE_SIZE,
                forall|j: int| 0 <= j < i ==> raw@[j] == data@[j],
            decreases ROOT_NODE_SIZE - i,
        {
            raw[i] = data[i];
            i = i + 1;
        }
        assert(raw@ =~= data@);
        Ok(RootNode { raw })
    }
}

/// Reads the little-endian `u16` at `offset`.
pub fn read_u16_le(data: &[u8], offset: usize) -> (r: Result<u16, String>)
    requires
        offset + 2 <= usize::MAX,
    ensures
        match r {
            Ok(v) => offset + 2 <= data@.len() && v == le_u16(data@, offset as int),
            Err(e) => offset + 2 > data@.len() && e@ == short_read_message(2, offset as nat),
        },
{
    match read_array::<2>(data, offset) {
        Ok(b) => Ok(b[0] as u16 + 256 * (b[1] as u16)),
        Err(e) => Err(e),
    }
}

/// Reads the little-endian `u32` at `offset`.
pub fn read_u32_le(data: &[u8], offset: usize) -> (r: Result<u32, String>)
    requires
        offset + 4 <= usize::MAX,
    ensures
        match r {
            Ok(v) => offset + 4 <= data@.len() && v == le_u32(data@, offset as int),
            Err(e) => offset + 4 > data@.len() && e@ == short_read_message(4, offset as nat),
        },
{
    match read_array::<4>(data, offset) {
        Ok(b) => Ok(b[0] as u32 + 256 * (b[1] as u32) + 65536 * (b[2] as u32) + 16777216 * (
        b[3] as u32)),
        Err(e) => Err(e),
    }
}

/// Reads the little-endian `u64` at `offset`.
pub fn read_u64_le(data: &[u8], offset: usize) -> (r: Result<u64, String>)
    requires
        offset + 8 <= usize::MAX,
    ensures
        match r {
            Ok(v) => offset + 8 <= data@.len() && v == le_u64(data@, offset as int),
            Err(e) => offset + 8 > data@.len() && e@ == short_read_message(8, offset as nat),
        },
{
    match read_array::<8>(data, offset) {
        Ok(b) => {
            let low = b[0] as u64 + 256 * (b[1] as u64) + 65536 * (b[2] as u64) + 16777216 * (
            b[3] as u64);
            let high = b[4] as u64 + 256 * (b[5] as u64) + 65536 * (b[6] as u64) + 16777216 * (
            b[7] as u64);
            Ok(low + 4294967296 * high)
        },
        Err(e) => Err(e),
    }
}

/// Copies the `N` bytes at `offset`, or fails when they run past the end of `data`.
pub fn read_array<const N: usize>(data: &[u8], offset: usize) -> (r: Result<[u8; N], String>)
    requires
        offset + N <= usize::MAX,
    ensures
        match r {
            Ok(a) => offset + N <= data@.len() && a@ == data@.subrange(
                offset as int,
                offset + N,
            ),
            Err(e) => offset + N > data@.len() && e@ == short_read_message(
                N as nat,
                offset as nat,
            ),
        },
{
    if offset + N > data.len() {
        let mut message = String::new();
        message.append("expected ");
        push_decimal(&mut message, N as u64);
        message.append(" bytes at superblock offset 0x");
        push_hex(&mut message, offset as u64, false);
        return Err(message);
    }
    let mut bytes = [0u8; N];
    let mut i: usize = 0;
    while i < N
        invariant
            i <= N,
            offset + N <= data@.len(),
            offset + N <= usize::MAX,
            bytes@.len() == N,
            forall|j: int| 0 <= j < i ==> bytes@[j] == data@[offset + j],
        decreases N - i,
    {
        bytes[i] = data[offset + i];
        i = i + 1;
    }
    assert(bytes@ =~= data@.subrange(offset as int, offset + N));
    Ok(bytes)
}

/// Renders a 16-byte volume id as text.
pub fn format_uuid(bytes: [u8; 16]) -> (s: String)
    ensures
        s@ == uuid_text(bytes@),
{
    proof {
        reveal_strlit("-");
    }
    let mut s = String::new();
    push_hex_byte(&mut s, bytes[0], false);
    push_hex_byte(&mut s, bytes[1], false);
    push_hex_byte(&mut s, bytes[2], false);
    push_hex_byte(&mut s, bytes[3], false);
    s.append("-");
    push_hex_byte(&mut s, bytes[4], false);
    push_hex_byte(&mut s, bytes[5], false);
    s.append("-");
    push_hex_byte(&mut s, bytes[6], false);
    push_hex_byte(&mut s, bytes[7], false);
    s.append("-");
    push_hex_byte(&mut s, bytes[8], false);
    push_hex_byte(&mut s, bytes[9], false);
    s.append("-");
    push_hex_byte(&mut s, bytes[10], false);
    push_hex_byte(&mut s, bytes[11], false);
    push_hex_byte(&mut s, bytes[12], false);
    push_hex_byte(&mut s, bytes[13], false);
    push_hex_byte(&mut s, bytes[14], false);
    push_hex_byte(&mut s, bytes[15], false);
    s
}

/// A superblock depends on its first `SUPERBLOCK_MIN_LEN` bytes only: two buffers that agree
/// on them hold the same superblock, whatever follows.
pub proof fn lemma_superblock_reads_only_its_first_bytes(d1: Seq<u8>, d2: Seq<u8>)
    requires
        d1.len() >= SUPERBLOCK_MIN_LEN,
        d2.len() >= SUPERBLOCK_MIN_LEN,
        d1.subrange(0, SUPERBLOCK_MIN_LEN as int) == d2.subrange(0, SUPERBLOCK_MIN_LEN as int),
    ensures
        superblock_of(d1) == superblock_of(d2),
{
    let n = SUPERBLOCK_MIN_LEN as int;
    assert forall|i: int| 0 <= i < n implies d1[i] == d2[i] by {
        assert(d1.subrange(0, n)[i] == d2.subrange(0, n)[i]);
    }
    assert(d1.subrange(32, 48) =~= d2.subrange(32, 48));
    assert(d1.subrange(72, 152) =~= d2.subrange(72, 152));
    assert(d1.subrange(152, 232) =~= d2.subrange(152, 232));
    assert(d1.subrange(232, 312) =~= d2.subrange(232, 312));
}

/// A volume id renders as 36 characters with dashes after the 4th, 6th, 8th and 10th byte.
pub proof fn lemma_uuid_text_shape(b: Seq<u8>)
    requires
        b.len() == 16,
    ensures
        uuid_text(b).len() == 36,
        uuid_text(b)[8] == '-',
        uuid_text(b)[13] == '-',
        uuid_text(b)[18] == '-',
        uuid_text(b)[23] == '-',
{
}

/// Where the two digits of byte `k` of a volume id start in its text.
pub open spec fn uuid_byte_position(k: int) -> int {
    2 * k + (if k >= 4 { 1int } else { 0 }) + (if k >= 6 { 1int } else { 0 }) + (if k >= 8 {
        1int
    } else {
        0
    }) + (if k >= 10 { 1int } else { 0 })
}

/// The byte whose two hexadecimal digits start at `pos` of text `t`.
pub open spec fn decoded_byte(t: Seq<char>, pos: int) -> int {
    16 * digit_value(t[pos]) + digit_value(t[pos + 1])
}

/// Reading the text of a volume id back, two digits per byte with the dashes skipped, gives
/// the bytes.
pub proof fn lemma_uuid_text_decodes(b: Seq<u8>)
    requires
        b.len() == 16,
    ensures
        forall|k: int| 0 <= k < 16 ==> decoded_byte(uuid_text(b), uuid_byte_position(k)) == #[trigger] b[k],
{
    let t = uuid_text(b);
    assert forall|k: int| 0 <= k < 16 implies decoded_byte(t, uuid_byte_position(k)) == #[trigger] b[k] by {
        lemma_hex_byte_decodes(b[k], false);
        let h = hex_byte(b[k], false);
        let p = uuid_byte_position(k);
        assert(t[p] == h[0] && t[p + 1] == h[1]) by {
            lemma_uuid_text_digits(b, k);
        }
    }
}

/// The two digits of byte `k` of a volume id stand at `uuid_byte_position(k)` of its text.
proof fn lemma_uuid_text_digits(b: Seq<u8>, k: int)
    requires
        b.len() == 16,
        0 <= k < 16,
    ensures
        uuid_text(b)[uuid_byte_position(k)] == hex_byte(b[k], false)[0],
        uuid_text(b)[uuid_byte_position(k) + 1] == hex_byte(b[k], false)[1],
{
    let t = uuid_text(b);
    let h = |i: int| hex_byte(b[i], false);
    let d = seq!['-'];
    let expanded = h(0) + h(1) + h(2) + h(3) + d + h(4) + h(5) + d + h(6) + h(7) + d + h(8) + h(9)
        + d + h(10) + h(11) + h(12) + h(13) + h(14) + h(15);
    assert(t == expanded);
    assert(t.len() == 36);
}

/// Distinct volume ids render as distinct text.
pub proof fn lemma_uuid_text_injective(a: Seq<u8>, b: Seq<u8>)
    requires
        a.len() == 16,
        b.len() == 16,
        uuid_text(a) == uuid_text(b),
    ensures
        a == b,
{
    lemma_uuid_text_decodes(a);
    lemma_uuid_text_decodes(b);
    assert forall|k: int| 0 <= k < 16 implies a[k] == b[k] by {
        assert(decoded_byte(uuid_text(a), uuid_byte_position(k)) == a[k]);
        assert(decoded_byte(uuid_text(b), uuid_byte_position(k)) == b[k]);
    }
    assert(a =~= b);
}

/// Every field of a superblock is the little-endian integer of its full width at its fixed
/// offset, the volume id is the text of bytes 32 to 48, and the root nodes are bytes 72 to
/// 312 in three runs of 80.
pub proof fn lemma_superblock_fields_are_little_endian(d: Seq<u8>)
    requires
        d.len() >= SUPERBLOCK_MIN_LEN,
    ensures
        superblock_of(d).magic == d[0] + 256 * d[1] + 65536 * d[2] + 16777216 * d[3],
        superblock_of(d).checksum == d[4] + 256 * d[5] + 65536 * d[6] + 16777216 * d[7],
        superblock_of(d).serial == d[8] + 256 * d[9] + 65536 * d[10] + 16777216 * d[11]
            + 4294967296 * d[12] + 1099511627776 * d[13] + 281474976710656 * d[14]
            + 72057594037927936 * d[15],
        superblock_of(d).c_time == d[16] + 256 * d[17] + 65536 * d[18] + 16777216 * d[19],
        superblock_of(d).a_time == d[20] + 256 * d[21] + 65536 * d[22] + 16777216 * d[23],
        superblock_of(d).flags == d[24] + 256 * d[25] + 65536 * d[26] + 16777216 * d[27],
        superblock_of(d).version1 == d[28] + 256 * d[29],
        superblock_of(d).version2 == d[30] + 256 * d[31],
        superblock_of(d).volumeid == uuid_text(d.subrange(32, 48)),
        superblock_of(d).block_size == d[48] + 256 * d[49] + 65536 * d[50] + 16777216 * d[51],
        superblock_of(d).num_of_inodes == d[52] + 256 * d[53] + 65536 * d[54] + 16777216 * d[55],
        superblock_of(d).free_inodes == d[56] + 256 * d[57] + 65536 * d[58] + 16777216 * d[59],
        superblock_of(d).num_of_blocks == d[60] + 256 * d[61] + 65536 * d[62] + 16777216 * d[63],
        superblock_of(d).free_blocks == d[64] + 256 * d[65] + 65536 * d[66] + 16777216 * d[67],
        superblock_of(d).alloc_groups == d[68] + 256 * d[69] + 65536 * d[70] + 16777216 * d[71],
        superblock_of(d).root_node_inode == d.subrange(72, 152),
        superblock_of(d).root_node_bitmap == d.subrange(152, 232),
        superblock_of(d).root_node_longfilename == d.subrange(232, 312),
{
}

} // verus!
