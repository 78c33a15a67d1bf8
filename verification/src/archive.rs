//! Archives as lists of blocks, and what a scan of their bytes yields.
//!
//! [`crate::scan::candidates`] says what a stream of bytes yields. This
//! module goes the other way: it lays out a list of well-formed blocks as
//! bytes and shows that the scan finds in them the names of the directory
//! entries of the list, and so exactly one name where the list holds exactly
//! one such entry.

use crate::header::entry_of;
use crate::header::header_at;
use crate::header::service_skip;
use crate::header::ScanError;
use crate::header::PREFIX_LEN;
use crate::header::TAG_END;
use crate::header::TAG_ENTRY;
use crate::header::TAG_FIRST;
use crate::header::TAG_SERVICE;
use crate::scan::blocks_from;
use crate::scan::candidates;
use crate::scan::scan;
use crate::walker::signature;
use crate::walker::single;
use crate::walker::with_candidate;
use vstd::prelude::*;

verus! {

/// A block of an archive, other than the block that ends it.
pub struct Block {
    /// The first, unused field of the prefix.
    pub check: u16,
    /// The type tag.
    pub tag: u8,
    /// The flags.
    pub flags: u16,
    /// The bytes of the header behind the prefix.
    pub body: Seq<u8>,
    /// The bytes between the header and the next block: the packed data of
    /// an entry, or the payload of a service block.
    pub payload: Seq<u8>,
}

/// The two bytes of a 16-bit integer, low byte first.
pub open spec fn le16_bytes(v: u16) -> Seq<u8> {
    seq![(v % 0x100) as u8, (v / 0x100) as u8]
}

/// The prefix of a block whose header holds `body_len` bytes behind it.
pub open spec fn prefix_bytes(check: u16, tag: u8, flags: u16, body_len: int) -> Seq<u8> {
    le16_bytes(check) + seq![tag] + le16_bytes(flags) + le16_bytes((body_len + PREFIX_LEN) as u16)
}

/// The bytes of a block: prefix, rest of the header, payload.
pub open spec fn block_bytes(b: Block) -> Seq<u8> {
    prefix_bytes(b.check, b.tag, b.flags, b.body.len() as int) + b.body + b.payload
}

/// Whether a block is one that a scan passes: its header fits its size
/// field, its tag is known, and where it is an entry or a service block, its
/// header decodes and gives the length of its payload.
pub open spec fn well_formed(b: Block) -> bool {
    &&& b.body.len() + PREFIX_LEN <= 0xFFFF
    &&& TAG_FIRST <= b.tag < TAG_END
    &&& if b.tag == TAG_ENTRY {
        entry_of(b.body, b.flags) matches Ok(entry) && entry.packed_size == b.payload.len()
    } else if b.tag == TAG_SERVICE {
        service_skip(b.body) matches Ok(skip) && skip == b.payload.len()
    } else {
        b.payload.len() == 0
    }
}

/// The name that a block adds to the result of a scan: its own, where it is
/// the entry of a directory without a backslash in its name.
pub open spec fn block_names(b: Block) -> Seq<Seq<char>> {
    if b.tag == TAG_ENTRY {
        with_candidate(Seq::empty(), entry_of(b.body, b.flags)->Ok_0.candidate)
    } else {
        Seq::empty()
    }
}

/// The bytes of a list of blocks, one behind the other.
pub open spec fn blocks_bytes(blocks: Seq<Block>) -> Seq<u8>
    decreases blocks.len(),
{
    if blocks.len() == 0 {
        Seq::empty()
    } else {
        block_bytes(blocks[0]) + blocks_bytes(blocks.drop_first())
    }
}

/// The names that a list of blocks adds to the result of a scan.
pub open spec fn blocks_names(blocks: Seq<Block>) -> Seq<Seq<char>>
    decreases blocks.len(),
{
    if blocks.len() == 0 {
        Seq::empty()
    } else {
        block_names(blocks[0]) + blocks_names(blocks.drop_first())
    }
}

/// The bytes of an archive: the signature, the blocks, the prefix `end` of
/// the block that ends the archive, and whatever follows it.
pub open spec fn archive_bytes(blocks: Seq<Block>, end: Seq<u8>, tail: Seq<u8>) -> Seq<u8> {
    signature() + (blocks_bytes(blocks) + (end + tail))
}

/// The prefix that `prefix_bytes` lays out decodes to the fields it was
/// laid out from.
proof fn lemma_prefix_decodes(check: u16, tag: u8, flags: u16, body_len: int, rest: Seq<u8>)
    requires
        0 <= body_len,
        body_len + PREFIX_LEN <= 0xFFFF,
    ensures
        prefix_bytes(check, tag, flags, body_len).len() == PREFIX_LEN,
        header_at(prefix_bytes(check, tag, flags, body_len) + rest, 0).tag == tag,
        header_at(prefix_bytes(check, tag, flags, body_len) + rest, 0).flags == flags,
        header_at(prefix_bytes(check, tag, flags, body_len) + rest, 0).size == body_len
            + PREFIX_LEN,
{
    let p = prefix_bytes(check, tag, flags, body_len);
    let size = (body_len + PREFIX_LEN) as u16;
    assert(p =~= seq![
        (check % 0x100) as u8,
        (check / 0x100) as u8,
        tag,
        (flags % 0x100) as u8,
        (flags / 0x100) as u8,
        (size % 0x100) as u8,
        (size / 0x100) as u8,
    ]);
    let data = p + rest;
    assert(data[2] == p[2] && data[3] == p[3] && data[4] == p[4] && data[5] == p[5] && data[6]
        == p[6]);
}

/// Bytes in front of a stream do not change what a scan finds in it.
proof fn lemma_scan_behind(front: Seq<u8>, data: Seq<u8>, at: int)
    requires
        0 <= at,
        blocks_from(data, at) is Ok,
    ensures
        blocks_from(front + data, front.len() + at) == blocks_from(data, at),
    decreases data.len() - at,
{
    let whole = front + data;
    let to = front.len() + at;
    let h = header_at(data, at);
    assert(header_at(whole, to) == h) by {
        assert(whole[to + 2] == data[at + 2]);
        assert(whole[to + 3] == data[at + 3]);
        assert(whole[to + 4] == data[at + 4]);
        assert(whole[to + 5] == data[at + 5]);
        assert(whole[to + 6] == data[at + 6]);
    }
    if h.tag != TAG_END {
        if h.tag == TAG_ENTRY || h.tag == TAG_SERVICE {
            assert(whole.subrange(to + PREFIX_LEN, to + h.size) =~= data.subrange(
                at + PREFIX_LEN,
                at + h.size,
            ));
        }
        let body = data.subrange(at + PREFIX_LEN, at + h.size);
        let next = if h.tag == TAG_ENTRY {
            at + h.size + entry_of(body, h.flags)->Ok_0.packed_size
        } else if h.tag == TAG_SERVICE {
            at + h.size + service_skip(body)->Ok_0
        } else {
            at + h.size
        };
        assert(blocks_from(data, next) is Ok);
        lemma_scan_behind(front, data, next);
    }
}

/// A scan that begins at a well-formed block finds the name of that block,
/// and then what it finds behind the block.
proof fn lemma_scan_block(b: Block, rest: Seq<u8>)
    requires
        well_formed(b),
        blocks_from(rest, 0) is Ok,
    ensures
        blocks_from(block_bytes(b) + rest, 0) == Ok::<Seq<Seq<char>>, ScanError>(
            block_names(b) + blocks_from(rest, 0)->Ok_0,
        ),
{
    let prefix = prefix_bytes(b.check, b.tag, b.flags, b.body.len() as int);
    let data = block_bytes(b) + rest;
    lemma_prefix_decodes(b.check, b.tag, b.flags, b.body.len() as int, b.body + b.payload + rest);
    assert(data =~= prefix + (b.body + b.payload + rest));
    let h = header_at(data, 0);
    assert(data.subrange(PREFIX_LEN as int, h.size as int) =~= b.body);
    lemma_scan_behind(block_bytes(b), rest, 0);
    assert(Seq::<Seq<char>>::empty() + blocks_from(rest, 0)->Ok_0 =~= blocks_from(rest, 0)->Ok_0);
}

/// A scan of well-formed blocks up to the block that ends the archive finds
/// the names of the blocks.
proof fn lemma_scan_blocks(blocks: Seq<Block>, end: Seq<u8>, tail: Seq<u8>)
    requires
        forall|i: int| 0 <= i < blocks.len() ==> well_formed(#[trigger] blocks[i]),
        end.len() == PREFIX_LEN,
        end[2] == TAG_END,
    ensures
        blocks_from(blocks_bytes(blocks) + (end + tail), 0) == Ok::<Seq<Seq<char>>, ScanError>(
            blocks_names(blocks),
        ),
    decreases blocks.len(),
{
    if blocks.len() == 0 {
        let data = blocks_bytes(blocks) + (end + tail);
        assert(data[2] == end[2]);
    } else {
        let others = blocks.drop_first();
        let rest = blocks_bytes(others) + (end + tail);
        assert forall|i: int| 0 <= i < others.len() implies well_formed(#[trigger] others[i]) by {
            assert(others[i] == blocks[i + 1]);
        }
        lemma_scan_blocks(others, end, tail);
        lemma_scan_block(blocks[0], rest);
        assert(blocks_bytes(blocks) + (end + tail) =~= block_bytes(blocks[0]) + rest);
    }
}

/// The scan of an archive made of well-formed blocks finds the names of its
/// directory entries, in the order of the blocks.
pub proof fn lemma_archive_candidates(blocks: Seq<Block>, end: Seq<u8>, tail: Seq<u8>)
    requires
        forall|i: int| 0 <= i < blocks.len() ==> well_formed(#[trigger] blocks[i]),
        end.len() == PREFIX_LEN,
        end[2] == TAG_END,
    ensures
        candidates(archive_bytes(blocks, end, tail)) == Ok::<Seq<Seq<char>>, ScanError>(
            blocks_names(blocks),
        ),
{
    let rest = blocks_bytes(blocks) + (end + tail);
    let data = archive_bytes(blocks, end, tail);
    lemma_scan_blocks(blocks, end, tail);
    lemma_scan_behind(signature(), rest, 0);
    assert(data.subrange(0, PREFIX_LEN as int) =~= signature());
}

/// The scan of an archive made of well-formed blocks yields the name of its
/// directory entry where it holds exactly one, and nothing where it holds
/// none or several.
pub proof fn lemma_archive_scan(blocks: Seq<Block>, end: Seq<u8>, tail: Seq<u8>)
    requires
        forall|i: int| 0 <= i < blocks.len() ==> well_formed(#[trigger] blocks[i]),
        end.len() == PREFIX_LEN,
        end[2] == TAG_END,
    ensures
        blocks_names(blocks).len() == 1 ==> scan(archive_bytes(blocks, end, tail)) == Ok::<
            Option<Seq<char>>,
            ScanError,
        >(Some(blocks_names(blocks)[0])),
        blocks_names(blocks).len() != 1 ==> scan(archive_bytes(blocks, end, tail)) == Ok::<
            Option<Seq<char>>,
            ScanError,
        >(None),
{
    lemma_archive_candidates(blocks, end, tail);
}

} // verus!
