//! The headers of the blocks that make up an archive.
//!
//! Every block opens with a prefix of seven bytes: two bytes that this crate
//! does not use, the type tag, two bytes of flags and the size of the whole
//! header, prefix included, in two bytes. What follows the prefix depends on
//! the tag.

use crate::cursor::le16;
use crate::cursor::le32;
use crate::cursor::name_pair;
use crate::cursor::MemReader;
use crate::cursor::ReadError;
use crate::name::decode_code_points;
use crate::name::decoded_name;
use crate::name::NameError;
use crate::text::code_points_to_string;
use crate::text::contains_backslash;
use crate::text::lemma_backslash_in_text;
use vstd::prelude::*;

verus! {

/// The tag of a block that describes a stored file or directory.
pub const TAG_ENTRY: u8 = 0x74;

/// The tag of a service block, whose payload has its own length field.
pub const TAG_SERVICE: u8 = 0x7a;

/// The tag of the block that ends the archive.
pub const TAG_END: u8 = 0x7b;

/// The lowest tag of a known block.
pub const TAG_FIRST: u8 = 0x72;

/// The flag of an entry whose sizes have a high-order word.
pub const FLAG_LARGE: u16 = 0x0100;

/// The attribute field of a directory. It is compared as a whole.
pub const ATTR_DIRECTORY: u32 = 0x10;

/// The length of the prefix that opens every block.
pub const PREFIX_LEN: usize = 7;

/// Why a scan of an archive failed.
#[derive(Clone, Copy, Debug, PartialEq, Eq, Structural)]
pub enum ScanError {
    /// The stream does not open with the signature of the format.
    SignatureMismatch,
    /// The stream ends inside a block header.
    Truncated,
    /// A block has a tag outside the known range. `offset` is the position
    /// in the stream just behind the prefix of that block.
    UnknownTag { tag: u8, offset: u64 },
    /// A header declares a size below the seven bytes of its own prefix.
    HeaderSize,
    /// A field lies outside the header, or the name field does not split.
    Field(ReadError),
    /// The name of a directory entry does not decode.
    Name(NameError),
}

/// The prefix of a block, decoded.
#[derive(Clone, Copy, Debug, PartialEq, Eq, Structural)]
pub struct BlockHeader {
    pub tag: u8,
    pub flags: u16,
    pub size: u16,
}

/// What the walker needs of an entry block.
#[derive(Debug)]
pub struct Entry {
    /// The length of the packed data that follows the header.
    pub packed_size: u64,
    /// The name, where the entry is a directory without a backslash in its
    /// name.
    pub candidate: Option<String>,
}

/// The mathematical content of an [`Entry`].
pub struct EntryView {
    pub packed_size: int,
    pub candidate: Option<Seq<char>>,
}

impl View for Entry {
    type V = EntryView;

    open spec fn view(&self) -> EntryView {
        EntryView {
            packed_size: self.packed_size as int,
            candidate: match self.candidate {
                Some(name) => Some(name@),
                None => None,
            },
        }
    }
}

/// The prefix stored at `at`.
pub open spec fn header_at(bytes: Seq<u8>, at: int) -> BlockHeader {
    BlockHeader {
        tag: bytes[at + 2],
        flags: le16(bytes, at + 3) as u16,
        size: le16(bytes, at + 5) as u16,
    }
}

/// Whether an entry with these flags has high-order size words.
pub open spec fn large_sizes(flags: u16) -> bool {
    flags & FLAG_LARGE != 0
}

/// The number of header bytes of an entry that precede its name.
pub open spec fn name_offset(flags: u16) -> int {
    if large_sizes(flags) {
        29
    } else {
        25
    }
}

/// The name of a directory entry, decoded from a name field of `size` bytes
/// at `at`.
pub open spec fn entry_name(body: Seq<u8>, at: int, size: int) -> Result<Seq<char>, ScanError> {
    match name_pair(body, at, size) {
        Err(e) => Err(ScanError::Field(e)),
        Ok((name, enc)) => if enc.len() == 0 {
            Err(ScanError::Name(NameError::Empty))
        } else {
            match decoded_name(name, enc) {
                Err(e) => Err(ScanError::Name(e)),
                Ok(text) => Ok(text),
            }
        },
    }
}

/// The entry that the header bytes after the prefix describe.
///
/// The fixed fields are the packed size (4 bytes), the unpacked size (4), the
/// host system (1), a checksum (4), a timestamp (4), the format version (1),
/// the method (1), the size of the name (2) and the attributes (4). With
/// large sizes the high-order word of the packed size (4) follows. Then
/// comes the name.
pub open spec fn entry_of(body: Seq<u8>, flags: u16) -> Result<EntryView, ScanError> {
    let packed = le32(body, 0) + if large_sizes(flags) {
        le32(body, 25) * 0x1_0000_0000
    } else {
        0
    };
    if body.len() < name_offset(flags) {
        Err(ScanError::Field(ReadError::OutOfBounds))
    } else if le32(body, 21) != ATTR_DIRECTORY {
        Ok(EntryView { packed_size: packed, candidate: None })
    } else {
        match entry_name(body, name_offset(flags), le16(body, 19)) {
            Err(e) => Err(e),
            Ok(text) => Ok(
                EntryView {
                    packed_size: packed,
                    candidate: if text.contains('\\') {
                        None
                    } else {
                        Some(text)
                    },
                },
            ),
        }
    }
}

/// The length of the payload that follows a service block.
pub open spec fn service_skip(body: Seq<u8>) -> Result<int, ScanError> {
    if body.len() < 4 {
        Err(ScanError::Field(ReadError::OutOfBounds))
    } else {
        Ok(le32(body, 0))
    }
}

/// The number of header bytes that follow the prefix.
pub open spec fn body_len(size: u16) -> Result<int, ScanError> {
    if size < PREFIX_LEN {
        Err(ScanError::HeaderSize)
    } else {
        Ok(size - PREFIX_LEN)
    }
}

/// A failed read of a header field, as a failure of the scan.
fn field<T>(r: Result<T, ReadError>) -> (s: Result<T, ScanError>)
    ensures
        match (r, s) {
            (Ok(a), Ok(b)) => a == b,
            (Err(e), Err(f)) => f == ScanError::Field(e),
            _ => false,
        },
{
    match r {
        Ok(v) => Ok(v),
        Err(e) => Err(ScanError::Field(e)),
    }
}

/// Decodes the prefix of a block from the seven bytes that hold it. Any
/// other number of bytes is refused: the stream ended inside the prefix.
pub fn parse_block_header(prefix: Vec<u8>) -> (r: Result<BlockHeader, ScanError>)
    ensures
        match r {
            Ok(h) => prefix@.len() == PREFIX_LEN && h == header_at(prefix@, 0),
            Err(e) => prefix@.len() != PREFIX_LEN && e == ScanError::Truncated,
        },
{
    if prefix.len() != PREFIX_LEN {
        return Err(ScanError::Truncated);
    }
    let mut hd = MemReader::new(prefix);
    let _check = field(hd.get2())?;
    let tag = field(hd.get1())?;
    let flags = field(hd.get2())?;
    let size = field(hd.get2())?;
    Ok(BlockHeader { tag, flags, size })
}

/// The number of bytes by which the header of a block extends past its
/// prefix: what is left to skip of a block that holds nothing of interest.
pub fn parse_other_header(size: u16) -> (r: Result<u64, ScanError>)
    ensures
        match (r, body_len(size)) {
            (Ok(n), Ok(m)) => n == m,
            (Err(e), Err(f)) => e == f,
            _ => false,
        },
{
    if size < 7 {
        Err(ScanError::HeaderSize)
    } else {
        Ok((size - 7) as u64)
    }
}

/// Reads, from the header of a service block, the length of the payload
/// that follows the header.
pub fn parse_service_header(body: Vec<u8>) -> (r: Result<u64, ScanError>)
    ensures
        match (r, service_skip(body@)) {
            (Ok(n), Ok(m)) => n == m,
            (Err(e), Err(f)) => e == f,
            _ => false,
        },
{
    let mut hd = MemReader::new(body);
    let skip = field(hd.get4())?;
    Ok(skip as u64)
}

/// Reads the header of an entry block: the length of the packed data, and
/// the name if the entry is a directory.
pub fn parse_file_header(body: Vec<u8>, flags: u16) -> (r: Result<Entry, ScanError>)
    ensures
        match (r, entry_of(body@, flags)) {
            (Ok(entry), Ok(v)) => entry@ == v,
            (Err(e), Err(f)) => e == f,
            _ => false,
        },
{
    let mut hd = MemReader::new(body);
    let mut packed_size = field(hd.get4())? as u64;
    let _unpacked_size = field(hd.get4())?;
    let _host_os = field(hd.get1())?;
    let _checksum = field(hd.get4())?;
    let _time = field(hd.get4())?;
    let _version = field(hd.get1())?;
    let _method = field(hd.get1())?;
    let name_size = field(hd.get2())? as usize;
    let attributes = field(hd.get4())?;
    if flags & FLAG_LARGE != 0 {
        let high = field(hd.get4())? as u64;
        packed_size = packed_size + high * 0x1_0000_0000;
    }
    if attributes != ATTR_DIRECTORY {
        return Ok(Entry { packed_size, candidate: None });
    }
    let (name, enc_name) = field(hd.get_names(name_size))?;
    if enc_name.len() == 0 {
        return Err(ScanError::Name(NameError::Empty));
    }
    let points = match decode_code_points(name.as_slice(), enc_name.as_slice()) {
        Ok(points) => points,
        Err(e) => {
            return Err(ScanError::Name(e));
        },
    };
    let text = match code_points_to_string(points.as_slice()) {
        Ok(text) => text,
        Err(e) => {
            return Err(ScanError::Name(e));
        },
    };
    proof {
        lemma_backslash_in_text(points@);
    }
    if contains_backslash(points.as_slice()) {
        Ok(Entry { packed_size, candidate: None })
    } else {
        Ok(Entry { packed_size, candidate: Some(text) })
    }
}

} // verus!
