//! The walker over the block headers of an archive.
//!
//! The walker is a state machine that never touches the stream itself. It
//! asks for bytes with a [`Step::Fetch`], is fed what the stream delivered
//! with [`Walker::feed`], and answers with the next step, until the scan is
//! done or has failed. Whoever owns the stream runs the loop; for a stream
//! that lies in memory, [`crate::scan::read_rar_file`] does.

use crate::header::body_len;
use crate::header::entry_of;
use crate::header::header_at;
use crate::header::parse_block_header;
use crate::header::parse_file_header;
use crate::header::parse_other_header;
use crate::header::parse_service_header;
use crate::header::service_skip;
use crate::header::ScanError;
use crate::header::PREFIX_LEN;
use crate::header::TAG_END;
use crate::header::TAG_ENTRY;
use crate::header::TAG_FIRST;
use crate::header::TAG_SERVICE;
use vstd::prelude::*;

verus! {

/// The seven bytes that open every archive of the format.
pub open spec fn signature() -> Seq<u8> {
    seq![0x52u8, 0x61u8, 0x72u8, 0x21u8, 0x1Au8, 0x07u8, 0x00u8]
}

/// The texts of a list of names.
pub open spec fn texts(names: Seq<String>) -> Seq<Seq<char>> {
    Seq::new(names.len(), |i: int| names[i]@)
}

/// The text of a name that may be absent.
pub open spec fn name_text(name: Option<String>) -> Option<Seq<char>> {
    match name {
        Some(s) => Some(s@),
        None => None,
    }
}

/// The result of a scan that met `names`: the name, where there is exactly
/// one.
pub open spec fn single(names: Seq<Seq<char>>) -> Option<Seq<char>> {
    if names.len() == 1 {
        Some(names[0])
    } else {
        None
    }
}

/// `names` with the name of an entry behind them, where it has one.
pub open spec fn with_candidate(names: Seq<Seq<char>>, candidate: Option<Seq<char>>) -> Seq<
    Seq<char>,
> {
    match candidate {
        Some(name) => names.push(name),
        None => names,
    }
}

/// A stream position, held at the largest `u64` where it lies beyond.
pub open spec fn clamp(position: int) -> u64 {
    if position > u64::MAX {
        u64::MAX
    } else {
        position as u64
    }
}

/// What the walker waits for.
#[derive(Clone, Copy, Debug, PartialEq, Eq, Structural)]
pub enum Phase {
    /// The signature of the archive.
    Signature,
    /// The prefix of the next block.
    Prefix,
    /// The `len` bytes that follow the prefix of an entry block.
    Entry { flags: u16, len: usize },
    /// The `len` bytes that follow the prefix of a service block.
    Service { len: usize },
}

/// The state of a scan between two deliveries.
#[derive(Debug)]
pub struct Walker {
    phase: Phase,
    offset: u64,
    dirs: Vec<String>,
}

/// The mathematical content of a [`Walker`].
pub struct WalkerView {
    /// What the walker waits for.
    pub phase: Phase,
    /// The position in the stream at which the bytes it waits for begin.
    pub offset: u64,
    /// The names of the directory entries met so far.
    pub names: Seq<Seq<char>>,
}

/// What the walker asks of the owner of the stream, or how the scan ended.
#[derive(Debug)]
pub enum Step {
    /// Move the stream forward by `skip` bytes, read `len` bytes and feed
    /// them to `walker`. Fewer bytes are fed only where the stream ends
    /// before `len` bytes were read, and never more.
    Fetch { walker: Walker, skip: u64, len: usize },
    /// The scan met the block that ends the archive.
    Done(Option<String>),
    /// The scan failed.
    Failed(ScanError),
}

/// The mathematical content of a [`Step`].
pub enum StepView {
    Fetch { walker: WalkerView, skip: u64, len: usize },
    Done(Option<Seq<char>>),
    Failed(ScanError),
}

impl View for Walker {
    type V = WalkerView;

    closed spec fn view(&self) -> WalkerView {
        WalkerView { phase: self.phase, offset: self.offset, names: texts(self.dirs@) }
    }
}

impl View for Step {
    type V = StepView;

    open spec fn view(&self) -> StepView {
        match *self {
            Step::Fetch { walker, skip, len } => StepView::Fetch { walker: walker@, skip, len },
            Step::Done(name) => StepView::Done(name_text(name)),
            Step::Failed(e) => StepView::Failed(e),
        }
    }
}

/// The request for the prefix of the next block, which lies `skip` bytes
/// behind the position `after`.
pub open spec fn next_block(after: u64, skip: int, names: Seq<Seq<char>>) -> StepView {
    StepView::Fetch {
        walker: WalkerView { phase: Phase::Prefix, offset: clamp(after + skip), names },
        skip: skip as u64,
        len: PREFIX_LEN,
    }
}

/// The step with which a scan begins: the request for the signature.
pub open spec fn first_step() -> StepView {
    StepView::Fetch {
        walker: WalkerView { phase: Phase::Signature, offset: 0, names: Seq::empty() },
        skip: 0,
        len: PREFIX_LEN,
    }
}

/// The step that follows when `bytes` are delivered to a walker in state `w`.
pub open spec fn step_of(w: WalkerView, bytes: Seq<u8>) -> StepView {
    let after = clamp(w.offset + bytes.len());
    match w.phase {
        Phase::Signature => if bytes == signature() {
            next_block(after, 0, w.names)
        } else {
            StepView::Failed(ScanError::SignatureMismatch)
        },
        Phase::Prefix => {
            let h = header_at(bytes, 0);
            if bytes.len() != PREFIX_LEN {
                StepView::Failed(ScanError::Truncated)
            } else if h.tag == TAG_END {
                StepView::Done(single(w.names))
            } else if h.tag < TAG_FIRST || h.tag > TAG_END {
                StepView::Failed(ScanError::UnknownTag { tag: h.tag, offset: after })
            } else {
                match body_len(h.size) {
                    Err(e) => StepView::Failed(e),
                    Ok(len) => if h.tag == TAG_ENTRY {
                        StepView::Fetch {
                            walker: WalkerView {
                                phase: Phase::Entry { flags: h.flags, len: len as usize },
                                offset: after,
                                names: w.names,
                            },
                            skip: 0,
                            len: len as usize,
                        }
                    } else if h.tag == TAG_SERVICE {
                        StepView::Fetch {
                            walker: WalkerView {
                                phase: Phase::Service { len: len as usize },
                                offset: after,
                                names: w.names,
                            },
                            skip: 0,
                            len: len as usize,
                        }
                    } else {
                        next_block(after, len, w.names)
                    },
                }
            }
        },
        Phase::Entry { flags, len } => if bytes.len() != len {
            StepView::Failed(ScanError::Truncated)
        } else {
            match entry_of(bytes, flags) {
                Err(e) => StepView::Failed(e),
                Ok(entry) => next_block(
                    after,
                    entry.packed_size,
                    with_candidate(w.names, entry.candidate),
                ),
            }
        },
        Phase::Service { len } => if bytes.len() != len {
            StepView::Failed(ScanError::Truncated)
        } else {
            match service_skip(bytes) {
                Err(e) => StepView::Failed(e),
                Ok(skip) => next_block(after, skip, w.names),
            }
        },
    }
}

/// A stream that ends inside the prefix of a block fails the scan as
/// truncated, whatever was met before.
pub proof fn lemma_short_prefix_is_truncated(w: WalkerView, bytes: Seq<u8>)
    requires
        w.phase == Phase::Prefix,
        bytes.len() < PREFIX_LEN,
    ensures
        step_of(w, bytes) == StepView::Failed(ScanError::Truncated),
{
}

/// Tells whether `bytes` are the signature of the format.
pub fn is_signature(bytes: &[u8]) -> (b: bool)
    ensures
        b == (bytes@ == signature()),
{
    if bytes.len() != 7 {
        return false;
    }
    let b = bytes[0] == 0x52 && bytes[1] == 0x61 && bytes[2] == 0x72 && bytes[3] == 0x21
        && bytes[4] == 0x1A && bytes[5] == 0x07 && bytes[6] == 0x00;
    proof {
        if b {
            assert(bytes@ =~= signature());
        }
    }
    b
}

/// The request for the prefix of the next block.
fn fetch_prefix(after: u64, skip: u64, dirs: Vec<String>) -> (s: Step)
    ensures
        s@ == next_block(after, skip as int, texts(dirs@)),
{
    Step::Fetch {
        walker: Walker { phase: Phase::Prefix, offset: after.saturating_add(skip), dirs },
        skip,
        len: PREFIX_LEN,
    }
}

impl Walker {
    /// Begins a scan at the start of a stream.
    pub fn start() -> (s: Step)
        ensures
            s@ == first_step(),
    {
        let dirs: Vec<String> = Vec::new();
        assert(texts(dirs@) =~= Seq::empty());
        Step::Fetch { walker: Walker { phase: Phase::Signature, offset: 0, dirs }, skip: 0, len: 7 }
    }

    /// Takes the bytes that the stream delivered for the last request and
    /// decides how the scan goes on. A delivery of another length than was
    /// asked for ends the scan: as a mismatch where the signature was asked
    /// for, as truncated anywhere else.
    pub fn feed(self, bytes: Vec<u8>) -> (s: Step)
        ensures
            s@ == step_of(self@, bytes@),
    {
        let after = self.offset.saturating_add(bytes.len() as u64);
        let mut dirs = self.dirs;
        match self.phase {
            Phase::Signature => {
                if is_signature(bytes.as_slice()) {
                    fetch_prefix(after, 0, dirs)
                } else {
                    Step::Failed(ScanError::SignatureMismatch)
                }
            },
            Phase::Prefix => {
                let h = match parse_block_header(bytes) {
                    Ok(h) => h,
                    Err(e) => {
                        return Step::Failed(e);
                    },
                };
                if h.tag == TAG_END {
                    let name = if dirs.len() == 1 {
                        dirs.pop()
                    } else {
                        None
                    };
                    return Step::Done(name);
                }
                if h.tag < TAG_FIRST || h.tag > TAG_END {
                    return Step::Failed(ScanError::UnknownTag { tag: h.tag, offset: after });
                }
                let rest = match parse_other_header(h.size) {
                    Ok(rest) => rest,
                    Err(e) => {
                        return Step::Failed(e);
                    },
                };
                let len = rest as usize;
                if h.tag == TAG_ENTRY {
                    let phase = Phase::Entry { flags: h.flags, len };
                    Step::Fetch { walker: Walker { phase, offset: after, dirs }, skip: 0, len }
                } else if h.tag == TAG_SERVICE {
                    let phase = Phase::Service { len };
                    Step::Fetch { walker: Walker { phase, offset: after, dirs }, skip: 0, len }
                } else {
                    fetch_prefix(after, rest, dirs)
                }
            },
            Phase::Entry { flags, len } => {
                if bytes.len() != len {
                    return Step::Failed(ScanError::Truncated);
                }
                match parse_file_header(bytes, flags) {
                    Err(e) => Step::Failed(e),
                    Ok(entry) => {
                        let ghost before = texts(dirs@);
                        if let Some(name) = entry.candidate {
                            dirs.push(name);
                            assert(texts(dirs@) =~= before.push(name@));
                        }
                        fetch_prefix(after, entry.packed_size, dirs)
                    },
                }
            },
            Phase::Service { len } => {
                if bytes.len() != len {
                    return Step::Failed(ScanError::Truncated);
                }
                match parse_service_header(bytes) {
                    Err(e) => Step::Failed(e),
                    Ok(skip) => fetch_prefix(after, skip, dirs),
                }
            },
        }
    }
}

} // verus!
