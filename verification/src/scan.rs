//! The scan of a whole archive.
//!
//! [`scan`] says what a stream of bytes yields, block by block.
//! [`read_rar_file`] computes it for a stream in memory by running the
//! [`Walker`](crate::walker::Walker).

use crate::header::entry_of;
use crate::header::header_at;
use crate::header::service_skip;
use crate::header::ScanError;
use crate::header::PREFIX_LEN;
use crate::header::TAG_END;
use crate::header::TAG_ENTRY;
use crate::header::TAG_FIRST;
use crate::header::TAG_SERVICE;
use crate::walker::clamp;
use crate::walker::first_step;
use crate::walker::name_text;
use crate::walker::signature;
use crate::walker::single;
use crate::walker::step_of;
use crate::walker::with_candidate;
use crate::walker::Phase;
use crate::walker::Step;
use crate::walker::StepView;
use crate::walker::Walker;
use crate::walker::WalkerView;
use vstd::prelude::*;
use vstd::slice::slice_subrange;
use vstd::slice::slice_to_vec;

verus! {

/// The number of bytes of `data` from `at` on.
pub open spec fn left(data: Seq<u8>, at: int) -> nat {
    if at < data.len() {
        (data.len() - at) as nat
    } else {
        0
    }
}

/// The names of the directory entries among the blocks from `at` up to the
/// block that ends the archive, in the order of the blocks; or the failure
/// of the first block that cannot be passed. The packed data of an entry
/// and the payload of a service block lie between two blocks and are not
/// looked at.
pub open spec fn blocks_from(data: Seq<u8>, at: int) -> Result<Seq<Seq<char>>, ScanError>
    decreases left(data, at),
{
    let h = header_at(data, at);
    let body = data.subrange(at + PREFIX_LEN, at + h.size);
    if at < 0 || at + PREFIX_LEN > data.len() {
        Err(ScanError::Truncated)
    } else if h.tag == TAG_END {
        Ok(Seq::empty())
    } else if h.tag < TAG_FIRST || h.tag > TAG_END {
        Err(ScanError::UnknownTag { tag: h.tag, offset: clamp(at + PREFIX_LEN) })
    } else if h.size < PREFIX_LEN {
        Err(ScanError::HeaderSize)
    } else if h.tag == TAG_ENTRY {
        if at + h.size > data.len() {
            Err(ScanError::Truncated)
        } else {
            match entry_of(body, h.flags) {
                Err(e) => Err(e),
                Ok(entry) => match blocks_from(data, at + h.size + entry.packed_size) {
                    Err(e) => Err(e),
                    Ok(rest) => Ok(with_candidate(Seq::empty(), entry.candidate) + rest),
                },
            }
        }
    } else if h.tag == TAG_SERVICE {
        if at + h.size > data.len() {
            Err(ScanError::Truncated)
        } else {
            match service_skip(body) {
                Err(e) => Err(e),
                Ok(skip) => blocks_from(data, at + h.size + skip),
            }
        }
    } else {
        blocks_from(data, at + h.size)
    }
}

/// The names of the directory entries of the archive `data` whose names
/// hold no backslash, in the order of their blocks. An entry is a directory
/// where its attribute field is exactly the directory marker.
pub open spec fn candidates(data: Seq<u8>) -> Result<Seq<Seq<char>>, ScanError> {
    if data.len() < PREFIX_LEN || data.subrange(0, PREFIX_LEN as int) != signature() {
        Err(ScanError::SignatureMismatch)
    } else {
        blocks_from(data, PREFIX_LEN as int)
    }
}

/// What a scan of the stream `data` yields: the name of the one directory
/// entry, nothing where there is none or more than one, or the failure.
pub open spec fn scan(data: Seq<u8>) -> Result<Option<Seq<char>>, ScanError> {
    match candidates(data) {
        Err(e) => Err(e),
        Ok(names) => Ok(single(names)),
    }
}

/// What a scan yields that met `names` before the blocks whose names are
/// `rest`.
pub open spec fn after_names(names: Seq<Seq<char>>, rest: Result<Seq<Seq<char>>, ScanError>) -> Result<
    Option<Seq<char>>,
    ScanError,
> {
    match rest {
        Err(e) => Err(e),
        Ok(more) => Ok(single(names + more)),
    }
}

/// What a stream delivers when `len` bytes are read at position `at`: the
/// bytes that it holds there, which are fewer where it ends before.
pub open spec fn delivered(data: Seq<u8>, at: int, len: int) -> Seq<u8> {
    let from = if at < data.len() {
        at
    } else {
        data.len() as int
    };
    let to = if at + len < data.len() {
        at + len
    } else {
        data.len() as int
    };
    data.subrange(from, to)
}

/// Whether the prefix that ends at `pos` opens a block with tag `tag` and
/// `len` more header bytes.
pub open spec fn in_block(data: Seq<u8>, pos: int, tag: u8, len: int) -> bool {
    let h = header_at(data, pos - PREFIX_LEN);
    &&& PREFIX_LEN <= pos <= data.len()
    &&& h.tag == tag
    &&& h.size == len + PREFIX_LEN
}

/// Whether `step`, taken when the stream `data` stands at `pos`, leads to
/// what the scan of `data` yields.
pub open spec fn agrees(data: Seq<u8>, pos: int, step: StepView) -> bool {
    match step {
        StepView::Done(name) => scan(data) == Ok::<Option<Seq<char>>, ScanError>(name),
        StepView::Failed(e) => scan(data) == Err::<Option<Seq<char>>, ScanError>(e),
        StepView::Fetch { walker, skip, len } => {
            &&& walker.offset == clamp(pos + skip)
            &&& match walker.phase {
                Phase::Signature => {
                    &&& pos == 0
                    &&& skip == 0
                    &&& len == PREFIX_LEN
                    &&& walker.names == Seq::<Seq<char>>::empty()
                },
                Phase::Prefix => {
                    &&& len == PREFIX_LEN
                    &&& scan(data) == after_names(walker.names, blocks_from(data, pos + skip))
                },
                Phase::Entry { flags, len: expected } => {
                    &&& skip == 0
                    &&& len == expected
                    &&& in_block(data, pos, TAG_ENTRY, len as int)
                    &&& header_at(data, pos - PREFIX_LEN).flags == flags
                    &&& scan(data) == after_names(
                        walker.names,
                        blocks_from(data, pos - PREFIX_LEN),
                    )
                },
                Phase::Service { len: expected } => {
                    &&& skip == 0
                    &&& len == expected
                    &&& in_block(data, pos, TAG_SERVICE, len as int)
                    &&& scan(data) == after_names(
                        walker.names,
                        blocks_from(data, pos - PREFIX_LEN),
                    )
                },
            }
        },
    }
}

/// A bound on the number of steps that can follow `step`.
pub open spec fn steps_left(data: Seq<u8>, pos: int, step: StepView) -> nat {
    match step {
        StepView::Fetch { walker, skip, len } => left(data, pos + skip) + 1,
        _ => 0,
    }
}

/// The step with which every scan begins agrees with the scan.
pub proof fn lemma_first_step_agrees(data: Seq<u8>)
    ensures
        agrees(data, 0, first_step()),
{
}

/// The step that follows the signature agrees with the scan.
proof fn lemma_signature_agrees(data: Seq<u8>, walker: WalkerView, bytes: Seq<u8>)
    requires
        walker.phase == Phase::Signature,
        agrees(data, 0, StepView::Fetch { walker, skip: 0, len: PREFIX_LEN }),
        bytes == delivered(data, 0, PREFIX_LEN as int),
    ensures
        agrees(data, bytes.len() as int, step_of(walker, bytes)),
        steps_left(data, bytes.len() as int, step_of(walker, bytes)) < data.len() + 1,
{
    assert(bytes =~= data.subrange(0, bytes.len() as int));
    if bytes == signature() {
        let rest = blocks_from(data, PREFIX_LEN as int);
        if let Ok(more) = rest {
            assert(walker.names + more =~= more);
        }
    }
}

/// The step that follows the prefix of a block agrees with the scan.
proof fn lemma_prefix_agrees(data: Seq<u8>, pos: int, walker: WalkerView, skip: u64, bytes: Seq<u8>)
    requires
        0 <= pos,
        walker.phase == Phase::Prefix,
        agrees(data, pos, StepView::Fetch { walker, skip, len: PREFIX_LEN }),
        bytes == delivered(data, pos + skip, PREFIX_LEN as int),
    ensures
        agrees(data, pos + skip + bytes.len(), step_of(walker, bytes)),
        steps_left(data, pos + skip + bytes.len(), step_of(walker, bytes)) < left(data, pos + skip)
            + 1,
{
    let at = pos + skip;
    if bytes.len() == PREFIX_LEN {
        assert(bytes =~= data.subrange(at, at + PREFIX_LEN));
        assert(header_at(bytes, 0) == header_at(data, at));
        let h = header_at(data, at);
        if h.tag == TAG_END {
            assert(walker.names + Seq::<Seq<char>>::empty() =~= walker.names);
        }
    }
}

/// The step that follows the header of an entry agrees with the scan.
proof fn lemma_entry_agrees(data: Seq<u8>, pos: int, walker: WalkerView, len: usize, bytes: Seq<u8>)
    requires
        0 <= pos,
        walker.phase is Entry,
        agrees(data, pos, StepView::Fetch { walker, skip: 0, len }),
        bytes == delivered(data, pos, len as int),
    ensures
        agrees(data, pos + bytes.len(), step_of(walker, bytes)),
        steps_left(data, pos + bytes.len(), step_of(walker, bytes)) < left(data, pos) + 1,
{
    let start = pos - PREFIX_LEN;
    let h = header_at(data, start);
    let flags = walker.phase->Entry_flags;
    if bytes.len() == len {
        assert(bytes =~= data.subrange(start + PREFIX_LEN, start + h.size));
        match entry_of(bytes, flags) {
            Ok(entry) => {
                let rest = blocks_from(data, start + h.size + entry.packed_size);
                assert(blocks_from(data, start) == match rest {
                    Err(e) => Err(e),
                    Ok(more) => Ok(with_candidate(Seq::empty(), entry.candidate) + more),
                });
                if let Ok(more) = rest {
                    assert(walker.names + (with_candidate(Seq::empty(), entry.candidate) + more)
                        =~= with_candidate(walker.names, entry.candidate) + more);
                }
            },
            Err(e) => {
                assert(blocks_from(data, start) == Err::<Seq<Seq<char>>, ScanError>(e));
            },
        }
    } else {
        assert(blocks_from(data, start) == Err::<Seq<Seq<char>>, ScanError>(
            ScanError::Truncated,
        ));
    }
}

/// The step that follows the header of a service block agrees with the scan.
proof fn lemma_service_agrees(
    data: Seq<u8>,
    pos: int,
    walker: WalkerView,
    len: usize,
    bytes: Seq<u8>,
)
    requires
        0 <= pos,
        walker.phase is Service,
        agrees(data, pos, StepView::Fetch { walker, skip: 0, len }),
        bytes == delivered(data, pos, len as int),
    ensures
        agrees(data, pos + bytes.len(), step_of(walker, bytes)),
        steps_left(data, pos + bytes.len(), step_of(walker, bytes)) < left(data, pos) + 1,
{
    let start = pos - PREFIX_LEN;
    let h = header_at(data, start);
    if bytes.len() == len {
        assert(bytes =~= data.subrange(start + PREFIX_LEN, start + h.size));
    }
}

/// Whoever feeds the walker what the stream delivers keeps it in agreement
/// with the scan: a step that agrees with the scan is followed by one that
/// agrees with it, and by fewer steps.
pub proof fn lemma_feed_agrees(
    data: Seq<u8>,
    pos: int,
    walker: WalkerView,
    skip: u64,
    len: usize,
    bytes: Seq<u8>,
)
    requires
        0 <= pos,
        agrees(data, pos, StepView::Fetch { walker, skip, len }),
        bytes == delivered(data, pos + skip, len as int),
    ensures
        agrees(data, pos + skip + bytes.len(), step_of(walker, bytes)),
        steps_left(data, pos + skip + bytes.len(), step_of(walker, bytes)) < steps_left(
            data,
            pos,
            StepView::Fetch { walker, skip, len },
        ),
{
    match walker.phase {
        Phase::Signature => lemma_signature_agrees(data, walker, bytes),
        Phase::Prefix => lemma_prefix_agrees(data, pos, walker, skip, bytes),
        Phase::Entry { .. } => lemma_entry_agrees(data, pos, walker, len, bytes),
        Phase::Service { .. } => lemma_service_agrees(data, pos, walker, len, bytes),
    }
}

/// Scans an archive that lies in memory. Where the archive holds exactly
/// one directory entry without a backslash in its name, that name is
/// returned; where it holds none or several, nothing is; where the scan
/// fails, the failure is, and never a name.
pub fn read_rar_file(data: &[u8]) -> (r: Result<Option<String>, ScanError>)
    ensures
        match r {
            Ok(name) => scan(data@) == Ok::<Option<Seq<char>>, ScanError>(name_text(name)),
            Err(e) => scan(data@) == Err::<Option<Seq<char>>, ScanError>(e),
        },
        match candidates(data@) {
            Ok(names) => if names.len() == 1 {
                r matches Ok(Some(name)) && name@ == names[0]
            } else {
                r matches Ok(None)
            },
            Err(e) => r == Err::<Option<String>, ScanError>(e),
        },
{
    let mut cur: usize = 0;
    let ghost mut pos: int = 0;
    let mut step = Walker::start();
    loop
        invariant
            0 <= pos,
            cur == if pos < data@.len() {
                pos
            } else {
                data@.len() as int
            },
            agrees(data@, pos, step@),
        decreases steps_left(data@, pos, step@),
    {
        match step {
            Step::Done(name) => {
                return Ok(name);
            },
            Step::Failed(e) => {
                return Err(e);
            },
            Step::Fetch { walker, skip, len } => {
                let room = data.len() - cur;
                let from = if skip > room as u64 {
                    data.len()
                } else {
                    cur + skip as usize
                };
                let take = if len > data.len() - from {
                    data.len() - from
                } else {
                    len
                };
                let bytes = slice_to_vec(slice_subrange(data, from, from + take));
                proof {
                    lemma_feed_agrees(data@, pos, walker@, skip, len, bytes@);
                    pos = pos + skip + take;
                }
                cur = from + take;
                step = walker.feed(bytes);
            },
        }
    }
}

} // verus!
