//! What holds of every decoded name.

use crate::name::advanced;
use crate::name::code_points;
use crate::name::decode_from;
use crate::name::decodes_to;
use crate::name::mode_of;
use crate::name::next_item;
use crate::name::refilled;
use crate::name::start;
use crate::name::NameError;
use crate::name::Progress;
use vstd::prelude::*;

verus! {

/// The progress of decoding after `k` items, where it gets that far.
pub open spec fn reached(name: Seq<u8>, enc: Seq<u8>, k: nat) -> Option<Progress>
    decreases k,
{
    if k == 0 {
        Some(start())
    } else {
        match reached(name, enc, (k - 1) as nat) {
            None => None,
            Some(p) => if p.at >= enc.len() {
                None
            } else {
                match next_item(name, enc, p) {
                    Err(_) => None,
                    Ok(it) => Some(advanced(enc, p, it)),
                }
            },
        }
    }
}

/// Whether the item that comes next at `p` is a run that copies the fallback
/// name: a mode-3 item whose length byte has its top bit clear.
pub open spec fn is_copy_run(enc: Seq<u8>, p: Progress) -> bool {
    let r = refilled(enc, p);
    &&& p.at < enc.len()
    &&& r.at < enc.len()
    &&& mode_of(r.flags) >= 3
    &&& enc[r.at] < 0x80
}

/// Whether the item that comes next at `p` is a run that corrects the
/// fallback name: a mode-3 item whose length byte has its top bit set.
pub open spec fn is_correction_run(enc: Seq<u8>, p: Progress) -> bool {
    let r = refilled(enc, p);
    &&& p.at < enc.len()
    &&& r.at + 1 < enc.len()
    &&& mode_of(r.flags) >= 3
    &&& enc[r.at] >= 0x80
}

/// Whether the encoded name holds, from `p` on, only literal items: items
/// of the modes 0, 1 and 2.
pub open spec fn literal_only(enc: Seq<u8>, p: Progress) -> bool
    decreases enc.len() - p.at,
{
    if p.at >= enc.len() {
        true
    } else {
        &&& mode_of(refilled(enc, p).flags) < 3
        &&& match next_item(Seq::empty(), enc, p) {
            Err(_) => true,
            Ok(it) => literal_only(enc, advanced(enc, p, it)),
        }
    }
}

/// Decoding only ever appends: what was produced at `p` opens the result.
pub proof fn lemma_decoding_appends(name: Seq<u8>, enc: Seq<u8>, p: Progress)
    requires
        decode_from(name, enc, p) is Ok,
    ensures
        p.out.len() <= decode_from(name, enc, p)->Ok_0.len(),
        decode_from(name, enc, p)->Ok_0.subrange(0, p.out.len() as int) == p.out,
    decreases enc.len() - p.at,
{
    let w = decode_from(name, enc, p)->Ok_0;
    if p.at >= enc.len() {
        assert(w.subrange(0, p.out.len() as int) =~= p.out);
    } else {
        let it = next_item(name, enc, p)->Ok_0;
        let q = advanced(enc, p, it);
        lemma_decoding_appends(name, enc, q);
        assert(w.subrange(0, p.out.len() as int) =~= w.subrange(0, q.out.len() as int).subrange(
            0,
            p.out.len() as int,
        ));
        assert(q.out.subrange(0, p.out.len() as int) =~= p.out);
    }
}

/// Decoding from any progress that it reaches gives the code points of the
/// name.
pub proof fn lemma_reached_decodes(name: Seq<u8>, enc: Seq<u8>, k: nat)
    requires
        reached(name, enc, k) is Some,
    ensures
        decode_from(name, enc, reached(name, enc, k)->0) == code_points(name, enc),
    decreases k,
{
    if k > 0 {
        lemma_reached_decodes(name, enc, (k - 1) as nat);
    }
}

/// The code points of every item stand in the decoded name, at the index
/// that was reached when the item began.
pub proof fn lemma_item_in_output(name: Seq<u8>, enc: Seq<u8>, k: nat)
    requires
        code_points(name, enc) is Ok,
        reached(name, enc, k) is Some,
        reached(name, enc, k)->0.at < enc.len(),
    ensures
        ({
            let p = reached(name, enc, k)->0;
            let w = code_points(name, enc)->Ok_0;
            let from = p.out.len() as int;
            let units = next_item(name, enc, p)->Ok_0.units;
            &&& next_item(name, enc, p) is Ok
            &&& from + units.len() <= w.len()
            &&& w.subrange(from, from + units.len()) == units
        }),
{
    let p = reached(name, enc, k)->0;
    let w = code_points(name, enc)->Ok_0;
    lemma_reached_decodes(name, enc, k);
    let it = next_item(name, enc, p)->Ok_0;
    let q = advanced(enc, p, it);
    lemma_decoding_appends(name, enc, q);
    let from = p.out.len() as int;
    let to = from + it.units.len();
    assert(w.subrange(from, to) =~= w.subrange(0, q.out.len() as int).subrange(from, to));
    assert(q.out.subrange(from, to) =~= it.units);
}

/// A copy run repeats the fallback name: the code points that it stands for
/// are the bytes of the fallback name at the same indices.
pub proof fn lemma_copy_run_repeats_fallback(name: Seq<u8>, enc: Seq<u8>, k: nat)
    requires
        code_points(name, enc) is Ok,
        reached(name, enc, k) is Some,
        is_copy_run(enc, reached(name, enc, k)->0),
    ensures
        ({
            let p = reached(name, enc, k)->0;
            let w = code_points(name, enc)->Ok_0;
            let from = p.out.len() as int;
            let count = enc[refilled(enc, p).at] + 2;
            &&& from + count <= name.len()
            &&& from + count <= w.len()
            &&& forall|i: int| from <= i < from + count ==> #[trigger] w[i] == name[i]
        }),
{
    let p = reached(name, enc, k)->0;
    let w = code_points(name, enc)->Ok_0;
    let from = p.out.len() as int;
    let count = enc[refilled(enc, p).at] + 2;
    lemma_item_in_output(name, enc, k);
    let it = next_item(name, enc, p)->Ok_0;
    assert forall|i: int| from <= i < from + count implies #[trigger] w[i] == name[i] by {
        assert(w[i] == w.subrange(from, from + count)[i - from]);
        assert(it.units[i - from] == name[from + (i - from)]);
    }
}

/// A correction run corrects the fallback name: the low byte of each code
/// point is the byte of the fallback name at the same index with the
/// correction added modulo 256, and its high byte is the shared high byte.
pub proof fn lemma_correction_run_corrects_fallback(name: Seq<u8>, enc: Seq<u8>, k: nat)
    requires
        code_points(name, enc) is Ok,
        reached(name, enc, k) is Some,
        is_correction_run(enc, reached(name, enc, k)->0),
    ensures
        ({
            let p = reached(name, enc, k)->0;
            let w = code_points(name, enc)->Ok_0;
            let from = p.out.len() as int;
            let count = enc[refilled(enc, p).at] - 0x80;
            let correction = enc[refilled(enc, p).at + 1];
            &&& count > 0 ==> from + count <= name.len()
            &&& from + count <= w.len()
            &&& forall|i: int|
                from <= i < from + count ==> {
                    &&& #[trigger] w[i] % 0x100 == (correction + name[i]) % 0x100
                    &&& w[i] / 0x100 == enc[0]
                }
        }),
{
    let p = reached(name, enc, k)->0;
    let w = code_points(name, enc)->Ok_0;
    let from = p.out.len() as int;
    let count = enc[refilled(enc, p).at] - 0x80;
    let correction = enc[refilled(enc, p).at + 1];
    lemma_item_in_output(name, enc, k);
    let it = next_item(name, enc, p)->Ok_0;
    assert forall|i: int| from <= i < from + count implies {
        &&& #[trigger] w[i] % 0x100 == (correction + name[i]) % 0x100
        &&& w[i] / 0x100 == enc[0]
    } by {
        assert(w[i] == w.subrange(from, from + count)[i - from]);
        let low = ((correction + name[from + (i - from)]) % 0x100) as u8;
        assert(it.units[i - from] == (low + enc[0] * 0x100) as u16);
    }
}

/// A literal item stands in the decoded name as the encoded name holds it:
/// as its byte (mode 0), as its byte under the shared high byte (mode 1), or
/// as its two bytes, low byte first (mode 2).
pub proof fn lemma_literal_item_is_embedded(name: Seq<u8>, enc: Seq<u8>, k: nat)
    requires
        code_points(name, enc) is Ok,
        reached(name, enc, k) is Some,
        reached(name, enc, k)->0.at < enc.len(),
        mode_of(refilled(enc, reached(name, enc, k)->0).flags) < 3,
    ensures
        ({
            let p = reached(name, enc, k)->0;
            let w = code_points(name, enc)->Ok_0;
            let at = refilled(enc, p).at;
            let mode = mode_of(refilled(enc, p).flags);
            &&& p.out.len() < w.len()
            &&& mode == 0 ==> at < enc.len() && w[p.out.len() as int] == enc[at]
            &&& mode == 1 ==> at < enc.len() && w[p.out.len() as int] == enc[at] + enc[0] * 0x100
            &&& mode == 2 ==> at + 1 < enc.len() && w[p.out.len() as int] == enc[at] + enc[at + 1]
                * 0x100
        }),
{
    let p = reached(name, enc, k)->0;
    let w = code_points(name, enc)->Ok_0;
    lemma_item_in_output(name, enc, k);
    let from = p.out.len() as int;
    assert(w[from] == w.subrange(from, from + 1)[0]);
}

/// From any progress on, literal items decode alike under any two fallback
/// names.
pub proof fn lemma_literal_items_ignore_fallback(
    first: Seq<u8>,
    second: Seq<u8>,
    enc: Seq<u8>,
    p: Progress,
)
    requires
        literal_only(enc, p),
    ensures
        decode_from(first, enc, p) == decode_from(second, enc, p),
    decreases enc.len() - p.at,
{
    if p.at < enc.len() {
        let r = refilled(enc, p);
        let blank = next_item(Seq::empty(), enc, p);
        assert(next_item(first, enc, p) == blank);
        assert(next_item(second, enc, p) == blank);
        if let Ok(it) = blank {
            lemma_literal_items_ignore_fallback(first, second, enc, advanced(enc, p, it));
        }
    }
}

/// A name that is encoded with literal items alone decodes to the bytes and
/// words that the encoded name holds, whatever the fallback name is.
pub proof fn lemma_literal_name_ignores_fallback(first: Seq<u8>, second: Seq<u8>, enc: Seq<u8>)
    requires
        literal_only(enc, start()),
    ensures
        code_points(first, enc) == code_points(second, enc),
{
    lemma_literal_items_ignore_fallback(first, second, enc, start());
}

/// Decoding the same pair of names twice gives the same result.
pub proof fn lemma_decoding_repeats(
    name: Seq<u8>,
    enc: Seq<u8>,
    first: Result<String, NameError>,
    second: Result<String, NameError>,
)
    requires
        decodes_to(name, enc, first),
        decodes_to(name, enc, second),
    ensures
        match (first, second) {
            (Ok(a), Ok(b)) => a@ == b@,
            (Err(e), Err(f)) => e == f,
            _ => false,
        },
{
}

} // verus!
