//! The disposable-email corpus: it only ever moves as a whole, in chunks.

use vstd::prelude::*;

use crate::time::Timestamp;

verus! {

/// Rows per INSERT.
pub const CHUNK: usize = 10_000;

/// When the corpus was fetched and how large it is.
#[derive(Debug, Clone, Copy, PartialEq, Eq, Structural)]
pub struct Snapshot {
    pub fetched_at: Timestamp,
    pub domain_count: i32,
}

/// The texts of some chunks, one after the other.
pub open spec fn joined(chunks: Seq<Vec<String>>) -> Seq<String>
    decreases chunks.len(),
{
    if chunks.len() == 0 {
        Seq::empty()
    } else {
        joined(chunks.drop_last()) + chunks.last()@
    }
}

/// Splits a list into chunks of [`CHUNK`], the last of which may be shorter.
pub fn chunks(all: &Vec<String>) -> (out: Vec<Vec<String>>)
    ensures
        joined(out@) == all@,
        forall|i: int| 0 <= i < out@.len() - 1 ==> (#[trigger] out@[i])@.len() == 10_000,
        forall|i: int| 0 <= i < out@.len() ==> 0 < (#[trigger] out@[i])@.len() <= 10_000,
        forall|i: int| 0 <= i < out@.len() ==> 0 < (#[trigger] out@[i])@.len() <= CHUNK,
        forall|i: int| 0 <= i < out@.len() - 1 ==> (#[trigger] out@[i])@.len() == CHUNK,
{
    let mut out: Vec<Vec<String>> = Vec::new();
    let mut from: usize = 0;
    assert(joined(out@) =~= all@.take(0));
    while from < all.len()
        invariant
            from <= all@.len(),
            joined(out@) == all@.take(from as int),
            forall|i: int| 0 <= i < out@.len() ==> 0 < (#[trigger] out@[i])@.len() <= CHUNK,
            from < all@.len() ==> forall|i: int|
                0 <= i < out@.len() ==> (#[trigger] out@[i])@.len() == CHUNK,
            forall|i: int| 0 <= i < out@.len() - 1 ==> (#[trigger] out@[i])@.len() == CHUNK,
        decreases all.len() - from,
    {
        let rest: usize = all.len() - from;
        let size: usize = if rest < CHUNK {
            rest
        } else {
            CHUNK
        };
        let mut part: Vec<String> = Vec::new();
        let mut k: usize = 0;
        while k < size
            invariant
                k <= size,
                from + size <= all.len(),
                part@ == all@.subrange(from as int, from + k),
            decreases size - k,
        {
            part.push(all[from + k].clone());
            k += 1;
            assert(part@ =~= all@.subrange(from as int, from + k));
        }
        let ghost before = out@;
        out.push(part);
        proof {
            assert(out@.drop_last() =~= before);
            assert(all@.take(from + size) =~= all@.take(from as int) + all@.subrange(
                from as int,
                from + size,
            ));
        }
        from = from + size;
    }
    assert(all@.take(from as int) =~= all@);
    out
}

/// Chunks hold their texts one behind the other: a chunk more adds its own at the end.
pub proof fn law_chunks_are_joined_in_order(chunks: Seq<Vec<String>>, last: Vec<String>)
    ensures
        joined(Seq::empty()).len() == 0,
        joined(chunks.push(last)) == joined(chunks) + last@,
{
    assert(chunks.push(last).drop_last() =~= chunks);
}

} // verus!
