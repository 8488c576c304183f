//! Receiving a pushed file: incremental (only the chunks whose ciphertext the
//! receiver does not hold travel), resumable (chunks already present are
//! copied from the local container) and conflict-aware (an overwrite of a
//! local file keeps a conflict copy).  The host reads and writes the chunk
//! bytes; this state machine decides what is accepted and where it goes.
use vstd::prelude::*;
use vstd::utf8::encode_utf8;

use crate::crypto::hash::{hash_sha256, spec_sha256};
use crate::crypto::hex::spec_hex_encode;
use crate::p2p::base64::{base64_decode, spec_b64_decode};
use crate::p2p::proto::{ChunkRef, ManifestItem};
use crate::p2p::sync::{blocks_needed, BlockTally};

verus! {

/// Hashes of a file's chunks, in order.
pub open spec fn chunk_hashes(chunks: Seq<ChunkRef>) -> Seq<Seq<char>> {
    chunks.map_values(|c: ChunkRef| c.hash@)
}

/// Offsets of a file's chunks, in order.
pub open spec fn chunk_offsets(chunks: Seq<ChunkRef>) -> Seq<u64> {
    chunks.map_values(|c: ChunkRef| c.offset)
}

/// Whether a hash is among the receiver's own chunk hashes.
pub open spec fn held(local: Seq<String>, h: Seq<char>) -> bool {
    exists|k: int| 0 <= k < local.len() && #[trigger] local[k]@ == h
}

/// A file being received.
pub struct PushRecv {
    hashes: Vec<String>,
    offsets: Vec<u64>,
    tally: BlockTally,
    copied: Vec<usize>,
    replace_local: bool,
}

impl PushRecv {
    /// One offset per chunk hash.
    pub closed spec fn wf(&self) -> bool {
        self.hashes@.len() == self.offsets@.len()
    }

    /// Ciphertext hashes of the file's chunks.
    pub closed spec fn hashes(&self) -> Seq<Seq<char>> {
        self.hashes@.map_values(|s: String| s@)
    }

    /// Where each chunk goes in the file being assembled.
    pub closed spec fn offsets(&self) -> Seq<u64> {
        self.offsets@
    }

    /// Chunks asked of the sender.
    pub closed spec fn expected(&self) -> Seq<usize> {
        self.tally.expected()
    }

    /// Chunks received from the sender, in arrival order.
    pub closed spec fn received(&self) -> Seq<usize> {
        self.tally.received()
    }

    /// Chunks copied from the local container, in order.
    pub closed spec fn copied(&self) -> Seq<usize> {
        self.copied@
    }

    /// Whether the local file is replaced (after a conflict copy).
    pub closed spec fn replaces_local(&self) -> bool {
        self.replace_local
    }
}

/// Starts receiving `item`.  A file the receiver already has is refused
/// unless the push overwrites it; then only the chunks whose hash is not
/// among `local_hashes` (the receiver's chunks of that file) are asked for,
/// and the others are copied locally.  Gives the indices to ask for.
pub fn begin_push(item: &ManifestItem, local_hashes: &Vec<String>, has_file: bool, overwrite: bool) -> (r:
    Result<(PushRecv, Vec<usize>), &'static str>)
    ensures
        r is Err <==> (has_file && !overwrite),
        r matches Err(e) ==> e@ == "file already exists locally"@,
        r matches Ok((rx, idxs)) ==> {
            &&& rx.wf()
            &&& rx.expected() == idxs@
            &&& rx.received() == Seq::<usize>::empty()
            &&& rx.copied() == Seq::<usize>::empty()
            &&& rx.hashes() == chunk_hashes(item.chunks@)
            &&& rx.offsets() == chunk_offsets(item.chunks@)
            &&& rx.replaces_local() == has_file
            &&& forall|a: int, b: int| 0 <= a < b < idxs@.len() ==> idxs@[a] < idxs@[b]
            &&& forall|i: usize|
                #![trigger idxs@.contains(i)]
                idxs@.contains(i) <==> (i < item.chunks@.len() && !(has_file && held(
                    local_hashes@,
                    item.chunks@[i as int].hash@,
                )))
        },
{
    if has_file && !overwrite {
        return Err("file already exists locally");
    }
    let empty: Vec<String> = Vec::new();
    let have = if has_file {
        local_hashes
    } else {
        &empty
    };
    let idxs = blocks_needed(&item.chunks, have);
    let mut hashes: Vec<String> = Vec::new();
    let mut offsets: Vec<u64> = Vec::new();
    let mut i: usize = 0;
    while i < item.chunks.len()
        invariant
            i <= item.chunks@.len(),
            hashes@.len() == i,
            offsets@.len() == i,
            forall|k: int| 0 <= k < i ==> #[trigger] hashes@[k]@ == item.chunks@[k].hash@,
            forall|k: int| 0 <= k < i ==> #[trigger] offsets@[k] == item.chunks@[k].offset,
        decreases item.chunks@.len() - i,
    {
        hashes.push(item.chunks[i].hash.clone());
        offsets.push(item.chunks[i].offset);
        i = i + 1;
    }
    let rx = PushRecv {
        hashes,
        offsets,
        tally: BlockTally::new(idxs.clone()),
        copied: Vec::new(),
        replace_local: has_file,
    };
    proof {
        assert(rx.hashes() =~= chunk_hashes(item.chunks@));
        assert(rx.offsets() =~= chunk_offsets(item.chunks@));
        assert forall|i: usize| #![trigger idxs@.contains(i)]
            idxs@.contains(i) <==> (i < item.chunks@.len() && !(has_file && held(
                local_hashes@,
                item.chunks@[i as int].hash@,
            ))) by {
            if !has_file {
                assert(have@.len() == 0);
            }
        }
    }
    Ok((rx, idxs))
}

fn contains_index(v: &Vec<usize>, x: usize) -> (b: bool)
    ensures
        b == v@.contains(x),
{
    let mut i: usize = 0;
    while i < v.len()
        invariant
            i <= v@.len(),
            forall|k: int| 0 <= k < i ==> v@[k] != x,
        decreases v@.len() - i,
    {
        if v[i] == x {
            return true;
        }
        i = i + 1;
    }
    false
}

impl PushRecv {
    /// A chunk the receiver copies from its own container: it must be one not
    /// asked for, not copied before, and its ciphertext must have the hash the
    /// sender listed.  Gives the offset to write it at.
    pub fn accept_local(&mut self, idx: usize, ct: &[u8]) -> (r: Result<u64, &'static str>)
        requires
            old(self).wf(),
        ensures
            final(self).wf(),
            final(self).hashes() == old(self).hashes(),
            final(self).offsets() == old(self).offsets(),
            final(self).expected() == old(self).expected(),
            final(self).received() == old(self).received(),
            final(self).replaces_local() == old(self).replaces_local(),
            ({
                let ok_slot = idx < old(self).hashes().len() && !old(self).expected().contains(idx)
                    && !old(self).copied().contains(idx);
                let ok_hash = ok_slot && spec_hex_encode(spec_sha256(ct@)) == old(self).hashes()[idx as int];
                &&& r is Ok <==> ok_hash
                &&& r matches Ok(off) ==> off == old(self).offsets()[idx as int] && final(self).copied()
                    == old(self).copied().push(idx)
                &&& r matches Err(e) ==> final(self).copied() == old(self).copied() && e@ == (if !ok_slot {
                    "chunk not copied locally"@
                } else {
                    "local chunk hash mismatch"@
                })
            }),
    {
        if idx >= self.hashes.len() || idx >= self.offsets.len() || contains_index(self.tally.expected_vec(), idx)
            || contains_index(&self.copied, idx) {
            return Err("chunk not copied locally");
        }
        let h = hash_sha256(ct);
        if h != self.hashes[idx] {
            return Err("local chunk hash mismatch");
        }
        self.copied.push(idx);
        Ok(self.offsets[idx])
    }

    /// A chunk received from the sender: it must be one asked for and not
    /// received before, decode from base64, lie in the file and have the hash
    /// the sender listed.  Gives the offset to write it at and its bytes.
    pub fn accept_block(&mut self, idx: usize, ct_b64: &str) -> (r: Result<(u64, Vec<u8>), &'static str>)
        requires
            old(self).wf(),
        ensures
            final(self).wf(),
            final(self).hashes() == old(self).hashes(),
            final(self).offsets() == old(self).offsets(),
            final(self).expected() == old(self).expected(),
            final(self).copied() == old(self).copied(),
            final(self).replaces_local() == old(self).replaces_local(),
            ({
                let fresh = old(self).expected().contains(idx) && !old(self).received().contains(idx);
                let dec = spec_b64_decode(encode_utf8(ct_b64@));
                let in_file = idx < old(self).hashes().len();
                match r {
                    Ok((off, ct)) => {
                        &&& fresh
                        &&& dec == Some(ct@)
                        &&& in_file
                        &&& spec_hex_encode(spec_sha256(ct@)) == old(self).hashes()[idx as int]
                        &&& off == old(self).offsets()[idx as int]
                        &&& final(self).received() == old(self).received().push(idx)
                    },
                    Err(e) => {
                        &&& final(self).received() == old(self).received()
                        &&& e@ == (if !fresh {
                            "unexpected or duplicate block"@
                        } else if dec is None {
                            "bad block b64"@
                        } else if !in_file {
                            "block index out of range"@
                        } else {
                            "block hash mismatch"@
                        })
                    },
                }
            }),
            r is Ok <==> ({
                let fresh = old(self).expected().contains(idx) && !old(self).received().contains(idx);
                &&& fresh
                &&& idx < old(self).hashes().len()
                &&& spec_b64_decode(encode_utf8(ct_b64@)) matches Some(c)
                &&& spec_hex_encode(spec_sha256(c)) == old(self).hashes()[idx as int]
            }),
    {
        if !self.tally.is_fresh(idx) {
            return Err("unexpected or duplicate block");
        }
        let ct = match base64_decode(ct_b64) {
            Some(c) => c,
            None => return Err("bad block b64"),
        };
        if idx >= self.hashes.len() || idx >= self.offsets.len() {
            return Err("block index out of range");
        }
        let h = hash_sha256(ct.as_slice());
        if h != self.hashes[idx] {
            return Err("block hash mismatch");
        }
        let accepted = self.tally.accept(idx);
        proof {
            assert(accepted is Ok);
        }
        Ok((self.offsets[idx], ct))
    }

    /// The end of the blocks: every chunk must be present, received or copied.
    /// Gives whether the local file is to be replaced (after a conflict
    /// copy).
    pub fn finish(&self) -> (r: Result<bool, &'static str>)
        ensures
            r is Ok <==> self.received().len() + self.copied().len() == self.hashes().len(),
            r matches Ok(b) ==> b == self.replaces_local(),
            r matches Err(e) ==> e@ == "missing blocks"@,
    {
        match self.tally.complete(self.copied.len(), self.hashes.len()) {
            Ok(()) => Ok(self.replace_local),
            Err(e) => Err(e),
        }
    }
}

} // verus!
