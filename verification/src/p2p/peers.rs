//! Table of paired devices (device id → record), stored AES-GCM encrypted
//! under `HKDF(MK, "p2p-peers")` as `nonce ‖ ciphertext ‖ tag` of its
//! serialised form.
use vstd::prelude::*;

use crate::crypto::aead::{aead_decrypt, aead_encrypt, gcm_len_ok, spec_aead_blob, spec_aead_open_blob};
use crate::crypto::kdf::{hkdf_sha256_derive, spec_hkdf_derive};
use crate::crypto::random::random_nonce;
use crate::crypto::KEY_LEN;
use crate::strmap::StrMap;
use crate::p2p::identity::{spec_verify_hex, Identity};
use crate::vault::listing::{bytes_lt, item_key, key_lt, lemma_bytes_lt_irrefl, lemma_key_order, order_by_name, sorted_positions};
use vstd::utf8::{encode_utf8, encode_utf8_decode_utf8};

verus! {

#[derive(Debug)]
pub struct PeerRec {
    pub name: String,
    /// Ed25519 public key, hex.
    pub pub_hex: String,
    pub paired_ms: u64,
    /// Signalling counter towards the peer (reserved).
    pub counter: u64,
}

impl PeerRec {
    /// An equal, independent record.
    pub fn copy(&self) -> (r: Self)
        ensures
            r == *self,
    {
        PeerRec {
            name: self.name.clone(),
            pub_hex: self.pub_hex.clone(),
            paired_ms: self.paired_ms,
            counter: self.counter,
        }
    }
}

/// The label of the peer-table key.
pub open spec fn peers_label() -> Seq<u8> {
    seq![112u8, 50, 112, 45, 112, 101, 101, 114, 115]
}

/// Paired devices.
pub struct PeerStore {
    peers: StrMap<PeerRec>,
    key: [u8; KEY_LEN],
}

impl PeerStore {
    /// Device id → record.
    pub closed spec fn view(&self) -> Map<Seq<char>, PeerRec> {
        self.peers.view()
    }

    pub closed spec fn wf(&self) -> bool {
        self.peers.wf()
    }

    /// Key the table is stored under.
    pub closed spec fn spec_key(&self) -> Seq<u8> {
        self.key@
    }

    /// An empty table for the vault with master key `mk`.
    pub fn new(mk: &[u8; KEY_LEN]) -> (s: Self)
        ensures
            s.wf(),
            s.view() == Map::<Seq<char>, PeerRec>::empty(),
            s.spec_key() == spec_hkdf_derive(mk@, peers_label()),
    {
        let label: [u8; 9] = [112, 50, 112, 45, 112, 101, 101, 114, 115];
        proof {
            assert(label@ =~= peers_label());
        }
        PeerStore { peers: StrMap::new(), key: hkdf_sha256_derive(mk, &label) }
    }

    /// Record of a device.
    pub fn get(&self, device_id: &str) -> (r: Option<PeerRec>)
        requires
            self.wf(),
        ensures
            match r {
                Some(p) => self.view().dom().contains(device_id@) && p == self.view()[device_id@],
                None => !self.view().dom().contains(device_id@),
            },
    {
        let k = device_id.to_owned();
        match self.peers.get(&k) {
            Some(p) => Some(p.copy()),
            None => None,
        }
    }

    /// The device registered with this public key that comes first by
    /// device id, if any.
    pub fn by_pub(&self, pub_hex: &str) -> (r: Option<(String, PeerRec)>)
        requires
            self.wf(),
        ensures
            match r {
                Some((id, p)) => {
                    &&& self.view().dom().contains(id@)
                    &&& p == self.view()[id@]
                    &&& p.pub_hex@ == pub_hex@
                    &&& forall|k: Seq<char>|
                        #[trigger] self.view().dom().contains(k) && self.view()[k].pub_hex@ == pub_hex@
                            ==> !bytes_lt(encode_utf8(k), encode_utf8(id@))
                },
                None => forall|id: Seq<char>| #[trigger]
                    self.view().dom().contains(id) ==> self.view()[id].pub_hex@ != pub_hex@,
            },
    {
        let all = self.list();
        let target = pub_hex.to_owned();
        let mut i: usize = 0;
        while i < all.len()
            invariant
                target@ == pub_hex@,
                i <= all@.len(),
                forall|j: int| 0 <= j < i ==> (#[trigger] all@[j]).1.pub_hex@ != pub_hex@,
                forall|t: int|
                    0 <= t < all@.len() ==> self.view().dom().contains((#[trigger] all@[t]).0@) && all@[t].1
                        == self.view()[all@[t].0@],
                forall|id: Seq<char>|
                    #[trigger] self.view().dom().contains(id) ==> exists|t: int| 0 <= t < all@.len() && all@[t].0@ == id,
                forall|a: int, b: int|
                    0 <= a < b < all@.len() ==> bytes_lt(encode_utf8((#[trigger] all@[a]).0@), encode_utf8((#[trigger] all@[b]).0@)),
            decreases all@.len() - i,
        {
            let same = all[i].1.pub_hex == target;
            proof {
                assert(same == (all@[i as int].1.pub_hex@ == pub_hex@));
            }
            if same {
                let id = all[i].0.clone();
                let p = all[i].1.copy();
                proof {
                    assert forall|k: Seq<char>|
                        #[trigger] self.view().dom().contains(k) && self.view()[k].pub_hex@ == pub_hex@
                            implies !bytes_lt(encode_utf8(k), encode_utf8(id@)) by {
                        let t = choose|t: int| 0 <= t < all@.len() && all@[t].0@ == k;
                        if t < i {
                            assert(all@[t].1 == self.view()[k]);
                        } else if t > i {
                            lemma_key_order((encode_utf8(id@), 0u64), (encode_utf8(k), 0u64), (encode_utf8(k), 0u64));
                        } else {
                            lemma_bytes_lt_irrefl(encode_utf8(k));
                        }
                    }
                }
                return Some((id, p));
            }
            i = i + 1;
        }
        proof {
            assert forall|id: Seq<char>| #[trigger] self.view().dom().contains(id) implies self.view()[id].pub_hex@
                != pub_hex@ by {
                let t = choose|t: int| 0 <= t < all@.len() && all@[t].0@ == id;
                assert(all@[t].1 == self.view()[id]);
            }
        }
        None
    }

    /// Whether the signature `sig_hex` on `msg` checks out under the public
    /// key of some device in the table.
    pub fn signed_by_registered(&self, msg: &[u8], sig_hex: &str) -> (b: bool)
        requires
            self.wf(),
        ensures
            b == exists|id: Seq<char>|
                #[trigger] self.view().dom().contains(id) && spec_verify_hex(self.view()[id].pub_hex@, msg@, sig_hex@),
    {
        let all = self.list();
        let mut i: usize = 0;
        while i < all.len()
            invariant
                i <= all@.len(),
                forall|j: int| 0 <= j < i ==> !spec_verify_hex((#[trigger] all@[j]).1.pub_hex@, msg@, sig_hex@),
                forall|t: int|
                    0 <= t < all@.len() ==> self.view().dom().contains((#[trigger] all@[t]).0@) && all@[t].1
                        == self.view()[all@[t].0@],
                forall|id: Seq<char>|
                    #[trigger] self.view().dom().contains(id) ==> exists|t: int| 0 <= t < all@.len() && all@[t].0@ == id,
            decreases all@.len() - i,
        {
            if Identity::verify(all[i].1.pub_hex.as_str(), msg, sig_hex) {
                proof {
                    assert(self.view().dom().contains(all@[i as int].0@));
                }
                return true;
            }
            i = i + 1;
        }
        proof {
            assert forall|id: Seq<char>| #[trigger] self.view().dom().contains(id) implies !spec_verify_hex(
                self.view()[id].pub_hex@,
                msg@,
                sig_hex@,
            ) by {
                let t = choose|t: int| 0 <= t < all@.len() && all@[t].0@ == id;
                assert(all@[t].1 == self.view()[id]);
            }
        }
        false
    }

    /// Registers (or replaces) a device; the table is to be saved afterwards.
    pub fn upsert(&mut self, device_id: &str, rec: PeerRec)
        requires
            old(self).wf(),
        ensures
            final(self).wf(),
            final(self).view() == old(self).view().insert(device_id@, rec),
            final(self).spec_key() == old(self).spec_key(),
    {
        self.peers.insert(device_id.to_owned(), rec);
    }

    /// All registered devices, ascending by device id (the bytes of the id).
    pub fn list(&self) -> (r: Vec<(String, PeerRec)>)
        requires
            self.wf(),
        ensures
            r@.len() == self.view().dom().len(),
            forall|i: int|
                0 <= i < r@.len() ==> self.view().dom().contains((#[trigger] r@[i]).0@) && r@[i].1
                    == self.view()[r@[i].0@],
            forall|id: Seq<char>|
                #[trigger] self.view().dom().contains(id) ==> exists|i: int| 0 <= i < r@.len() && r@[i].0@ == id,
            forall|i: int, j: int|
                0 <= i < j < r@.len() ==> bytes_lt(encode_utf8((#[trigger] r@[i]).0@), encode_utf8((#[trigger] r@[j]).0@)),
    {
        let ghost es = self.peers.spec_entries();
        let n = self.peers.len();
        let mut items: Vec<(u64, Vec<u8>)> = Vec::new();
        let mut i: usize = 0;
        while i < n
            invariant
                self.wf(),
                es == self.peers.spec_entries(),
                n == es.len(),
                i <= n,
                items@.len() == i,
                forall|j: int| 0 <= j < i ==> (#[trigger] items@[j]).0 == j && items@[j].1@ == encode_utf8(es[j].0@),
            decreases n - i,
        {
            let e = self.peers.entry_at(i);
            let name = vstd::slice::slice_to_vec(e.0.as_str().as_bytes());
            items.push((i as u64, name));
            i = i + 1;
        }
        let order = order_by_name(&items);
        let mut r: Vec<(String, PeerRec)> = Vec::new();
        let mut k: usize = 0;
        while k < order.len()
            invariant
                self.wf(),
                es == self.peers.spec_entries(),
                n == es.len(),
                items@.len() == n,
                order@.len() == n,
                sorted_positions(items@, order@),
                k <= order@.len(),
                r@.len() == k,
                forall|t: int| 0 <= t < k ==> (#[trigger] r@[t]).0@ == es[order@[t] as int].0@ && r@[t].1
                    == es[order@[t] as int].1,
            decreases order@.len() - k,
        {
            assert(order@[k as int] < items@.len());
            let e = self.peers.entry_at(order[k]);
            r.push((e.0.clone(), e.1.copy()));
            k = k + 1;
        }
        proof {
            assert forall|t: int| 0 <= t < r@.len() implies self.view().dom().contains((#[trigger] r@[t]).0@)
                && r@[t].1 == self.view()[r@[t].0@] by {
                assert(order@[t] < items@.len());
                self.peers.lemma_lookup(order@[t] as int);
            }
            assert forall|id: Seq<char>| #[trigger] self.view().dom().contains(id) implies exists|t: int|
                0 <= t < r@.len() && r@[t].0@ == id by {
                let j = self.peers.index_of(id);
                let ju = j as usize;
                assert(ju as int == j);
                assert(order@.contains(ju));
                let t = choose|t: int| 0 <= t < order@.len() && order@[t] == ju;
                assert(r@[t].0@ == id);
            }
            assert forall|a: int, b: int| 0 <= a < b < r@.len() implies bytes_lt(
                encode_utf8((#[trigger] r@[a]).0@),
                encode_utf8((#[trigger] r@[b]).0@),
            ) by {
                let oa = order@[a] as int;
                let ob = order@[b] as int;
                assert(key_lt(item_key(items@[oa]), item_key(items@[ob])));
                if encode_utf8(es[oa].0@) == encode_utf8(es[ob].0@) {
                    encode_utf8_decode_utf8(es[oa].0@);
                    encode_utf8_decode_utf8(es[ob].0@);
                    lemma_key_order(item_key(items@[oa]), item_key(items@[ob]), item_key(items@[ob]));
                    assert(oa != ob);
                    if oa < ob {
                        self.peers.lemma_distinct(oa, ob);
                    } else {
                        self.peers.lemma_distinct(ob, oa);
                    }
                }
            }
            self.peers.lemma_dom_len();
        }
        r
    }

    /// Seals the serialised table for saving (fresh nonce).
    pub fn seal(&self, json: &[u8]) -> (r: Result<Vec<u8>, &'static str>)
        ensures
            r is Ok <==> gcm_len_ok(json@, seq![]),
            match r {
                Ok(b) => exists|n: Seq<u8>|
                    n.len() == 12 && b@ == #[trigger] spec_aead_blob(self.spec_key(), n, json@, seq![])
                        && spec_aead_open_blob(self.spec_key(), b@, seq![]) == Some(json@),
                Err(e) => e@ == "peer encrypt failed"@,
            },
    {
        let nonce = random_nonce();
        match aead_encrypt(&self.key, &nonce, json) {
            Ok(b) => {
                proof {
                    assert(b@ == spec_aead_blob(self.spec_key(), nonce@, json@, seq![]));
                }
                Ok(b)
            },
            Err(_) => Err("peer encrypt failed"),
        }
    }

    /// Opens a saved table: refuses a blob shorter than nonce and tag, and
    /// one that does not decrypt under this table's key.
    pub fn open(&self, blob: &[u8]) -> (r: Result<Vec<u8>, &'static str>)
        ensures
            match r {
                Ok(j) => blob@.len() >= 28 && spec_aead_open_blob(self.spec_key(), blob@, seq![]) == Some(
                    j@,
                ),
                Err(e) => (blob@.len() < 28 && e@ == "peer store truncated"@) || (blob@.len() >= 28
                    && spec_aead_open_blob(self.spec_key(), blob@, seq![]) is None && e@
                    == "peer store decrypt failed"@),
            },
    {
        if blob.len() < 28 {
            return Err("peer store truncated");
        }
        match aead_decrypt(&self.key, blob) {
            Some(j) => Ok(j),
            None => Err("peer store decrypt failed"),
        }
    }
}

} // verus!
