//! Vault index: folder tree, file entries, tags, burn-after-reading shares,
//! deletion tombstones and an inverted search index whose keys are
//! HMAC-SHA256 tokens under the search key (the plaintext words never reach
//! the index).
//!
//! Ids come from one counter shared by folders, files and shares. Every
//! operation that fails leaves the index unchanged.
use vstd::prelude::*;
use vstd::utf8::encode_utf8;

use crate::crypto::hash::{hmac_sha256_hex, spec_hmac_sha256};
use crate::crypto::hex::spec_hex_encode;
use crate::crypto::KEY_LEN;
use crate::crypto::aead::{
    aead_decrypt_with_aad, aead_encrypt_with_aad, gcm_len_ok, spec_aead_blob, spec_aead_open_blob,
    spec_aes_gcm_seal, AES_GCM_NONCE_LEN, AES_GCM_TAG_LEN,
};
use crate::crypto::random::random_nonce;
use crate::idmap::{lemma_entries_lookup, pairs_map, IdMap};
use crate::vaultcore::keystore::{copy_range, le16, push_le16, rd16, read16};
use crate::strmap::StrMap;
use crate::vault::listing::{ids_by_name, name_of, name_ordered};
use crate::vault::tokenize::{spec_lowercase, spec_tokens, strings_view, tokenize};
use crate::p2p::proto::ManifestItem;
use crate::vclock::{spec_vc_merge, vc_bump, vc_get, vc_merge};

pub use crate::vault::tokenize::content_tokens;

verus! {

pub const ROOT_FOLDER: u64 = 0;

pub const INDEX_FORMAT_VER: u16 = 2;

#[derive(Clone, Debug)]
pub struct Folder {
    pub name: String,
    pub parent: u64,
}

#[derive(Debug)]
pub struct FileEntry {
    pub folder: u64,
    pub name: String,
    pub size: u64,
    pub tags: Vec<String>,
    pub created_ms: u64,
    pub modified_ms: u64,
    /// Key override (hex, 32 bytes) of a file received from a peer; `None`
    /// for a file imported here (its key is derived from the master key).
    pub fskey: Option<String>,
    /// Vector clock: device id → counter.
    pub vc: StrMap<u64>,
}

/// Deletion record propagated by sync.
#[derive(Debug)]
pub struct Tombstone {
    pub deleted_ms: u64,
    pub vc: StrMap<u64>,
}

#[derive(Clone, Debug)]
pub struct Share {
    pub file_id: u64,
    /// HMAC of the random token (the token itself is shown only once).
    pub token_hash: String,
    pub expires_ms: u64,
    pub max_opens: u32,
    pub opens: u32,
}

/// Search token of a word: hex HMAC-SHA256 of its UTF-8 bytes.
pub open spec fn spec_token_hash(key: Seq<u8>, t: Seq<char>) -> Seq<char> {
    spec_hex_encode(spec_hmac_sha256(key, encode_utf8(t)))
}

/// Postings that a list of words gives one file.
pub open spec fn token_pairs(key: Seq<u8>, id: u64, toks: Seq<Seq<char>>) -> Set<(Seq<char>, u64)> {
    Set::new(
        |p: (Seq<char>, u64)|
            p.1 == id && exists|i: int|
                0 <= i < toks.len() && p.0 == spec_token_hash(key, #[trigger] toks[i]),
    )
}

/// Words of a name (or a tag) as the index sees them.
pub open spec fn name_tokens(name: Seq<char>) -> Seq<Seq<char>> {
    spec_tokens(spec_lowercase(name))
}

/// Words of a list of tags, one tag after the other.
pub open spec fn tags_tokens(tags: Seq<Seq<char>>) -> Seq<Seq<char>>
    decreases tags.len(),
{
    if tags.len() == 0 {
        seq![]
    } else {
        tags_tokens(tags.drop_last()) + name_tokens(tags.last())
    }
}

/// Postings that a file entry holds: its name's words and its tags' words.
pub open spec fn entry_pairs(key: Seq<u8>, id: u64, e: FileEntry) -> Set<(Seq<char>, u64)> {
    token_pairs(key, id, name_tokens(e.name@)).union(
        token_pairs(key, id, tags_tokens(strings_view(e.tags@))),
    )
}

/// A new entry for a file registered here at `now`.
pub open spec fn is_fresh_entry(e: FileEntry, folder: u64, name: Seq<char>, size: u64, now: u64) -> bool {
    &&& e.folder == folder
    &&& e.name@ == name
    &&& e.size == size
    &&& e.tags@.len() == 0
    &&& e.created_ms == now
    &&& e.modified_ms == now
    &&& e.fskey is None
    &&& e.vc.wf()
    &&& e.vc.view() == Map::<Seq<char>, u64>::empty()
}

/// Search postings: (token, file id) pairs.
struct Postings {
    pairs: Vec<(String, u64)>,
}

impl Postings {
    closed spec fn view(&self) -> Set<(Seq<char>, u64)> {
        Set::new(|p: (Seq<char>, u64)| pairs_hold(self.pairs@, self.pairs@.len() as int, p))
    }

    fn new() -> (r: Self)
        ensures
            r.view() == Set::<(Seq<char>, u64)>::empty(),
    {
        let r = Postings { pairs: Vec::new() };
        proof {
            assert(r.view() =~= Set::<(Seq<char>, u64)>::empty());
        }
        r
    }

    fn has(&self, h: &String, id: u64) -> (b: bool)
        ensures
            b == self.view().contains((h@, id)),
    {
        let mut i: usize = 0;
        while i < self.pairs.len()
            invariant
                i <= self.pairs@.len(),
                forall|j: int| 0 <= j < i ==> !(self.pairs@[j].0@ == h@ && self.pairs@[j].1 == id),
            decreases self.pairs@.len() - i,
        {
            if self.pairs[i].1 == id && self.pairs[i].0 == *h {
                return true;
            }
            i = i + 1;
        }
        false
    }

    fn add(&mut self, h: String, id: u64)
        ensures
            final(self).view() == old(self).view().insert((h@, id)),
    {
        if !self.has(&h, id) {
            let ghost hv = h@;
            self.pairs.push((h, id));
            proof {
                let n = old(self).pairs@.len() as int;
                assert forall|p: (Seq<char>, u64)| #[trigger] self.view().contains(p) <==> old(
                    self,
                ).view().insert((hv, id)).contains(p) by {
                    if old(self).view().contains(p) {
                        let j = choose|j: int|
                            0 <= j < old(self).pairs@.len() && #[trigger] old(self).pairs@[j].0@
                                == p.0 && old(self).pairs@[j].1 == p.1;
                        assert(self.pairs@[j] == old(self).pairs@[j]);
                    }
                    if p == (hv, id) {
                        assert(self.pairs@[n].0@ == p.0);
                    }
                    if self.view().contains(p) {
                        let j = choose|j: int|
                            0 <= j < self.pairs@.len() && #[trigger] self.pairs@[j].0@ == p.0
                                && self.pairs@[j].1 == p.1;
                        if j < n {
                            assert(old(self).pairs@[j] == self.pairs@[j]);
                        }
                    }
                }
                assert(self.view() =~= old(self).view().insert((hv, id)));
            }
        } else {
            proof {
                assert(self.view() =~= old(self).view().insert((h@, id)));
            }
        }
    }

    fn remove(&mut self, h: &String, id: u64)
        ensures
            final(self).view() == old(self).view().remove((h@, id)),
    {
        let mut kept: Vec<(String, u64)> = Vec::new();
        let ghost src = self.pairs@;
        let mut i: usize = 0;
        while i < self.pairs.len()
            invariant
                self.pairs@ == src,
                i <= src.len(),
                forall|p: (Seq<char>, u64)| #[trigger]
                    pairs_hold(kept@, kept@.len() as int, p) <==> (p != (h@, id) && pairs_hold(
                        src,
                        i as int,
                        p,
                    )),
            decreases src.len() - i,
        {
            let e = &self.pairs[i];
            let ghost kept0 = kept@;
            if !(e.1 == id && e.0 == *h) {
                kept.push((e.0.clone(), e.1));
            }
            proof {
                assert forall|p: (Seq<char>, u64)| #[trigger]
                    pairs_hold(kept@, kept@.len() as int, p) <==> (p != (h@, id) && pairs_hold(
                        src,
                        i + 1,
                        p,
                    )) by {
                    if pairs_hold(kept@, kept@.len() as int, p) {
                        let j = choose|j: int|
                            0 <= j < kept@.len() && #[trigger] kept@[j].0@ == p.0 && kept@[j].1 == p.1;
                        if j < kept0.len() {
                            assert(kept0[j] == kept@[j]);
                            assert(pairs_hold(kept0, kept0.len() as int, p));
                        }
                    }
                    if p != (h@, id) && pairs_hold(src, i + 1, p) {
                        let j = choose|j: int|
                            0 <= j < i + 1 && #[trigger] src[j].0@ == p.0 && src[j].1 == p.1;
                        if j < i {
                            assert(pairs_hold(src, i as int, p));
                            assert(pairs_hold(kept0, kept0.len() as int, p));
                            let k = choose|k: int|
                                0 <= k < kept0.len() && #[trigger] kept0[k].0@ == p.0 && kept0[k].1
                                    == p.1;
                            assert(kept@[k] == kept0[k]);
                        } else {
                            assert(kept@[kept0.len() as int].0@ == p.0);
                        }
                    }
                }
            }
            i = i + 1;
        }
        self.pairs = kept;
        proof {
            assert(self.view() =~= old(self).view().remove((h@, id)));
        }
    }
}

/// The pair occurs among the first `n` entries.
spec fn pairs_hold(s: Seq<(String, u64)>, n: int, p: (Seq<char>, u64)) -> bool {
    exists|j: int| 0 <= j < n && #[trigger] s[j].0@ == p.0 && s[j].1 == p.1
}

pub struct VaultIndex {
    folders: IdMap<Folder>,
    files: IdMap<FileEntry>,
    shares: IdMap<Share>,
    search: Postings,
    tombstones: IdMap<Tombstone>,
    next_id: u64,
    search_key: [u8; KEY_LEN],
}

impl VaultIndex {
    /// Folders by id.
    pub closed spec fn folders(&self) -> Map<u64, Folder> {
        self.folders@
    }

    /// File entries by id.
    pub closed spec fn files(&self) -> Map<u64, FileEntry> {
        self.files@
    }

    /// Shares by id.
    pub closed spec fn shares(&self) -> Map<u64, Share> {
        self.shares@
    }

    /// Tombstones by file id.
    pub closed spec fn tombs(&self) -> Map<u64, Tombstone> {
        self.tombstones@
    }

    /// Search postings: (token, file id).
    pub closed spec fn postings(&self) -> Set<(Seq<char>, u64)> {
        self.search.view()
    }

    /// The next id to hand out.
    pub closed spec fn spec_next_id(&self) -> u64 {
        self.next_id
    }

    /// The key that search tokens are computed under.
    pub closed spec fn spec_search_key(&self) -> Seq<u8> {
        self.search_key@
    }

    /// File ids in ascending order.
    pub closed spec fn file_ids(&self) -> Seq<u64> {
        self.files.spec_entries().map_values(|e: (u64, FileEntry)| e.0)
    }

    pub closed spec fn wf(&self) -> bool {
        &&& self.folders.wf()
        &&& self.files.wf()
        &&& self.shares.wf()
        &&& self.tombstones.wf()
        &&& forall|id: u64| #[trigger]
            self.files@.dom().contains(id) ==> self.files@[id].vc.wf()
        &&& forall|id: u64| #[trigger]
            self.tombstones@.dom().contains(id) ==> self.tombstones@[id].vc.wf()
    }

    /// The folder tree is whole: the root exists and is its own parent,
    /// every folder's parent is a folder, every folder reaches the root,
    /// folder ids lie below the next id, and every file is in a folder.
    pub open spec fn tree_ok(&self) -> bool {
        &&& self.folders().dom().contains(ROOT_FOLDER)
        &&& self.folders()[ROOT_FOLDER].parent == ROOT_FOLDER
        &&& forall|f: u64|
            #[trigger] self.folders().dom().contains(f) ==> f < self.spec_next_id()
                && self.folders().dom().contains(self.folders()[f].parent) && in_subtree(
                self.folders(),
                ROOT_FOLDER,
                f,
            )
        &&& forall|x: u64|
            #[trigger] self.files().dom().contains(x) ==> self.folders().dom().contains(
                self.files()[x].folder,
            )
    }

    /// Everything but the file entries and the postings is as in `other`.
    pub open spec fn same_but_files(&self, other: &VaultIndex) -> bool {
        &&& self.folders() == other.folders()
        &&& self.shares() == other.shares()
        &&& self.tombs() == other.tombs()
        &&& self.spec_next_id() == other.spec_next_id()
        &&& self.spec_search_key() == other.spec_search_key()
    }

    /// An empty index: the root folder alone, next id 1.
    pub fn new(search_key: [u8; KEY_LEN]) -> (ix: Self)
        ensures
            ix.wf(),
            ix.tree_ok(),
            ix.folders().dom() == set![ROOT_FOLDER],
            ix.folders()[ROOT_FOLDER].name@ == Seq::<char>::empty(),
            ix.folders()[ROOT_FOLDER].parent == 0,
            ix.files() == Map::<u64, FileEntry>::empty(),
            ix.shares() == Map::<u64, Share>::empty(),
            ix.tombs() == Map::<u64, Tombstone>::empty(),
            ix.postings() == Set::<(Seq<char>, u64)>::empty(),
            ix.spec_next_id() == 1,
            ix.spec_search_key() == search_key@,
    {
        let mut folders = IdMap::new();
        folders.insert(ROOT_FOLDER, Folder { name: String::new(), parent: 0 });
        let ix = VaultIndex {
            folders,
            files: IdMap::new(),
            shares: IdMap::new(),
            search: Postings::new(),
            tombstones: IdMap::new(),
            next_id: 1,
            search_key,
        };
        proof {
            assert(ix.folders().dom() =~= set![ROOT_FOLDER]);
            assert(descends(ix.folders(), ROOT_FOLDER, ROOT_FOLDER, 0));
        }
        ix
    }

    /// Token hash of a word under the search key (also used for share
    /// tokens).
    pub fn token_hash(&self, token: &str) -> (h: String)
        ensures
            h@ == spec_token_hash(self.spec_search_key(), token@),
    {
        hmac_sha256_hex(&self.search_key, token.as_bytes())
    }

    /// Reserves the next id (a file key is derived from its id before the
    /// file is registered).
    pub fn alloc_id(&mut self) -> (id: u64)
        requires
            old(self).spec_next_id() < u64::MAX,
        ensures
            id == old(self).spec_next_id(),
            final(self).spec_next_id() == id + 1,
            final(self).wf() == old(self).wf(),
            final(self).folders() == old(self).folders(),
            final(self).files() == old(self).files(),
            final(self).shares() == old(self).shares(),
            final(self).tombs() == old(self).tombs(),
            final(self).postings() == old(self).postings(),
            final(self).spec_search_key() == old(self).spec_search_key(),
            final(self).file_ids() == old(self).file_ids(),
    {
        let id = self.next_id;
        self.next_id = self.next_id + 1;
        id
    }

    /// Adds the postings of a list of words for one file.
    fn index_tokens(&mut self, file_id: u64, tokens: &[String])
        ensures
            final(self).postings() == old(self).postings().union(
                token_pairs(old(self).spec_search_key(), file_id, strings_view(tokens@)),
            ),
            final(self).folders == old(self).folders,
            final(self).files == old(self).files,
            final(self).shares == old(self).shares,
            final(self).tombstones == old(self).tombstones,
            final(self).next_id == old(self).next_id,
            final(self).search_key == old(self).search_key,
    {
        let ghost key = self.search_key@;
        let ghost toks = strings_view(tokens@);
        let mut i: usize = 0;
        while i < tokens.len()
            invariant
                key == self.search_key@,
                toks == strings_view(tokens@),
                i <= tokens@.len(),
                self.search.view() == old(self).search.view().union(
                    token_pairs(key, file_id, toks.take(i as int)),
                ),
                self.folders == old(self).folders,
                self.files == old(self).files,
                self.shares == old(self).shares,
                self.tombstones == old(self).tombstones,
                self.next_id == old(self).next_id,
                self.search_key == old(self).search_key,
            decreases tokens@.len() - i,
        {
            let h = self.token_hash(tokens[i].as_str());
            let ghost before = self.search.view();
            self.search.add(h, file_id);
            proof {
                assert(token_pairs(key, file_id, toks.take(i + 1)) =~= token_pairs(
                    key,
                    file_id,
                    toks.take(i as int),
                ).insert((spec_token_hash(key, toks[i as int]), file_id))) by {
                    assert forall|p: (Seq<char>, u64)|
                        #[trigger] token_pairs(key, file_id, toks.take(i + 1)).contains(p)
                            implies token_pairs(key, file_id, toks.take(i as int)).insert(
                            (spec_token_hash(key, toks[i as int]), file_id),
                        ).contains(p) by {
                        let j = choose|j: int|
                            0 <= j < toks.take(i + 1).len() && p.0 == spec_token_hash(
                                key,
                                #[trigger] toks.take(i + 1)[j],
                            );
                        if j < i {
                            assert(toks.take(i as int)[j] == toks.take(i + 1)[j]);
                        }
                    }
                    assert forall|p: (Seq<char>, u64)|
                        token_pairs(key, file_id, toks.take(i as int)).insert(
                            (spec_token_hash(key, toks[i as int]), file_id),
                        ).contains(p) implies #[trigger] token_pairs(
                        key,
                        file_id,
                        toks.take(i + 1),
                    ).contains(p) by {
                        if p == (spec_token_hash(key, toks[i as int]), file_id) {
                            assert(toks.take(i + 1)[i as int] == toks[i as int]);
                        } else {
                            let j = choose|j: int|
                                0 <= j < toks.take(i as int).len() && p.0 == spec_token_hash(
                                    key,
                                    #[trigger] toks.take(i as int)[j],
                                );
                            assert(toks.take(i + 1)[j] == toks.take(i as int)[j]);
                        }
                    }
                }
                assert(self.search.view() =~= old(self).search.view().union(
                    token_pairs(key, file_id, toks.take(i + 1)),
                ));
            }
            i = i + 1;
        }
        proof {
            assert(toks.take(i as int) =~= toks);
        }
    }

    /// Removes the postings of a name's (or a tag's) words for one file.
    fn deindex_name(&mut self, file_id: u64, name: &str)
        ensures
            final(self).postings() == old(self).postings().difference(
                token_pairs(old(self).spec_search_key(), file_id, name_tokens(name@)),
            ),
            final(self).folders == old(self).folders,
            final(self).files == old(self).files,
            final(self).shares == old(self).shares,
            final(self).tombstones == old(self).tombstones,
            final(self).next_id == old(self).next_id,
            final(self).search_key == old(self).search_key,
    {
        let ghost key = self.search_key@;
        let toks = tokenize(name);
        let ghost tv = strings_view(toks@);
        let mut i: usize = 0;
        while i < toks.len()
            invariant
                key == self.search_key@,
                tv == strings_view(toks@),
                tv == name_tokens(name@),
                i <= toks@.len(),
                self.search.view() == old(self).search.view().difference(
                    token_pairs(key, file_id, tv.take(i as int)),
                ),
                self.folders == old(self).folders,
                self.files == old(self).files,
                self.shares == old(self).shares,
                self.tombstones == old(self).tombstones,
                self.next_id == old(self).next_id,
                self.search_key == old(self).search_key,
            decreases toks@.len() - i,
        {
            let h = self.token_hash(toks[i].as_str());
            self.search.remove(&h, file_id);
            proof {
                assert(token_pairs(key, file_id, tv.take(i + 1)) =~= token_pairs(
                    key,
                    file_id,
                    tv.take(i as int),
                ).insert((spec_token_hash(key, tv[i as int]), file_id))) by {
                    assert forall|p: (Seq<char>, u64)|
                        #[trigger] token_pairs(key, file_id, tv.take(i + 1)).contains(p)
                            implies token_pairs(key, file_id, tv.take(i as int)).insert(
                            (spec_token_hash(key, tv[i as int]), file_id),
                        ).contains(p) by {
                        let j = choose|j: int|
                            0 <= j < tv.take(i + 1).len() && p.0 == spec_token_hash(
                                key,
                                #[trigger] tv.take(i + 1)[j],
                            );
                        if j < i {
                            assert(tv.take(i as int)[j] == tv.take(i + 1)[j]);
                        }
                    }
                    assert forall|p: (Seq<char>, u64)|
                        token_pairs(key, file_id, tv.take(i as int)).insert(
                            (spec_token_hash(key, tv[i as int]), file_id),
                        ).contains(p) implies #[trigger] token_pairs(
                        key,
                        file_id,
                        tv.take(i + 1),
                    ).contains(p) by {
                        if p == (spec_token_hash(key, tv[i as int]), file_id) {
                            assert(tv.take(i + 1)[i as int] == tv[i as int]);
                        } else {
                            let j = choose|j: int|
                                0 <= j < tv.take(i as int).len() && p.0 == spec_token_hash(
                                    key,
                                    #[trigger] tv.take(i as int)[j],
                                );
                            assert(tv.take(i + 1)[j] == tv.take(i as int)[j]);
                        }
                    }
                }
                assert(self.search.view() =~= old(self).search.view().difference(
                    token_pairs(key, file_id, tv.take(i + 1)),
                ));
            }
            i = i + 1;
        }
        proof {
            assert(tv.take(i as int) =~= tv);
        }
    }
}

/// Postings of a concatenation are the union of the postings.
pub proof fn lemma_token_pairs_concat(key: Seq<u8>, id: u64, a: Seq<Seq<char>>, b: Seq<Seq<char>>)
    ensures
        token_pairs(key, id, a + b) == token_pairs(key, id, a).union(token_pairs(key, id, b)),
{
    let ab = a + b;
    assert forall|p: (Seq<char>, u64)| #[trigger] token_pairs(key, id, ab).contains(p) implies token_pairs(
        key,
        id,
        a,
    ).union(token_pairs(key, id, b)).contains(p) by {
        let j = choose|j: int| 0 <= j < ab.len() && p.0 == spec_token_hash(key, #[trigger] ab[j]);
        if j < a.len() {
            assert(ab[j] == a[j]);
        } else {
            assert(ab[j] == b[j - a.len()]);
        }
    }
    assert forall|p: (Seq<char>, u64)| #[trigger] token_pairs(key, id, a).union(token_pairs(key, id, b)).contains(
        p,
    ) implies token_pairs(key, id, ab).contains(p) by {
        if token_pairs(key, id, a).contains(p) {
            let j = choose|j: int| 0 <= j < a.len() && p.0 == spec_token_hash(key, #[trigger] a[j]);
            assert(ab[j] == a[j]);
        } else {
            let j = choose|j: int| 0 <= j < b.len() && p.0 == spec_token_hash(key, #[trigger] b[j]);
            assert(ab[j + a.len()] == b[j]);
        }
    }
    assert(token_pairs(key, id, ab) =~= token_pairs(key, id, a).union(token_pairs(key, id, b)));
}

/// A map that agrees with another off one key, and has that key, is the
/// other with the key set.
pub proof fn lemma_put_is_insert<V>(b: Map<u64, V>, a: Map<u64, V>, id: u64)
    requires
        a.dom().contains(id),
        a.remove(id) == b.remove(id),
    ensures
        a == b.insert(id, a[id]),
{
    assert forall|k: u64| #[trigger] a.dom().contains(k) <==> b.insert(id, a[id]).dom().contains(k) by {
        if k != id {
            assert(a.remove(id).dom().contains(k) == a.dom().contains(k));
            assert(b.remove(id).dom().contains(k) == b.dom().contains(k));
        }
    }
    assert forall|k: u64| #[trigger] a.dom().contains(k) && k != id implies a[k] == b[k] by {
        assert(a.remove(id)[k] == a[k]);
        assert(b.remove(id)[k] == b[k]);
    }
    assert(a =~= b.insert(id, a[id]));
}

/// A text contains a character.
fn has_char(s: &str, c: char) -> (b: bool)
    ensures
        b == s@.contains(c),
{
    let ghost cs = s@;
    let mut found = false;
    proof {
        broadcast use vstd::string::axiom_spec_iter;
    }
    for x in it: s.chars()
        invariant
            cs == s@,
            it.seq() == cs,
            found == exists|j: int| 0 <= j < it.index() && cs[j] == c,
    {
        if x == c {
            found = true;
        }
    }
    proof {
        if found {
            let j = choose|j: int| 0 <= j < cs.len() && cs[j] == c;
            assert(cs.contains(c));
        } else {
            if cs.contains(c) {
                let j = choose|j: int| 0 <= j < cs.len() && cs[j] == c;
            }
        }
    }
    found
}

/// What registering a file at `now` does: the new entry takes the next id,
/// is fresh (no file key, no tags, an empty clock, both times `now`) and its
/// tokens are posted; a missing folder or an empty name is refused and nothing
/// changes.
pub open spec fn add_file_outcome(
    s0: VaultIndex,
    s1: VaultIndex,
    folder: u64,
    name: Seq<char>,
    size: u64,
    tokens: Seq<Seq<char>>,
    now: u64,
    r: Result<u64, &'static str>,
) -> bool {
    match r {
        Ok(id) => {
            &&& id == s0.spec_next_id()
            &&& s1.spec_next_id() == id + 1
            &&& s1.files().dom().contains(id)
            &&& s1.files().remove(id) == s0.files().remove(id)
            &&& is_fresh_entry(s1.files()[id], folder, name, size, now)
            &&& s1.postings() == s0.postings().union(token_pairs(s0.spec_search_key(), id, tokens))
            &&& s1.folders() == s0.folders()
            &&& s1.shares() == s0.shares()
            &&& s1.tombs() == s0.tombs()
            &&& s1.spec_search_key() == s0.spec_search_key()
        },
        Err(e) => {
            &&& s1 == s0
            &&& e@ == (if !s0.folders().dom().contains(folder) {
                "folder not found"@
            } else {
                "invalid file name"@
            })
        },
    }
}

impl VaultIndex {
    /// Registers a file imported at `now` under the next id.
    pub fn add_file_at(&mut self, folder: u64, name: &str, size: u64, tokens: &[String], now: u64) -> (r:
        Result<u64, &'static str>)
        requires
            old(self).wf(),
            old(self).spec_next_id() < u64::MAX,
        ensures
            final(self).wf(),
            old(self).tree_ok() ==> final(self).tree_ok(),
            r is Ok <==> (old(self).folders().dom().contains(folder) && name@.len() > 0),
            add_file_outcome(*old(self), *final(self), folder, name@, size, strings_view(tokens@), now, r),
    {
        if !self.folders.contains_key(folder) {
            return Err("folder not found");
        }
        if name.is_empty() {
            return Err("invalid file name");
        }
        let id = self.alloc_id();
        self.put_fresh(id, folder, name, size, tokens, now);
        proof {
            lemma_put_is_insert(old(self).files(), self.files(), id);
        }
        Ok(id)
    }

    /// Registers a file under the next id (timestamped with the clock): what
    /// `add_file_at` does at the moment the clock gives.
    pub fn add_file(&mut self, folder: u64, name: &str, size: u64, tokens: &[String]) -> (r: Result<
        u64,
        &'static str,
    >)
        requires
            old(self).wf(),
            old(self).spec_next_id() < u64::MAX,
        ensures
            final(self).wf(),
            old(self).tree_ok() ==> final(self).tree_ok(),
            r is Ok <==> (old(self).folders().dom().contains(folder) && name@.len() > 0),
            exists|now: u64|
                #[trigger] add_file_outcome(*old(self), *final(self), folder, name@, size, strings_view(tokens@), now, r),
    {
        let now = crate::clock::now_ms();
        self.add_file_at(folder, name, size, tokens, now)
    }

    fn put_fresh(&mut self, id: u64, folder: u64, name: &str, size: u64, tokens: &[String], now: u64)
        requires
            old(self).wf(),
        ensures
            final(self).wf(),
            final(self).files().dom().contains(id),
            final(self).files().remove(id) == old(self).files().remove(id),
            is_fresh_entry(final(self).files()[id], folder, name@, size, now),
            final(self).postings() == old(self).postings().union(
                token_pairs(old(self).spec_search_key(), id, strings_view(tokens@)),
            ),
            final(self).folders() == old(self).folders(),
            final(self).shares() == old(self).shares(),
            final(self).tombs() == old(self).tombs(),
            final(self).spec_search_key() == old(self).spec_search_key(),
            final(self).spec_next_id() == old(self).spec_next_id(),
    {
        let e = FileEntry {
            folder,
            name: name.to_owned(),
            size,
            tags: Vec::new(),
            created_ms: now,
            modified_ms: now,
            fskey: None,
            vc: StrMap::new(),
        };
        self.files.insert(id, e);
        self.index_tokens(id, tokens);
        proof {
            assert(self.files().remove(id) =~= old(self).files().remove(id));
        }
    }

    /// Registers a file under an id reserved with `alloc_id`.
    pub fn add_file_with_id_at(
        &mut self,
        id: u64,
        folder: u64,
        name: &str,
        size: u64,
        tokens: &[String],
        now: u64,
    ) -> (r: Result<(), &'static str>)
        requires
            old(self).wf(),
        ensures
            final(self).wf(),
            old(self).tree_ok() ==> final(self).tree_ok(),
            r is Ok <==> (old(self).folders().dom().contains(folder) && name@.len() > 0
                && !old(self).files().dom().contains(id)),
            r is Ok ==> {
                &&& final(self).files() == old(self).files().insert(id, final(self).files()[id])
                &&& is_fresh_entry(final(self).files()[id], folder, name@, size, now)
                &&& final(self).postings() == old(self).postings().union(
                    token_pairs(old(self).spec_search_key(), id, strings_view(tokens@)),
                )
                &&& final(self).folders() == old(self).folders()
                &&& final(self).shares() == old(self).shares()
                &&& final(self).tombs() == old(self).tombs()
                &&& final(self).spec_next_id() == old(self).spec_next_id()
                &&& final(self).spec_search_key() == old(self).spec_search_key()
            },
            match r {
                Ok(_) => true,
                Err(e) => {
                    &&& *final(self) == *old(self)
                    &&& e@ == (if !old(self).folders().dom().contains(folder) {
                        "folder not found"@
                    } else if name@.len() == 0 {
                        "invalid file name"@
                    } else {
                        "duplicate file id"@
                    })
                },
            },
    {
        if !self.folders.contains_key(folder) {
            return Err("folder not found");
        }
        if name.is_empty() {
            return Err("invalid file name");
        }
        if self.files.contains_key(id) {
            return Err("duplicate file id");
        }
        self.put_fresh(id, folder, name, size, tokens, now);
        proof {
            lemma_put_is_insert(old(self).files(), self.files(), id);
        }
        Ok(())
    }

    /// Registers a file under a reserved id (timestamped with the clock).
    pub fn add_file_with_id(&mut self, id: u64, folder: u64, name: &str, size: u64, tokens: &[String]) -> (r:
        Result<(), &'static str>)
        requires
            old(self).wf(),
        ensures
            final(self).wf(),
            old(self).tree_ok() ==> final(self).tree_ok(),
            r is Ok <==> (old(self).folders().dom().contains(folder) && name@.len() > 0
                && !old(self).files().dom().contains(id)),
            r is Ok ==> {
                &&& final(self).files() == old(self).files().insert(id, final(self).files()[id])
                &&& final(self).files()[id].folder == folder
                &&& final(self).files()[id].name@ == name@
                &&& final(self).files()[id].size == size
                &&& final(self).postings() == old(self).postings().union(
                    token_pairs(old(self).spec_search_key(), id, strings_view(tokens@)),
                )
                &&& final(self).folders() == old(self).folders()
            },
            r is Err ==> *final(self) == *old(self),
    {
        let now = crate::clock::now_ms();
        self.add_file_with_id_at(id, folder, name, size, tokens, now)
    }

    /// Creates a folder under `parent`.
    pub fn mkdir(&mut self, parent: u64, name: &str) -> (r: Result<u64, &'static str>)
        requires
            old(self).wf(),
            old(self).spec_next_id() < u64::MAX,
        ensures
            final(self).wf(),
            old(self).tree_ok() ==> final(self).tree_ok(),
            r is Ok <==> (old(self).folders().dom().contains(parent) && name@.len() > 0
                && !name@.contains('/') && !name@.contains('\\')),
            match r {
                Ok(id) => {
                    &&& id == old(self).spec_next_id()
                    &&& final(self).spec_next_id() == id + 1
                    &&& final(self).folders().dom() == old(self).folders().dom().insert(id)
                    &&& final(self).folders().remove(id) == old(self).folders().remove(id)
                    &&& final(self).folders()[id].name@ == name@
                    &&& final(self).folders()[id].parent == parent
                    &&& old(self).tree_ok() ==> (forall|f: u64| #[trigger]
                        final(self).folders().dom().contains(f) ==> final(self).folders()[f].parent != id)
                    &&& old(self).tree_ok() ==> (forall|x: u64| #[trigger]
                        final(self).files().dom().contains(x) ==> final(self).files()[x].folder != id)
                    &&& final(self).files() == old(self).files()
                    &&& final(self).postings() == old(self).postings()
                    &&& final(self).shares() == old(self).shares()
                    &&& final(self).tombs() == old(self).tombs()
                    &&& final(self).spec_search_key() == old(self).spec_search_key()
                },
                Err(e) => {
                    &&& *final(self) == *old(self)
                    &&& e@ == (if !old(self).folders().dom().contains(parent) {
                        "parent folder not found"@
                    } else {
                        "invalid folder name"@
                    })
                },
            },
    {
        if !self.folders.contains_key(parent) {
            return Err("parent folder not found");
        }
        if name.is_empty() || has_char(name, '/') || has_char(name, '\\') {
            return Err("invalid folder name");
        }
        let id = self.alloc_id();
        self.folders.insert(id, Folder { name: name.to_owned(), parent });
        proof {
            assert(self.folders().remove(id) =~= old(self).folders().remove(id));
            if old(self).tree_ok() {
                let a = old(self).folders();
                let b = self.folders();
                assert(!a.dom().contains(id));
                assert forall|x: u64| #[trigger] a.dom().contains(x) implies b.dom().contains(x) && b[x].parent
                    == a[x].parent by {
                    assert(b.remove(id)[x] == a.remove(id)[x]);
                }
                lemma_tree_kept(a, b);
                assert(in_subtree(a, ROOT_FOLDER, parent));
                let n = choose|n: nat| descends(a, parent, ROOT_FOLDER, n);
                lemma_descends_kept(a, b, parent, ROOT_FOLDER, n);
                assert(descends(b, id, ROOT_FOLDER, n + 1));
                assert forall|f: u64| #[trigger] b.dom().contains(f) implies f < self.spec_next_id()
                    && b.dom().contains(b[f].parent) && in_subtree(b, ROOT_FOLDER, f) by {
                    if f != id {
                        assert(a.dom().contains(f));
                        assert(in_subtree(a, ROOT_FOLDER, f));
                    }
                }
            }
        }
        Ok(id)
    }

    /// Renames a folder (not the root).
    pub fn rename_folder(&mut self, id: u64, name: &str) -> (r: Result<(), &'static str>)
        requires
            old(self).wf(),
        ensures
            final(self).wf(),
            old(self).tree_ok() ==> final(self).tree_ok(),
            r is Ok <==> (id != ROOT_FOLDER && old(self).folders().dom().contains(id) && name@.len()
                > 0),
            match r {
                Ok(_) => {
                    &&& final(self).folders().dom() == old(self).folders().dom()
                    &&& final(self).folders().remove(id) == old(self).folders().remove(id)
                    &&& final(self).folders()[id].name@ == name@
                    &&& final(self).folders()[id].parent == old(self).folders()[id].parent
                    &&& final(self).same_but_folders(old(self))
                },
                Err(e) => {
                    &&& *final(self) == *old(self)
                    &&& e@ == (if id == ROOT_FOLDER {
                        "cannot rename root"@
                    } else if !old(self).folders().dom().contains(id) {
                        "folder not found"@
                    } else {
                        "invalid folder name"@
                    })
                },
            },
    {
        if id == ROOT_FOLDER {
            return Err("cannot rename root");
        }
        let parent = match self.folders.get(id) {
            Some(f) => f.parent,
            None => return Err("folder not found"),
        };
        if name.is_empty() {
            return Err("invalid folder name");
        }
        self.folders.insert(id, Folder { name: name.to_owned(), parent });
        proof {
            assert(self.folders().remove(id) =~= old(self).folders().remove(id));
            assert(self.folders().dom() =~= old(self).folders().dom());
            let a = old(self).folders();
            let b = self.folders();
            assert forall|x: u64| #[trigger] a.dom().contains(x) implies b.dom().contains(x) && b[x].parent
                == a[x].parent by {
                if x != id {
                    assert(b.remove(id)[x] == a.remove(id)[x]);
                }
            }
            lemma_tree_kept(a, b);
            if old(self).tree_ok() {
                assert forall|f: u64| #[trigger] b.dom().contains(f) implies f < self.spec_next_id()
                    && b.dom().contains(b[f].parent) && in_subtree(b, ROOT_FOLDER, f) by {
                    assert(a.dom().contains(f));
                    assert(in_subtree(a, ROOT_FOLDER, f));
                }
            }
        }
        Ok(())
    }

    /// Everything but the folders is as in `other`.
    pub open spec fn same_but_folders(&self, other: &VaultIndex) -> bool {
        &&& self.files() == other.files()
        &&& self.postings() == other.postings()
        &&& self.shares() == other.shares()
        &&& self.tombs() == other.tombs()
        &&& self.spec_next_id() == other.spec_next_id()
        &&& self.spec_search_key() == other.spec_search_key()
    }
}

/// Two entries differ at most in their names.
pub open spec fn same_but_name(a: FileEntry, b: FileEntry) -> bool {
    &&& a.folder == b.folder
    &&& a.size == b.size
    &&& a.tags == b.tags
    &&& a.created_ms == b.created_ms
    &&& a.modified_ms == b.modified_ms
    &&& a.fskey == b.fskey
    &&& a.vc == b.vc
}

/// Two entries differ at most in their tags.
pub open spec fn same_but_tags(a: FileEntry, b: FileEntry) -> bool {
    &&& a.folder == b.folder
    &&& a.name == b.name
    &&& a.size == b.size
    &&& a.created_ms == b.created_ms
    &&& a.modified_ms == b.modified_ms
    &&& a.fskey == b.fskey
    &&& a.vc == b.vc
}

proof fn lemma_tags_tokens_step(tags: Seq<Seq<char>>, i: int)
    requires
        0 <= i < tags.len(),
    ensures
        tags_tokens(tags.take(i + 1)) == tags_tokens(tags.take(i)) + name_tokens(tags[i]),
{
    assert(tags.take(i + 1).drop_last() =~= tags.take(i));
}

impl VaultIndex {
    /// Removes the postings of a list of tags for one file.
    fn deindex_tags(&mut self, file_id: u64, tags: &Vec<String>)
        ensures
            final(self).postings() == old(self).postings().difference(
                token_pairs(old(self).spec_search_key(), file_id, tags_tokens(strings_view(tags@))),
            ),
            final(self).folders == old(self).folders,
            final(self).files == old(self).files,
            final(self).shares == old(self).shares,
            final(self).tombstones == old(self).tombstones,
            final(self).next_id == old(self).next_id,
            final(self).search_key == old(self).search_key,
    {
        let ghost key = self.search_key@;
        let ghost tv = strings_view(tags@);
        let mut i: usize = 0;
        while i < tags.len()
            invariant
                key == self.search_key@,
                tv == strings_view(tags@),
                i <= tags@.len(),
                self.search.view() == old(self).search.view().difference(
                    token_pairs(key, file_id, tags_tokens(tv.take(i as int))),
                ),
                self.folders == old(self).folders,
                self.files == old(self).files,
                self.shares == old(self).shares,
                self.tombstones == old(self).tombstones,
                self.next_id == old(self).next_id,
                self.search_key == old(self).search_key,
            decreases tags@.len() - i,
        {
            self.deindex_name(file_id, tags[i].as_str());
            proof {
                lemma_tags_tokens_step(tv, i as int);
                lemma_token_pairs_concat(
                    key,
                    file_id,
                    tags_tokens(tv.take(i as int)),
                    name_tokens(tv[i as int]),
                );
                assert(self.search.view() =~= old(self).search.view().difference(
                    token_pairs(key, file_id, tags_tokens(tv.take(i + 1))),
                ));
            }
            i = i + 1;
        }
        proof {
            assert(tv.take(i as int) =~= tv);
        }
    }

    /// Renames a file and re-indexes its name's words.
    pub fn rename_file(&mut self, id: u64, name: &str) -> (r: Result<(), &'static str>)
        requires
            old(self).wf(),
        ensures
            final(self).wf(),
            old(self).tree_ok() ==> final(self).tree_ok(),
            r is Ok <==> (name@.len() > 0 && old(self).files().dom().contains(id)),
            match r {
                Ok(_) => {
                    &&& final(self).files() == old(self).files().insert(id, final(self).files()[id])
                    &&& final(self).files()[id].name@ == name@
                    &&& same_but_name(final(self).files()[id], old(self).files()[id])
                    &&& final(self).postings() == old(self).postings().difference(
                        token_pairs(
                            old(self).spec_search_key(),
                            id,
                            name_tokens(old(self).files()[id].name@),
                        ),
                    ).union(token_pairs(old(self).spec_search_key(), id, name_tokens(name@)))
                    &&& final(self).same_but_files(old(self))
                },
                Err(e) => {
                    &&& *final(self) == *old(self)
                    &&& e@ == (if name@.len() == 0 {
                        "invalid file name"@
                    } else {
                        "file not found"@
                    })
                },
            },
    {
        if name.is_empty() {
            return Err("invalid file name");
        }
        if !self.files.contains_key(id) {
            return Err("file not found");
        }
        let mut e = match self.files.remove(id) {
            Some(e) => e,
            None => return Err("file not found"),
        };
        let old_name = e.name;
        e.name = name.to_owned();
        self.files.insert(id, e);
        self.deindex_name(id, old_name.as_str());
        let toks = tokenize(name);
        self.index_tokens(id, toks.as_slice());
        proof {
            assert(self.files() =~= old(self).files().insert(id, self.files()[id]));
        }
        Ok(())
    }

    /// Removes a file entry and all its postings; gives the entry back.
    pub fn remove_file(&mut self, id: u64) -> (r: Result<FileEntry, &'static str>)
        requires
            old(self).wf(),
        ensures
            final(self).wf(),
            old(self).tree_ok() ==> final(self).tree_ok(),
            r is Ok <==> old(self).files().dom().contains(id),
            match r {
                Ok(e) => {
                    &&& e == old(self).files()[id]
                    &&& final(self).files() == old(self).files().remove(id)
                    &&& final(self).postings() == old(self).postings().difference(
                        entry_pairs(old(self).spec_search_key(), id, e),
                    )
                    &&& final(self).same_but_files(old(self))
                },
                Err(e) => *final(self) == *old(self) && e@ == "file not found"@,
            },
    {
        if !self.files.contains_key(id) {
            return Err("file not found");
        }
        let e = match self.files.remove(id) {
            Some(e) => e,
            None => return Err("file not found"),
        };
        self.deindex_name(id, e.name.as_str());
        self.deindex_tags(id, &e.tags);
        proof {
            assert(self.postings() =~= old(self).postings().difference(
                entry_pairs(old(self).spec_search_key(), id, e),
            ));
        }
        Ok(e)
    }

    /// Replaces a file's tags and re-indexes their words.
    pub fn set_tags(&mut self, id: u64, tags: Vec<String>) -> (r: Result<(), &'static str>)
        requires
            old(self).wf(),
        ensures
            final(self).wf(),
            old(self).tree_ok() ==> final(self).tree_ok(),
            r is Ok <==> old(self).files().dom().contains(id),
            match r {
                Ok(_) => {
                    &&& final(self).files() == old(self).files().insert(id, final(self).files()[id])
                    &&& final(self).files()[id].tags@ == tags@
                    &&& same_but_tags(final(self).files()[id], old(self).files()[id])
                    &&& final(self).postings() == old(self).postings().difference(
                        token_pairs(
                            old(self).spec_search_key(),
                            id,
                            tags_tokens(strings_view(old(self).files()[id].tags@)),
                        ),
                    ).union(
                        token_pairs(old(self).spec_search_key(), id, tags_tokens(strings_view(tags@))),
                    )
                    &&& final(self).same_but_files(old(self))
                },
                Err(e) => *final(self) == *old(self) && e@ == "file not found"@,
            },
    {
        if !self.files.contains_key(id) {
            return Err("file not found");
        }
        let mut e = match self.files.remove(id) {
            Some(e) => e,
            None => return Err("file not found"),
        };
        let old_tags = e.tags;
        let ghost tv = strings_view(tags@);
        let mut new_tokens: Vec<String> = Vec::new();
        let mut i: usize = 0;
        while i < tags.len()
            invariant
                tv == strings_view(tags@),
                i <= tags@.len(),
                strings_view(new_tokens@) == tags_tokens(tv.take(i as int)),
            decreases tags@.len() - i,
        {
            let mut ts = tokenize(tags[i].as_str());
            let ghost a = new_tokens@;
            let ghost b = ts@;
            new_tokens.append(&mut ts);
            proof {
                lemma_tags_tokens_step(tv, i as int);
                assert(strings_view(new_tokens@) =~= strings_view(a) + strings_view(b));
            }
            i = i + 1;
        }
        proof {
            assert(tv.take(i as int) =~= tv);
        }
        e.tags = tags;
        self.files.insert(id, e);
        self.deindex_tags(id, &old_tags);
        self.index_tokens(id, new_tokens.as_slice());
        proof {
            assert(self.files() =~= old(self).files().insert(id, self.files()[id]));
        }
        Ok(())
    }

    /// Folder of a file.
    pub fn file_folder(&self, id: u64) -> (r: Result<u64, &'static str>)
        requires
            self.wf(),
        ensures
            match r {
                Ok(f) => self.files().dom().contains(id) && f == self.files()[id].folder,
                Err(e) => !self.files().dom().contains(id) && e@ == "file not found"@,
            },
    {
        match self.files.get(id) {
            Some(f) => Ok(f.folder),
            None => Err("file not found"),
        }
    }

    /// Name of a file.
    pub fn file_name(&self, id: u64) -> (r: Result<String, &'static str>)
        requires
            self.wf(),
        ensures
            match r {
                Ok(n) => self.files().dom().contains(id) && n@ == self.files()[id].name@,
                Err(e) => !self.files().dom().contains(id) && e@ == "file not found"@,
            },
    {
        match self.files.get(id) {
            Some(f) => Ok(f.name.clone()),
            None => Err("file not found"),
        }
    }

    /// Size of a file.
    pub fn file_size(&self, id: u64) -> (r: Result<u64, &'static str>)
        requires
            self.wf(),
        ensures
            match r {
                Ok(n) => self.files().dom().contains(id) && n == self.files()[id].size,
                Err(e) => !self.files().dom().contains(id) && e@ == "file not found"@,
            },
    {
        match self.files.get(id) {
            Some(f) => Ok(f.size),
            None => Err("file not found"),
        }
    }

    /// Last modification time of a file.
    pub fn file_modified(&self, id: u64) -> (r: Result<u64, &'static str>)
        requires
            self.wf(),
        ensures
            match r {
                Ok(n) => self.files().dom().contains(id) && n == self.files()[id].modified_ms,
                Err(e) => !self.files().dom().contains(id) && e@ == "file not found"@,
            },
    {
        match self.files.get(id) {
            Some(f) => Ok(f.modified_ms),
            None => Err("file not found"),
        }
    }

    /// Key override of a file received from a peer.
    pub fn file_fskey(&self, id: u64) -> (r: Result<Option<String>, &'static str>)
        requires
            self.wf(),
        ensures
            match r {
                Ok(k) => self.files().dom().contains(id) && k == self.files()[id].fskey,
                Err(e) => !self.files().dom().contains(id) && e@ == "file not found"@,
            },
    {
        match self.files.get(id) {
            Some(f) => match &f.fskey {
                Some(k) => Ok(Some(k.clone())),
                None => Ok(None),
            },
            None => Err("file not found"),
        }
    }

    /// Vector clock of a file (a copy).
    pub fn file_vc(&self, id: u64) -> (r: Result<StrMap<u64>, &'static str>)
        requires
            self.wf(),
        ensures
            match r {
                Ok(vc) => self.files().dom().contains(id) && vc.wf() && vc.view()
                    == self.files()[id].vc.view(),
                Err(e) => !self.files().dom().contains(id) && e@ == "file not found"@,
            },
    {
        match self.files.get(id) {
            Some(f) => Ok(f.vc.duplicate()),
            None => Err("file not found"),
        }
    }

    /// The id `alloc_id` would hand out next.
    pub fn peek_next_id(&self) -> (n: u64)
        ensures
            n == self.spec_next_id(),
    {
        self.next_id
    }

    /// No file is registered.
    pub fn is_empty(&self) -> (b: bool)
        requires
            self.wf(),
        ensures
            b == (self.files().dom().len() == 0),
            b <==> forall|x: u64| !#[trigger] self.files().dom().contains(x),
    {
        proof {
            self.files.lemma_dom();
            let d = self.files().dom();
            if d.len() == 0 {
                assert forall|x: u64| !#[trigger] d.contains(x) by {
                    if d.contains(x) {
                        vstd::set_lib::lemma_set_empty_equivalency_len(d);
                    }
                }
            } else {
                vstd::set_lib::lemma_set_empty_equivalency_len(d);
            }
        }
        self.files.len() == 0
    }
}

/// Why `consume_share` refuses, if it does: unknown share, no opens left,
/// past expiry, wrong token (checked in that order).
pub open spec fn spec_consume_refusal(
    shares: Map<u64, Share>,
    share_id: u64,
    token_hash: Seq<char>,
    now: u64,
) -> Option<Seq<char>> {
    if !shares.dom().contains(share_id) {
        Some("share not found"@)
    } else if shares[share_id].opens >= shares[share_id].max_opens {
        Some("share exhausted"@)
    } else if now > shares[share_id].expires_ms {
        Some("share expired"@)
    } else if token_hash != shares[share_id].token_hash@ {
        Some("share token mismatch"@)
    } else {
        None
    }
}

/// A share opens exactly when it exists, has openings left, has not
/// expired and the token's hash is the share's; anything else is refused.
pub proof fn share_opens_iff_valid(shares: Map<u64, Share>, share_id: u64, token_hash: Seq<char>, now: u64)
    ensures
        spec_consume_refusal(shares, share_id, token_hash, now) is None <==> ({
            &&& shares.dom().contains(share_id)
            &&& shares[share_id].opens < shares[share_id].max_opens
            &&& now <= shares[share_id].expires_ms
            &&& token_hash == shares[share_id].token_hash@
        }),
        !shares.dom().contains(share_id) ==> spec_consume_refusal(shares, share_id, token_hash, now) == Some(
            "share not found"@,
        ),
{
}

/// A share whose opens are used up is refused as exhausted, whatever token
/// is offered and whenever (exhaustion is checked before expiry and token,
/// so a used-up share cannot be probed for its token).
pub proof fn exhausted_share_refused(shares: Map<u64, Share>, share_id: u64, token_hash: Seq<char>, now: u64)
    requires
        shares.dom().contains(share_id),
        shares[share_id].opens >= shares[share_id].max_opens,
    ensures
        spec_consume_refusal(shares, share_id, token_hash, now) == Some("share exhausted"@),
{
}

/// What creating a share at `now` does: a share of an existing file under the
/// next id, expiring `ttl_secs` seconds after `now`, unopened; a missing file
/// is refused, and so is an expiry that does not fit in a `u64` of
/// milliseconds (nothing changes then).
pub open spec fn create_share_outcome(
    s0: VaultIndex,
    s1: VaultIndex,
    file_id: u64,
    token_hash: Seq<char>,
    ttl_secs: u64,
    max_opens: u32,
    now: u64,
    r: Result<u64, &'static str>,
) -> bool {
    match r {
        Ok(id) => {
            &&& now + ttl_secs * 1000 <= u64::MAX
            &&& id == s0.spec_next_id()
            &&& s1.spec_next_id() == id + 1
            &&& s1.shares().dom().contains(id)
            &&& s1.shares().remove(id) == s0.shares().remove(id)
            &&& s1.shares()[id].file_id == file_id
            &&& s1.shares()[id].token_hash@ == token_hash
            &&& s1.shares()[id].expires_ms == now + ttl_secs * 1000
            &&& s1.shares()[id].max_opens == max_opens
            &&& s1.shares()[id].opens == 0
            &&& s1.files() == s0.files()
            &&& s1.folders() == s0.folders()
            &&& s1.postings() == s0.postings()
            &&& s1.tombs() == s0.tombs()
            &&& s1.spec_search_key() == s0.spec_search_key()
        },
        Err(e) => {
            &&& s1 == s0
            &&& e@ == (if !s0.files().dom().contains(file_id) {
                "file not found"@
            } else {
                "share expiry out of range"@
            })
            &&& s0.files().dom().contains(file_id) ==> now + ttl_secs * 1000 > u64::MAX
        },
    }
}

/// What recording a deletion at `now` does: a tombstone with `vc` for the id,
/// nothing else changed.
pub open spec fn tombstone_outcome(s0: VaultIndex, s1: VaultIndex, id: u64, vc: Map<Seq<char>, u64>, now: u64) -> bool {
    &&& s1.tombs().dom() == s0.tombs().dom().insert(id)
    &&& s1.tombs().remove(id) == s0.tombs().remove(id)
    &&& s1.tombs()[id].deleted_ms == now
    &&& s1.tombs()[id].vc.view() == vc
    &&& s1.files() == s0.files()
    &&& s1.folders() == s0.folders()
    &&& s1.shares() == s0.shares()
    &&& s1.postings() == s0.postings()
    &&& s1.spec_next_id() == s0.spec_next_id()
    &&& s1.spec_search_key() == s0.spec_search_key()
}

/// What using up one opening of a share at `now` does: refused exactly as
/// `spec_consume_refusal` says (nothing changes then); otherwise the share's
/// file is given and its count of openings goes up by one.
pub open spec fn consume_share_outcome(
    s0: VaultIndex,
    s1: VaultIndex,
    share_id: u64,
    token: Seq<char>,
    now: u64,
    r: Result<u64, &'static str>,
) -> bool {
    let refusal = spec_consume_refusal(
        s0.shares(),
        share_id,
        spec_token_hash(s0.spec_search_key(), token),
        now,
    );
    match r {
        Ok(fid) => {
            let sh = s0.shares()[share_id];
            &&& refusal is None
            &&& fid == sh.file_id
            &&& s1.shares().dom() == s0.shares().dom()
            &&& s1.shares().remove(share_id) == s0.shares().remove(
                share_id,
            )
            &&& s1.shares()[share_id].opens == sh.opens + 1
            &&& s1.shares()[share_id].opens <= sh.max_opens
            &&& s1.shares()[share_id].file_id == sh.file_id
            &&& s1.shares()[share_id].token_hash@ == sh.token_hash@
            &&& s1.shares()[share_id].expires_ms == sh.expires_ms
            &&& s1.shares()[share_id].max_opens == sh.max_opens
            &&& s1.files() == s0.files()
            &&& s1.folders() == s0.folders()
            &&& s1.postings() == s0.postings()
            &&& s1.tombs() == s0.tombs()
            &&& s1.spec_next_id() == s0.spec_next_id()
            &&& s1.spec_search_key() == s0.spec_search_key()
        },
        Err(e) => refusal == Some(e@) && s1 == s0,
    }
}

impl VaultIndex {
    /// Creates a burn-after-reading share of a file at `now`: it expires
    /// `ttl_secs` seconds later and opens at most `max_opens` times.
    pub fn create_share_at(
        &mut self,
        file_id: u64,
        token_hash: String,
        ttl_secs: u64,
        max_opens: u32,
        now: u64,
    ) -> (r: Result<u64, &'static str>)
        requires
            old(self).wf(),
            old(self).spec_next_id() < u64::MAX,
            now + ttl_secs * 1000 <= u64::MAX,
        ensures
            final(self).wf(),
            old(self).tree_ok() ==> final(self).tree_ok(),
            r is Ok <==> old(self).files().dom().contains(file_id),
            create_share_outcome(*old(self), *final(self), file_id, token_hash@, ttl_secs, max_opens, now, r),
    {
        if !self.files.contains_key(file_id) {
            return Err("file not found");
        }
        let id = self.alloc_id();
        let expires_ms = now + ttl_secs * 1000;
        self.shares.insert(id, Share { file_id, token_hash, expires_ms, max_opens, opens: 0 });
        proof {
            assert(self.shares().remove(id) =~= old(self).shares().remove(id));
        }
        Ok(id)
    }

    /// Creates a share expiring `ttl_secs` seconds from now (by the clock):
    /// what `create_share_at` does at the moment the clock gives.  Refused
    /// when that instant does not fit in a `u64` of milliseconds.
    pub fn create_share(&mut self, file_id: u64, token_hash: String, ttl_secs: u64, max_opens: u32) -> (r:
        Result<u64, &'static str>)
        requires
            old(self).wf(),
            old(self).spec_next_id() < u64::MAX,
            ttl_secs * 1000 <= u64::MAX,
        ensures
            final(self).wf(),
            old(self).tree_ok() ==> final(self).tree_ok(),
            r is Ok ==> old(self).files().dom().contains(file_id),
            exists|now: u64|
                #[trigger] create_share_outcome(
                    *old(self),
                    *final(self),
                    file_id,
                    token_hash@,
                    ttl_secs,
                    max_opens,
                    now,
                    r,
                ),
    {
        let now = crate::clock::now_ms();
        let ttl_ms = ttl_secs * 1000;
        if now > u64::MAX - ttl_ms {
            if !self.files.contains_key(file_id) {
                let r = Err("file not found");
                proof {
                    assert(create_share_outcome(*old(self), *self, file_id, token_hash@, ttl_secs, max_opens, now, r));
                }
                return r;
            }
            let r = Err("share expiry out of range");
            proof {
                assert(create_share_outcome(*old(self), *self, file_id, token_hash@, ttl_secs, max_opens, now, r));
            }
            return r;
        }
        self.create_share_at(file_id, token_hash, ttl_secs, max_opens, now)
    }

    /// Checks a share token at `now` and uses up one opening; gives the file.
    pub fn consume_share_at(&mut self, share_id: u64, token: &str, now: u64) -> (r: Result<
        u64,
        &'static str,
    >)
        requires
            old(self).wf(),
        ensures
            final(self).wf(),
            old(self).tree_ok() ==> final(self).tree_ok(),
            consume_share_outcome(*old(self), *final(self), share_id, token@, now, r),
    {
        let token_hash = self.token_hash(token);
        let (file_id, tok, expires_ms, max_opens, opens) = match self.shares.get(share_id) {
            Some(sh) => (sh.file_id, sh.token_hash.clone(), sh.expires_ms, sh.max_opens, sh.opens),
            None => return Err("share not found"),
        };
        if opens >= max_opens {
            return Err("share exhausted");
        }
        if now > expires_ms {
            return Err("share expired");
        }
        if token_hash != tok {
            return Err("share token mismatch");
        }
        self.shares.insert(
            share_id,
            Share { file_id, token_hash: tok, expires_ms, max_opens, opens: opens + 1 },
        );
        proof {
            assert(self.shares().remove(share_id) =~= old(self).shares().remove(share_id));
            assert(self.shares().dom() =~= old(self).shares().dom());
        }
        Ok(file_id)
    }

    /// Checks a share token against the clock and uses up one opening: what
    /// `consume_share_at` does at the moment the clock gives.
    pub fn consume_share(&mut self, share_id: u64, token: &str) -> (r: Result<u64, &'static str>)
        requires
            old(self).wf(),
        ensures
            final(self).wf(),
            old(self).tree_ok() ==> final(self).tree_ok(),
            exists|now: u64| #[trigger] consume_share_outcome(*old(self), *final(self), share_id, token@, now, r),
    {
        let now = crate::clock::now_ms();
        self.consume_share_at(share_id, token, now)
    }

    /// Registers a file received from a peer under the peer's id, with its key
    /// override and vector clock; clears a tombstone for that id.
    pub fn add_remote_file(
        &mut self,
        id: u64,
        folder: u64,
        name: &str,
        size: u64,
        modified_ms: u64,
        fskey_hex: &str,
        vc: StrMap<u64>,
        tokens: &[String],
    ) -> (r: Result<(), &'static str>)
        requires
            old(self).wf(),
            vc.wf(),
            id == u64::MAX ==> !(old(self).folders().dom().contains(folder) && name@.len() > 0
                && !old(self).files().dom().contains(id)),
        ensures
            final(self).wf(),
            old(self).tree_ok() ==> final(self).tree_ok(),
            r is Ok <==> (old(self).folders().dom().contains(folder) && name@.len() > 0
                && !old(self).files().dom().contains(id)),
            match r {
                Ok(_) => {
                    let e = final(self).files()[id];
                    &&& final(self).files() == old(self).files().insert(id, e)
                    &&& e.folder == folder
                    &&& e.name@ == name@
                    &&& e.size == size
                    &&& e.tags@.len() == 0
                    &&& e.created_ms == modified_ms
                    &&& e.modified_ms == modified_ms
                    &&& (e.fskey matches Some(k) && k@ == fskey_hex@)
                    &&& e.vc.view() == vc.view()
                    &&& final(self).tombs() == old(self).tombs().remove(id)
                    &&& final(self).spec_next_id() == (if id >= old(self).spec_next_id() {
                        (id + 1) as u64
                    } else {
                        old(self).spec_next_id()
                    })
                    &&& final(self).postings() == old(self).postings().union(
                        token_pairs(old(self).spec_search_key(), id, strings_view(tokens@)),
                    )
                    &&& final(self).folders() == old(self).folders()
                    &&& final(self).shares() == old(self).shares()
                    &&& final(self).spec_search_key() == old(self).spec_search_key()
                },
                Err(e) => {
                    &&& *final(self) == *old(self)
                    &&& e@ == (if !old(self).folders().dom().contains(folder) {
                        "folder not found"@
                    } else if name@.len() == 0 {
                        "invalid file name"@
                    } else {
                        "duplicate file id"@
                    })
                },
            },
    {
        if !self.folders.contains_key(folder) {
            return Err("folder not found");
        }
        if name.is_empty() {
            return Err("invalid file name");
        }
        if self.files.contains_key(id) {
            return Err("duplicate file id");
        }
        let _ = self.tombstones.remove(id);
        if id >= self.next_id {
            self.next_id = id + 1;
        }
        let e = FileEntry {
            folder,
            name: name.to_owned(),
            size,
            tags: Vec::new(),
            created_ms: modified_ms,
            modified_ms,
            fskey: Some(fskey_hex.to_owned()),
            vc,
        };
        self.files.insert(id, e);
        self.index_tokens(id, tokens);
        Ok(())
    }

    /// A local edit: increments this device's counter in a file's clock.
    pub fn bump_vc(&mut self, id: u64, device: &str) -> (r: Result<(), &'static str>)
        requires
            old(self).wf(),
            old(self).files().dom().contains(id) ==> vc_get(old(self).files()[id].vc.view(), device@)
                < u64::MAX,
        ensures
            final(self).wf(),
            old(self).tree_ok() ==> final(self).tree_ok(),
            r is Ok <==> old(self).files().dom().contains(id),
            match r {
                Ok(_) => {
                    let e = final(self).files()[id];
                    let o = old(self).files()[id];
                    &&& final(self).files() == old(self).files().insert(id, e)
                    &&& e.vc.view() == o.vc.view().insert(
                        device@,
                        (vc_get(o.vc.view(), device@) + 1) as u64,
                    )
                    &&& e.folder == o.folder && e.name == o.name && e.size == o.size && e.tags
                        == o.tags && e.created_ms == o.created_ms && e.modified_ms == o.modified_ms
                        && e.fskey == o.fskey
                    &&& final(self).same_but_files(old(self))
                    &&& final(self).postings() == old(self).postings()
                },
                Err(e) => *final(self) == *old(self) && e@ == "file not found"@,
            },
    {
        if !self.files.contains_key(id) {
            return Err("file not found");
        }
        let mut e = match self.files.remove(id) {
            Some(e) => e,
            None => return Err("file not found"),
        };
        vc_bump(&mut e.vc, device);
        self.files.insert(id, e);
        proof {
            assert(self.files() =~= old(self).files().insert(id, self.files()[id]));
        }
        Ok(())
    }

    /// Merges a remote clock into a file's clock (pointwise maximum).
    pub fn merge_vc(&mut self, id: u64, remote: &StrMap<u64>) -> (r: Result<(), &'static str>)
        requires
            old(self).wf(),
            remote.wf(),
        ensures
            final(self).wf(),
            old(self).tree_ok() ==> final(self).tree_ok(),
            r is Ok <==> old(self).files().dom().contains(id),
            match r {
                Ok(_) => {
                    let e = final(self).files()[id];
                    let o = old(self).files()[id];
                    &&& final(self).files() == old(self).files().insert(id, e)
                    &&& e.vc.view() == spec_vc_merge(o.vc.view(), remote.view())
                    &&& e.folder == o.folder && e.name == o.name && e.size == o.size && e.tags
                        == o.tags && e.created_ms == o.created_ms && e.modified_ms == o.modified_ms
                        && e.fskey == o.fskey
                    &&& final(self).same_but_files(old(self))
                    &&& final(self).postings() == old(self).postings()
                },
                Err(e) => *final(self) == *old(self) && e@ == "file not found"@,
            },
    {
        if !self.files.contains_key(id) {
            return Err("file not found");
        }
        let mut e = match self.files.remove(id) {
            Some(e) => e,
            None => return Err("file not found"),
        };
        vc_merge(&mut e.vc, remote);
        self.files.insert(id, e);
        proof {
            assert(self.files() =~= old(self).files().insert(id, self.files()[id]));
        }
        Ok(())
    }

    /// Records that a file id was deleted at `now`, with its clock.
    pub fn record_tombstone_at(&mut self, id: u64, vc: StrMap<u64>, now: u64)
        requires
            old(self).wf(),
            vc.wf(),
        ensures
            final(self).wf(),
            old(self).tree_ok() ==> final(self).tree_ok(),
            tombstone_outcome(*old(self), *final(self), id, vc.view(), now),
    {
        self.tombstones.insert(id, Tombstone { deleted_ms: now, vc });
        proof {
            assert(self.tombs().remove(id) =~= old(self).tombs().remove(id));
            assert(self.tombs().dom() =~= old(self).tombs().dom().insert(id));
        }
    }

    /// Records a deletion, timestamped with the clock: what
    /// `record_tombstone_at` does at the moment the clock gives.
    pub fn record_tombstone(&mut self, id: u64, vc: StrMap<u64>)
        requires
            old(self).wf(),
            vc.wf(),
        ensures
            final(self).wf(),
            old(self).tree_ok() ==> final(self).tree_ok(),
            exists|now: u64| #[trigger] tombstone_outcome(*old(self), *final(self), id, vc.view(), now),
    {
        let now = crate::clock::now_ms();
        self.record_tombstone_at(id, vc, now)
    }

    /// A copy of the tombstones.
    pub fn tombstones(&self) -> (r: IdMap<Tombstone>)
        requires
            self.wf(),
        ensures
            r.wf(),
            r@.dom() == self.tombs().dom(),
            forall|id: u64| #[trigger]
                r@.dom().contains(id) ==> r@[id].deleted_ms == self.tombs()[id].deleted_ms
                    && r@[id].vc.wf() && r@[id].vc.view() == self.tombs()[id].vc.view(),
    {
        let mut r: IdMap<Tombstone> = IdMap::new();
        let n = self.tombstones.len();
        let mut i: usize = 0;
        proof {
            self.tombstones.lemma_dom();
        }
        while i < n
            invariant
                self.wf(),
                n == self.tombstones.spec_entries().len(),
                i <= n,
                r.wf(),
                forall|k: u64| #[trigger]
                    r@.dom().contains(k) <==> exists|j: int|
                        0 <= j < i && self.tombstones.spec_entries()[j].0 == k,
                forall|k: u64| #[trigger]
                    r@.dom().contains(k) ==> r@[k].deleted_ms == self.tombs()[k].deleted_ms
                        && r@[k].vc.wf() && r@[k].vc.view() == self.tombs()[k].vc.view(),
            decreases n - i,
        {
            let e = self.tombstones.entry_at(i);
            proof {
                crate::idmap::lemma_entries_lookup(self.tombstones.spec_entries(), i as int);
            }
            r.insert(e.0, Tombstone { deleted_ms: e.1.deleted_ms, vc: e.1.vc.duplicate() });
            proof {
                assert forall|k: u64| #[trigger] r@.dom().contains(k) <==> exists|j: int|
                    0 <= j < i + 1 && self.tombstones.spec_entries()[j].0 == k by {
                    if k == e.0 {
                        assert(self.tombstones.spec_entries()[i as int].0 == k);
                    }
                }
            }
            i = i + 1;
        }
        proof {
            assert forall|k: u64| #[trigger] self.tombs().dom().contains(k) implies r@.dom().contains(k) by {
                let j = choose|j: int|
                    0 <= j < self.tombstones.spec_entries().len() && self.tombstones.spec_entries()[j].0
                        == k;
            }
            assert forall|k: u64| #[trigger] r@.dom().contains(k) implies self.tombs().dom().contains(k) by {
                let j = choose|j: int|
                    0 <= j < n && self.tombstones.spec_entries()[j].0 == k;
                crate::idmap::lemma_entries_lookup(self.tombstones.spec_entries(), j);
            }
            assert(r@.dom() =~= self.tombs().dom());
        }
        r
    }
}

/// `f` reaches `root` by following at most `n` parent links through folders.
pub open spec fn descends(folders: Map<u64, Folder>, f: u64, root: u64, n: nat) -> bool
    decreases n,
{
    if f == root {
        true
    } else if n == 0 {
        false
    } else {
        folders.dom().contains(f) && descends(folders, folders[f].parent, root, (n - 1) as nat)
    }
}

/// `f` is `root` or lies below it in the folder tree.
pub open spec fn in_subtree(folders: Map<u64, Folder>, root: u64, f: u64) -> bool {
    exists|n: nat| descends(folders, f, root, n)
}

/// A chain of parent links survives a change that keeps every folder and its
/// parent.
pub proof fn lemma_descends_kept(a: Map<u64, Folder>, b: Map<u64, Folder>, f: u64, r: u64, n: nat)
    requires
        descends(a, f, r, n),
        forall|x: u64| #[trigger] a.dom().contains(x) ==> b.dom().contains(x) && b[x].parent == a[x].parent,
    ensures
        descends(b, f, r, n),
    decreases n,
{
    if f != r && n > 0 {
        lemma_descends_kept(a, b, a[f].parent, r, (n - 1) as nat);
    }
}

/// Every folder of `a` that reaches the root still does in `b`, when `b`
/// keeps every folder of `a` with its parent.
pub proof fn lemma_tree_kept(a: Map<u64, Folder>, b: Map<u64, Folder>)
    requires
        forall|x: u64| #[trigger] a.dom().contains(x) ==> b.dom().contains(x) && b[x].parent == a[x].parent,
    ensures
        forall|f: u64| #[trigger] in_subtree(a, ROOT_FOLDER, f) ==> in_subtree(b, ROOT_FOLDER, f),
{
    assert forall|f: u64| #[trigger] in_subtree(a, ROOT_FOLDER, f) implies in_subtree(b, ROOT_FOLDER, f) by {
        let n = choose|n: nat| descends(a, f, ROOT_FOLDER, n);
        lemma_descends_kept(a, b, f, ROOT_FOLDER, n);
    }
}

/// A root that is its own parent lies below no other folder.
pub proof fn lemma_root_below_none(a: Map<u64, Folder>, id: u64, n: nat)
    requires
        a.dom().contains(ROOT_FOLDER),
        a[ROOT_FOLDER].parent == ROOT_FOLDER,
        id != ROOT_FOLDER,
    ensures
        !descends(a, ROOT_FOLDER, id, n),
    decreases n,
{
    if n > 0 {
        lemma_root_below_none(a, id, (n - 1) as nat);
    }
}

/// When every parent is a folder, no folder lies below an id that is not a
/// folder.
pub proof fn lemma_below_unknown(a: Map<u64, Folder>, q: u64, f: u64, n: nat)
    requires
        forall|x: u64| #[trigger] a.dom().contains(x) ==> a.dom().contains(a[x].parent),
        !a.dom().contains(q),
        a.dom().contains(f),
    ensures
        !descends(a, f, q, n),
    decreases n,
{
    if n > 0 {
        lemma_below_unknown(a, q, a[f].parent, (n - 1) as nat);
    }
}

/// A folder outside the removed subtree keeps its way to the root.
pub proof fn lemma_descends_outside(a: Map<u64, Folder>, b: Map<u64, Folder>, id: u64, g: u64, n: nat)
    requires
        descends(a, g, ROOT_FOLDER, n),
        !in_subtree(a, id, g),
        forall|f: u64| #[trigger] b.dom().contains(f) <==> (a.dom().contains(f) && !in_subtree(a, id, f)),
        forall|f: u64| #[trigger] b.dom().contains(f) ==> b[f] == a[f],
    ensures
        descends(b, g, ROOT_FOLDER, n),
    decreases n,
{
    if g != ROOT_FOLDER && n > 0 {
        assert(b.dom().contains(g));
        let p = a[g].parent;
        if in_subtree(a, id, p) {
            let k = choose|k: nat| descends(a, p, id, k);
            if g == id {
                assert(descends(a, g, id, 0));
            } else {
                assert(descends(a, g, id, k + 1));
            }
            assert(in_subtree(a, id, g));
        }
        lemma_descends_outside(a, b, id, p, (n - 1) as nat);
    }
}

/// Removing a folder's subtree, with the files in it, keeps the tree whole.
pub proof fn lemma_remove_folder_tree(s0: VaultIndex, s1: VaultIndex, id: u64, removed: Seq<u64>)
    requires
        s0.tree_ok(),
        id != ROOT_FOLDER,
        forall|x: u64|
            #![trigger removed.contains(x)]
            removed.contains(x) <==> (s0.files().dom().contains(x) && in_subtree(
                s0.folders(),
                id,
                s0.files()[x].folder,
            )),
        forall|x: u64|
            #[trigger] s1.files().dom().contains(x) <==> (s0.files().dom().contains(x) && !removed.contains(x)),
        forall|x: u64| #[trigger] s1.files().dom().contains(x) ==> s1.files()[x] == s0.files()[x],
        forall|f: u64|
            #[trigger] s1.folders().dom().contains(f) <==> (s0.folders().dom().contains(f) && !in_subtree(
                s0.folders(),
                id,
                f,
            )),
        forall|f: u64| #[trigger] s1.folders().dom().contains(f) ==> s1.folders()[f] == s0.folders()[f],
        s1.spec_next_id() == s0.spec_next_id(),
    ensures
        s1.tree_ok(),
{
    let a = s0.folders();
    let b = s1.folders();
    if in_subtree(a, id, ROOT_FOLDER) {
        let n = choose|n: nat| descends(a, ROOT_FOLDER, id, n);
        lemma_root_below_none(a, id, n);
    }
    assert(b.dom().contains(ROOT_FOLDER));
    assert forall|f: u64| #[trigger] b.dom().contains(f) implies f < s1.spec_next_id() && b.dom().contains(
        b[f].parent,
    ) && in_subtree(b, ROOT_FOLDER, f) by {
        assert(a.dom().contains(f));
        let p = a[f].parent;
        assert(a.dom().contains(p));
        if in_subtree(a, id, p) {
            let k = choose|k: nat| descends(a, p, id, k);
            if f == id {
                assert(descends(a, f, id, 0));
            } else {
                assert(descends(a, f, id, k + 1));
            }
        }
        assert(in_subtree(a, ROOT_FOLDER, f));
        let n = choose|n: nat| descends(a, f, ROOT_FOLDER, n);
        lemma_descends_outside(a, b, id, f, n);
    }
    assert forall|x: u64| #[trigger] s1.files().dom().contains(x) implies b.dom().contains(s1.files()[x].folder) by {
        assert(s0.files().dom().contains(x));
        assert(!removed.contains(x));
    }
}

/// A sequence of ids in strictly increasing order.
pub open spec fn ids_increasing(s: Seq<u64>) -> bool {
    forall|i: int, j: int| 0 <= i < j < s.len() ==> s[i] < s[j]
}

/// Postings held by the given files of an index, as it was.
pub open spec fn files_pairs(key: Seq<u8>, files: Map<u64, FileEntry>, ids: Seq<u64>) -> Set<
    (Seq<char>, u64),
> {
    Set::new(
        |p: (Seq<char>, u64)|
            ids.contains(p.1) && entry_pairs(key, p.1, files[p.1]).contains(p),
    )
}

/// Number of marked positions.
spec fn ntrue(s: Seq<bool>) -> nat
    decreases s.len(),
{
    if s.len() == 0 {
        0
    } else {
        ntrue(s.drop_last()) + if s.last() {
            1nat
        } else {
            0nat
        }
    }
}

proof fn lemma_ntrue_bound(s: Seq<bool>)
    ensures
        ntrue(s) <= s.len(),
    decreases s.len(),
{
    if s.len() > 0 {
        lemma_ntrue_bound(s.drop_last());
    }
}

proof fn lemma_ntrue_set(s: Seq<bool>, i: int)
    requires
        0 <= i < s.len(),
        !s[i],
    ensures
        ntrue(s.update(i, true)) == ntrue(s) + 1,
    decreases s.len(),
{
    let t = s.update(i, true);
    if i == s.len() - 1 {
        assert(t.drop_last() =~= s.drop_last());
    } else {
        assert(t.drop_last() =~= s.drop_last().update(i, true));
        lemma_ntrue_set(s.drop_last(), i);
    }
}

/// `x` is the root or a marked folder.
spec fn marked_in(entries: Seq<(u64, Folder)>, m: Seq<bool>, root: u64, x: u64) -> bool {
    x == root || exists|i: int| 0 <= i < entries.len() && #[trigger] entries[i].0 == x && m[i]
}

impl VaultIndex {
    fn is_marked(&self, m: &Vec<bool>, root: u64, x: u64) -> (b: bool)
        requires
            self.wf(),
            m@.len() == self.folders.spec_entries().len(),
        ensures
            b == marked_in(self.folders.spec_entries(), m@, root, x),
    {
        if x == root {
            return true;
        }
        match self.folders.find(x) {
            Some(i) => {
                proof {
                    if marked_in(self.folders.spec_entries(), m@, root, x) {
                        let j = choose|j: int|
                            0 <= j < self.folders.spec_entries().len()
                                && #[trigger] self.folders.spec_entries()[j].0 == x && m@[j];
                        if j != i as int {
                            if j < i {
                                assert(self.folders.spec_entries()[j].0 < self.folders.spec_entries()[i as int].0);
                            } else {
                                assert(self.folders.spec_entries()[i as int].0 < self.folders.spec_entries()[j].0);
                            }
                        }
                    }
                }
                m[i]
            },
            None => {
                proof {
                    if marked_in(self.folders.spec_entries(), m@, root, x) {
                        let j = choose|j: int|
                            0 <= j < self.folders.spec_entries().len()
                                && #[trigger] self.folders.spec_entries()[j].0 == x && m@[j];
                        crate::idmap::lemma_entries_lookup(self.folders.spec_entries(), j);
                    }
                }
                false
            },
        }
    }

    /// Marks the folders (by position) that lie in the subtree of `root`.
    fn subtree_marks(&self, root: u64) -> (m: Vec<bool>)
        requires
            self.wf(),
        ensures
            m@.len() == self.folders.spec_entries().len(),
            forall|i: int|
                0 <= i < m@.len() ==> (m@[i] <==> in_subtree(
                    self.folders(),
                    root,
                    #[trigger] self.folders.spec_entries()[i].0,
                )),
    {
        let ghost es = self.folders.spec_entries();
        let ghost fm = self.folders();
        let n = self.folders.len();
        let mut m: Vec<bool> = Vec::new();
        let mut i: usize = 0;
        while i < n
            invariant
                es == self.folders.spec_entries(),
                n == es.len(),
                i <= n,
                m@.len() == i,
                forall|j: int| 0 <= j < i ==> (m@[j] <==> #[trigger] es[j].0 == root),
            decreases n - i,
        {
            m.push(self.folders.entry_at(i).0 == root);
            i = i + 1;
        }
        proof {
            assert forall|j: int| 0 <= j < n && #[trigger] m@[j] implies in_subtree(fm, root, es[j].0) by {
                assert(descends(fm, es[j].0, root, 0));
            }
        }
        loop
            invariant_except_break
                self.wf(),
                es == self.folders.spec_entries(),
                fm == self.folders(),
                n == es.len(),
                m@.len() == n,
                forall|j: int| 0 <= j < n && #[trigger] es[j].0 == root ==> m@[j],
                forall|j: int| 0 <= j < n && #[trigger] m@[j] ==> in_subtree(fm, root, es[j].0),
            ensures
                m@.len() == n,
                forall|j: int| 0 <= j < n && #[trigger] es[j].0 == root ==> m@[j],
                forall|j: int| 0 <= j < n && #[trigger] m@[j] ==> in_subtree(fm, root, es[j].0),
                forall|j: int|
                    0 <= j < n && !(#[trigger] m@[j]) ==> !marked_in(es, m@, root, es[j].1.parent),
            decreases n - ntrue(m@),
        {
            let ghost start = m@;
            let mut changed = false;
            let mut i: usize = 0;
            while i < n
                invariant
                    self.wf(),
                    es == self.folders.spec_entries(),
                    fm == self.folders(),
                    n == es.len(),
                    i <= n,
                    m@.len() == n,
                    start.len() == n,
                    forall|j: int| 0 <= j < n && #[trigger] es[j].0 == root ==> m@[j],
                    forall|j: int| 0 <= j < n && #[trigger] m@[j] ==> in_subtree(fm, root, es[j].0),
                    ntrue(m@) >= ntrue(start),
                    changed ==> ntrue(m@) > ntrue(start),
                    !changed ==> m@ == start,
                    !changed ==> forall|j: int|
                        0 <= j < i && !(#[trigger] m@[j]) ==> !marked_in(es, m@, root, es[j].1.parent),
                decreases n - i,
            {
                if !m[i] {
                    let p = self.folders.entry_at(i).1.parent;
                    if self.is_marked(&m, root, p) {
                        proof {
                            let f = es[i as int].0;
                            crate::idmap::lemma_entries_lookup(es, i as int);
                            assert(fm.dom().contains(f) && fm[f].parent == p);
                            if p == root {
                                assert(descends(fm, p, root, 0));
                                assert(descends(fm, f, root, 1));
                            } else {
                                let j = choose|j: int|
                                    0 <= j < es.len() && #[trigger] es[j].0 == p && m@[j];
                                assert(in_subtree(fm, root, es[j].0));
                                let k = choose|k: nat| descends(fm, p, root, k);
                                assert(descends(fm, f, root, k + 1));
                            }
                            lemma_ntrue_set(m@, i as int);
                        }
                        m.set(i, true);
                        changed = true;
                    }
                }
                i = i + 1;
            }
            if !changed {
                break;
            }
            proof {
                lemma_ntrue_bound(m@);
            }
        }
        proof {
            assert forall|j: int| 0 <= j < m@.len() implies (m@[j] <==> in_subtree(
                fm,
                root,
                #[trigger] es[j].0,
            )) by {
                if in_subtree(fm, root, es[j].0) {
                    let k = choose|k: nat| descends(fm, es[j].0, root, k);
                    self.lemma_closed_marks(m@, root, es[j].0, k);
                    let jj = choose|jj: int| 0 <= jj < es.len() && #[trigger] es[jj].0 == es[j].0 && m@[jj];
                    if es[j].0 != root {
                        if jj != j {
                            if jj < j {
                                assert(es[jj].0 < es[j].0);
                            } else {
                                assert(es[j].0 < es[jj].0);
                            }
                        }
                    }
                }
            }
        }
        m
    }

    /// A marking closed under "parent marked ⇒ child marked" holds every
    /// folder that descends from the root.
    proof fn lemma_closed_marks(&self, m: Seq<bool>, root: u64, f: u64, k: nat)
        requires
            self.wf(),
            m.len() == self.folders.spec_entries().len(),
            forall|j: int|
                0 <= j < m.len() && #[trigger] self.folders.spec_entries()[j].0 == root ==> m[j],
            forall|j: int|
                0 <= j < m.len() && !(#[trigger] m[j]) ==> !marked_in(
                    self.folders.spec_entries(),
                    m,
                    root,
                    self.folders.spec_entries()[j].1.parent,
                ),
            descends(self.folders(), f, root, k),
        ensures
            marked_in(self.folders.spec_entries(), m, root, f),
            f == root ==> (forall|j: int|
                0 <= j < m.len() && #[trigger] self.folders.spec_entries()[j].0 == root ==> m[j]),
            f != root ==> exists|j: int|
                0 <= j < m.len() && #[trigger] self.folders.spec_entries()[j].0 == f && m[j],
        decreases k,
    {
        let es = self.folders.spec_entries();
        if f != root {
            let p = self.folders()[f].parent;
            self.lemma_closed_marks(m, root, p, (k - 1) as nat);
            self.folders.lemma_dom();
            let j = choose|j: int| 0 <= j < es.len() && es[j].0 == f;
            crate::idmap::lemma_entries_lookup(es, j);
            assert(es[j].1.parent == p);
            if !m[j] {
                assert(!marked_in(es, m, root, es[j].1.parent));
            }
            assert(es[j].0 == f && m[j]);
        }
    }

    /// Ids of the files whose folder is marked (or is the root), ascending.
    fn files_in_marked(&self, m: &Vec<bool>, root: u64) -> (r: Vec<u64>)
        requires
            self.wf(),
            m@.len() == self.folders.spec_entries().len(),
            forall|i: int|
                0 <= i < m@.len() ==> (m@[i] <==> in_subtree(
                    self.folders(),
                    root,
                    #[trigger] self.folders.spec_entries()[i].0,
                )),
        ensures
            ids_increasing(r@),
            forall|x: u64|
                #![trigger r@.contains(x)]
                #![trigger self.files()[x]]
                r@.contains(x) <==> (self.files().dom().contains(x) && in_subtree(
                    self.folders(),
                    root,
                    self.files()[x].folder,
                )),
    {
        let ghost fs = self.files.spec_entries();
        let n = self.files.len();
        let mut r: Vec<u64> = Vec::new();
        let mut i: usize = 0;
        while i < n
            invariant
                self.wf(),
                fs == self.files.spec_entries(),
                n == fs.len(),
                i <= n,
                m@.len() == self.folders.spec_entries().len(),
                forall|k: int|
                    0 <= k < m@.len() ==> (m@[k] <==> in_subtree(
                        self.folders(),
                        root,
                        #[trigger] self.folders.spec_entries()[k].0,
                    )),
                ids_increasing(r@),
                forall|k: int| #![trigger r@[k]] 0 <= k < r@.len() ==> exists|j: int| #![trigger fs[j]] 0 <= j < i && fs[j].0 == r@[k],
                forall|x: u64|
                    r@.contains(x) <==> (exists|j: int|
                        0 <= j < i && #[trigger] fs[j].0 == x && in_subtree(
                            self.folders(),
                            root,
                            fs[j].1.folder,
                        )),
            decreases n - i,
        {
            let e = self.files.entry_at(i);
            let b = self.is_marked(m, root, e.1.folder);
            proof {
                self.lemma_marked_is_subtree(m@, root, e.1.folder);
            }
            if b {
                let ghost r0 = r@;
                r.push(e.0);
                proof {
                    assert forall|k: int| 0 <= k < r0.len() implies r0[k] < e.0 by {
                        let j = choose|j: int| #![trigger fs[j]] 0 <= j < i && fs[j].0 == r0[k];
                        assert(fs[j].0 < fs[i as int].0);
                    }
                    assert forall|x: u64| r@.contains(x) <==> (exists|j: int|
                        0 <= j < i + 1 && #[trigger] fs[j].0 == x && in_subtree(
                            self.folders(),
                            root,
                            fs[j].1.folder,
                        )) by {
                        if r@.contains(x) && x != e.0 {
                            let k = choose|k: int| 0 <= k < r@.len() && r@[k] == x;
                            assert(r0.contains(x));
                        }
                        if x == e.0 {
                            assert(r@[r@.len() - 1] == x);
                        } else if exists|j: int|
                            0 <= j < i + 1 && #[trigger] fs[j].0 == x && in_subtree(
                                self.folders(),
                                root,
                                fs[j].1.folder,
                            ) {
                            let j = choose|j: int|
                                0 <= j < i + 1 && #[trigger] fs[j].0 == x && in_subtree(
                                    self.folders(),
                                    root,
                                    fs[j].1.folder,
                                );
                            assert(j < i);
                            assert(r0.contains(x));
                            let k = choose|k: int| 0 <= k < r0.len() && r0[k] == x;
                            assert(r@[k] == x);
                        }
                    }
                }
            } else {
                proof {
                    assert forall|x: u64| r@.contains(x) <==> (exists|j: int|
                        0 <= j < i + 1 && #[trigger] fs[j].0 == x && in_subtree(
                            self.folders(),
                            root,
                            fs[j].1.folder,
                        )) by {
                        if exists|j: int|
                            0 <= j < i + 1 && #[trigger] fs[j].0 == x && in_subtree(
                                self.folders(),
                                root,
                                fs[j].1.folder,
                            ) {
                            let j = choose|j: int|
                                0 <= j < i + 1 && #[trigger] fs[j].0 == x && in_subtree(
                                    self.folders(),
                                    root,
                                    fs[j].1.folder,
                                );
                            assert(j < i);
                        }
                    }
                }
            }
            i = i + 1;
        }
        proof {
            assert forall|x: u64|
                r@.contains(x) <==> (self.files().dom().contains(x) && in_subtree(
                    self.folders(),
                    root,
                    #[trigger] self.files()[x].folder,
                )) by {
                if r@.contains(x) {
                    let j = choose|j: int|
                        0 <= j < n && #[trigger] fs[j].0 == x && in_subtree(
                            self.folders(),
                            root,
                            fs[j].1.folder,
                        );
                    crate::idmap::lemma_entries_lookup(fs, j);
                }
                if self.files().dom().contains(x) && in_subtree(
                    self.folders(),
                    root,
                    self.files()[x].folder,
                ) {
                    self.files.lemma_dom();
                    let j = choose|j: int| 0 <= j < fs.len() && fs[j].0 == x;
                    crate::idmap::lemma_entries_lookup(fs, j);
                    assert(fs[j].0 == x && in_subtree(self.folders(), root, fs[j].1.folder));
                }
            }
        }
        r
    }

    proof fn lemma_marked_is_subtree(&self, m: Seq<bool>, root: u64, x: u64)
        requires
            self.wf(),
            m.len() == self.folders.spec_entries().len(),
            forall|i: int|
                0 <= i < m.len() ==> (m[i] <==> in_subtree(
                    self.folders(),
                    root,
                    #[trigger] self.folders.spec_entries()[i].0,
                )),
        ensures
            marked_in(self.folders.spec_entries(), m, root, x) == in_subtree(self.folders(), root, x),
    {
        let es = self.folders.spec_entries();
        if x == root {
            assert(descends(self.folders(), x, root, 0));
        } else if marked_in(es, m, root, x) {
            let j = choose|j: int| 0 <= j < es.len() && #[trigger] es[j].0 == x && m[j];
        } else if in_subtree(self.folders(), root, x) {
            let k = choose|k: nat| descends(self.folders(), x, root, k);
            assert(self.folders().dom().contains(x));
            self.folders.lemma_dom();
            let j = choose|j: int| 0 <= j < es.len() && es[j].0 == x;
            assert(m[j]);
        }
    }

    /// Every file in a folder or below it, ascending by id (a folder that is
    /// not in the tree gives the files that name it directly).
    pub fn files_under(&self, folder: u64) -> (r: Vec<u64>)
        requires
            self.wf(),
        ensures
            ids_increasing(r@),
            forall|x: u64|
                #![trigger r@.contains(x)]
                #![trigger self.files()[x]]
                r@.contains(x) <==> (self.files().dom().contains(x) && in_subtree(
                    self.folders(),
                    folder,
                    self.files()[x].folder,
                )),
            self.tree_ok() && folder == ROOT_FOLDER ==> forall|x: u64|
                #![trigger r@.contains(x)]
                r@.contains(x) <==> self.files().dom().contains(x),
            self.tree_ok() && !self.folders().dom().contains(folder) ==> r@.len() == 0,
    {
        let m = self.subtree_marks(folder);
        let r = self.files_in_marked(&m, folder);
        proof {
            if self.tree_ok() && !self.folders().dom().contains(folder) {
                assert forall|x: u64| !r@.contains(x) by {
                    if r@.contains(x) {
                        let n = choose|n: nat| descends(self.folders(), self.files()[x].folder, folder, n);
                        lemma_below_unknown(self.folders(), folder, self.files()[x].folder, n);
                    }
                }
                if r@.len() > 0 {
                    assert(r@.contains(r@[0]));
                }
            }
        }
        r
    }

    /// The folders and the files directly in `folder`, each list in name
    /// order (the bytes of the name, equal names by id).
    pub fn list_children(&self, folder: u64) -> (r: Result<(Vec<u64>, Vec<u64>), &'static str>)
        requires
            self.wf(),
        ensures
            match r {
                Ok((dirs, files)) => {
                    &&& self.folders().dom().contains(folder)
                    &&& forall|x: u64|
                        dirs@.contains(x) <==> (self.folders().dom().contains(x) && self.folders()[x].parent
                            == folder)
                    &&& name_ordered(dirs@, |x: u64| self.folders()[x].name@)
                    &&& forall|x: u64|
                        files@.contains(x) <==> (self.files().dom().contains(x) && self.files()[x].folder
                            == folder)
                    &&& name_ordered(files@, |x: u64| self.files()[x].name@)
                },
                Err(e) => !self.folders().dom().contains(folder) && e@ == "folder not found"@,
            },
    {
        if !self.folders.contains_key(folder) {
            return Err("folder not found");
        }
        let fo = self.child_folder_items(folder);
        let dirs = ids_by_name(&fo);
        let fi = self.child_file_items(folder);
        let files = ids_by_name(&fi);
        proof {
            assert forall|t: int| 0 <= t < dirs@.len() implies name_of(fo@, #[trigger] dirs@[t]) == encode_utf8(
                self.folders()[dirs@[t]].name@,
            ) by {
                assert(dirs@.contains(dirs@[t]));
                let c = choose|c: int| 0 <= c < fo@.len() && fo@[c].0 == dirs@[t];
                assert(fo@[c].0 == dirs@[t]);
            }
            assert forall|x: u64|
                dirs@.contains(x) <==> (self.folders().dom().contains(x) && self.folders()[x].parent == folder) by {
                if dirs@.contains(x) {
                    let k = choose|k: int| 0 <= k < fo@.len() && (#[trigger] fo@[k]).0 == x;
                }
                if self.folders().dom().contains(x) && self.folders()[x].parent == folder {
                    let k = choose|k: int| 0 <= k < fo@.len() && (#[trigger] fo@[k]).0 == x;
                }
            }
            assert(name_ordered(dirs@, |x: u64| self.folders()[x].name@));
            assert forall|t: int| 0 <= t < files@.len() implies name_of(fi@, #[trigger] files@[t]) == encode_utf8(
                self.files()[files@[t]].name@,
            ) by {
                assert(files@.contains(files@[t]));
                let c = choose|c: int| 0 <= c < fi@.len() && fi@[c].0 == files@[t];
                assert(fi@[c].0 == files@[t]);
            }
            assert forall|x: u64|
                files@.contains(x) <==> (self.files().dom().contains(x) && self.files()[x].folder == folder) by {
                if files@.contains(x) {
                    let k = choose|k: int| 0 <= k < fi@.len() && (#[trigger] fi@[k]).0 == x;
                }
                if self.files().dom().contains(x) && self.files()[x].folder == folder {
                    let k = choose|k: int| 0 <= k < fi@.len() && (#[trigger] fi@[k]).0 == x;
                }
            }
            assert(name_ordered(files@, |x: u64| self.files()[x].name@));
        }
        Ok((dirs, files))
    }

    /// (id, name bytes) of the files in `folder`, ascending
    /// by id.
    fn child_file_items(&self, folder: u64) -> (items: Vec<(u64, Vec<u8>)>)
        requires
            self.wf(),
        ensures
            forall|i: int, j: int| 0 <= i < j < items@.len() ==> (#[trigger] items@[i]).0 < (#[trigger] items@[j]).0,
            forall|k: int|
                #![trigger items@[k]]
                0 <= k < items@.len() ==> self.files().dom().contains(items@[k].0)
                    && self.files()[items@[k].0].folder == folder
                    && items@[k].1@ == encode_utf8(self.files()[items@[k].0].name@),
            forall|x: u64|
                #![trigger self.files()[x]]
                self.files().dom().contains(x) && self.files()[x].folder == folder ==> exists|k: int|
                    0 <= k < items@.len() && (#[trigger] items@[k]).0 == x,
    {
        let ghost es = self.files.spec_entries();
        proof {
            self.files.lemma_dom();
        }
        let mut items: Vec<(u64, Vec<u8>)> = Vec::new();
        let mut i: usize = 0;
        while i < self.files.len()
            invariant
                self.wf(),
                es == self.files.spec_entries(),
                i <= es.len(),
                forall|a: int, b: int| 0 <= a < b < items@.len() ==> (#[trigger] items@[a]).0 < (#[trigger] items@[b]).0,
                forall|k: int|
                    #![trigger items@[k]]
                    0 <= k < items@.len() ==> exists|j: int| 0 <= j < i && (#[trigger] es[j]).0 == items@[k].0,
                forall|k: int|
                    #![trigger items@[k]]
                    0 <= k < items@.len() ==> self.files().dom().contains(items@[k].0)
                        && self.files()[items@[k].0].folder == folder
                        && items@[k].1@ == encode_utf8(self.files()[items@[k].0].name@),
                forall|j: int|
                    #![trigger es[j]]
                    0 <= j < i && es[j].1.folder == folder ==> exists|k: int|
                        0 <= k < items@.len() && (#[trigger] items@[k]).0 == es[j].0,
            decreases es.len() - i,
        {
            let e = self.files.entry_at(i);
            proof {
                lemma_entries_lookup(es, i as int);
            }
            let ghost before = items@;
            if e.1.folder == folder {
                let name = vstd::slice::slice_to_vec(e.1.name.as_str().as_bytes());
                items.push((e.0, name));
                proof {
                    let n = before.len() as int;
                    assert(items@[n].0 == es[i as int].0);
                    assert forall|a: int, b: int| 0 <= a < b < items@.len() implies (#[trigger] items@[a]).0 < (#[trigger] items@[b]).0 by {
                        assert(items@[a] == before[a]);
                        if b == n {
                            let j = choose|j: int| 0 <= j < i && (#[trigger] es[j]).0 == before[a].0;
                            assert(es[j].0 < es[i as int].0);
                        } else {
                            assert(items@[b] == before[b]);
                        }
                    }
                    assert forall|k: int| #![trigger items@[k]] 0 <= k < items@.len() implies exists|j: int|
                        0 <= j < i + 1 && (#[trigger] es[j]).0 == items@[k].0 by {
                        if k == n {
                            assert(es[i as int].0 == items@[k].0);
                        } else {
                            assert(items@[k] == before[k]);
                            let j = choose|j: int| 0 <= j < i && (#[trigger] es[j]).0 == before[k].0;
                            assert(es[j].0 == items@[k].0);
                        }
                    }
                    assert forall|k: int| #![trigger items@[k]] 0 <= k < items@.len() implies self.files().dom().contains(items@[k].0)
                        && self.files()[items@[k].0].folder == folder
                        && items@[k].1@ == encode_utf8(self.files()[items@[k].0].name@) by {
                        if k < n {
                            assert(items@[k] == before[k]);
                        }
                    }
                    assert forall|j: int| #![trigger es[j]] 0 <= j < i + 1 && es[j].1.folder == folder implies exists|k: int|
                        0 <= k < items@.len() && (#[trigger] items@[k]).0 == es[j].0 by {
                        if j < i {
                            let k = choose|k: int| 0 <= k < before.len() && (#[trigger] before[k]).0 == es[j].0;
                            assert(items@[k] == before[k]);
                        } else {
                            assert(items@[n].0 == es[j].0);
                        }
                    }
                }
            } else {
                proof {
                    assert forall|k: int| #![trigger items@[k]] 0 <= k < items@.len() implies exists|j: int|
                        0 <= j < i + 1 && (#[trigger] es[j]).0 == items@[k].0 by {
                        let j = choose|j: int| 0 <= j < i && (#[trigger] es[j]).0 == items@[k].0;
                    }
                }
            }
            i = i + 1;
        }
        proof {
            assert forall|x: u64| #![trigger self.files()[x]]
                self.files().dom().contains(x) && self.files()[x].folder == folder implies exists|k: int|
                    0 <= k < items@.len() && (#[trigger] items@[k]).0 == x by {
                let j = choose|j: int| 0 <= j < es.len() && es[j].0 == x;
                lemma_entries_lookup(es, j);
                assert(es[j].1.folder == folder);
            }
        }
        items
    }

    /// (id, name bytes) of the folders whose parent is `folder`, ascending
    /// by id.
    fn child_folder_items(&self, folder: u64) -> (items: Vec<(u64, Vec<u8>)>)
        requires
            self.wf(),
        ensures
            forall|i: int, j: int| 0 <= i < j < items@.len() ==> (#[trigger] items@[i]).0 < (#[trigger] items@[j]).0,
            forall|k: int|
                #![trigger items@[k]]
                0 <= k < items@.len() ==> self.folders().dom().contains(items@[k].0)
                    && self.folders()[items@[k].0].parent == folder
                    && items@[k].1@ == encode_utf8(self.folders()[items@[k].0].name@),
            forall|x: u64|
                #![trigger self.folders()[x]]
                self.folders().dom().contains(x) && self.folders()[x].parent == folder ==> exists|k: int|
                    0 <= k < items@.len() && (#[trigger] items@[k]).0 == x,
    {
        let ghost es = self.folders.spec_entries();
        proof {
            self.folders.lemma_dom();
        }
        let mut items: Vec<(u64, Vec<u8>)> = Vec::new();
        let mut i: usize = 0;
        while i < self.folders.len()
            invariant
                self.wf(),
                es == self.folders.spec_entries(),
                i <= es.len(),
                forall|a: int, b: int| 0 <= a < b < items@.len() ==> (#[trigger] items@[a]).0 < (#[trigger] items@[b]).0,
                forall|k: int|
                    #![trigger items@[k]]
                    0 <= k < items@.len() ==> exists|j: int| 0 <= j < i && (#[trigger] es[j]).0 == items@[k].0,
                forall|k: int|
                    #![trigger items@[k]]
                    0 <= k < items@.len() ==> self.folders().dom().contains(items@[k].0)
                        && self.folders()[items@[k].0].parent == folder
                        && items@[k].1@ == encode_utf8(self.folders()[items@[k].0].name@),
                forall|j: int|
                    #![trigger es[j]]
                    0 <= j < i && es[j].1.parent == folder ==> exists|k: int|
                        0 <= k < items@.len() && (#[trigger] items@[k]).0 == es[j].0,
            decreases es.len() - i,
        {
            let e = self.folders.entry_at(i);
            proof {
                lemma_entries_lookup(es, i as int);
            }
            let ghost before = items@;
            if e.1.parent == folder {
                let name = vstd::slice::slice_to_vec(e.1.name.as_str().as_bytes());
                items.push((e.0, name));
                proof {
                    let n = before.len() as int;
                    assert(items@[n].0 == es[i as int].0);
                    assert forall|a: int, b: int| 0 <= a < b < items@.len() implies (#[trigger] items@[a]).0 < (#[trigger] items@[b]).0 by {
                        assert(items@[a] == before[a]);
                        if b == n {
                            let j = choose|j: int| 0 <= j < i && (#[trigger] es[j]).0 == before[a].0;
                            assert(es[j].0 < es[i as int].0);
                        } else {
                            assert(items@[b] == before[b]);
                        }
                    }
                    assert forall|k: int| #![trigger items@[k]] 0 <= k < items@.len() implies exists|j: int|
                        0 <= j < i + 1 && (#[trigger] es[j]).0 == items@[k].0 by {
                        if k == n {
                            assert(es[i as int].0 == items@[k].0);
                        } else {
                            assert(items@[k] == before[k]);
                            let j = choose|j: int| 0 <= j < i && (#[trigger] es[j]).0 == before[k].0;
                            assert(es[j].0 == items@[k].0);
                        }
                    }
                    assert forall|k: int| #![trigger items@[k]] 0 <= k < items@.len() implies self.folders().dom().contains(items@[k].0)
                        && self.folders()[items@[k].0].parent == folder
                        && items@[k].1@ == encode_utf8(self.folders()[items@[k].0].name@) by {
                        if k < n {
                            assert(items@[k] == before[k]);
                        }
                    }
                    assert forall|j: int| #![trigger es[j]] 0 <= j < i + 1 && es[j].1.parent == folder implies exists|k: int|
                        0 <= k < items@.len() && (#[trigger] items@[k]).0 == es[j].0 by {
                        if j < i {
                            let k = choose|k: int| 0 <= k < before.len() && (#[trigger] before[k]).0 == es[j].0;
                            assert(items@[k] == before[k]);
                        } else {
                            assert(items@[n].0 == es[j].0);
                        }
                    }
                }
            } else {
                proof {
                    assert forall|k: int| #![trigger items@[k]] 0 <= k < items@.len() implies exists|j: int|
                        0 <= j < i + 1 && (#[trigger] es[j]).0 == items@[k].0 by {
                        let j = choose|j: int| 0 <= j < i && (#[trigger] es[j]).0 == items@[k].0;
                    }
                }
            }
            i = i + 1;
        }
        proof {
            assert forall|x: u64| #![trigger self.folders()[x]]
                self.folders().dom().contains(x) && self.folders()[x].parent == folder implies exists|k: int|
                    0 <= k < items@.len() && (#[trigger] items@[k]).0 == x by {
                let j = choose|j: int| 0 <= j < es.len() && es[j].0 == x;
                lemma_entries_lookup(es, j);
                assert(es[j].1.parent == folder);
            }
        }
        items
    }

}

/// Words of a search query.
pub open spec fn query_tokens(query: Seq<char>) -> Seq<Seq<char>> {
    spec_tokens(spec_lowercase(query))
}

impl Postings {
    /// File ids posted under any of the given tokens (with repeats).
    fn ids_for_any(&self, hs: &Vec<String>) -> (r: Vec<u64>)
        ensures
            forall|x: u64|
                r@.contains(x) <==> exists|i: int|
                    0 <= i < hs@.len() && #[trigger] self.view().contains((hs@[i]@, x)),
    {
        let mut r: Vec<u64> = Vec::new();
        let mut k: usize = 0;
        while k < self.pairs.len()
            invariant
                k <= self.pairs@.len(),
                forall|x: u64|
                    r@.contains(x) <==> exists|j: int, i: int|
                        0 <= j < k && 0 <= i < hs@.len() && #[trigger] self.pairs@[j].1 == x
                            && self.pairs@[j].0@ == #[trigger] hs@[i]@,
            decreases self.pairs@.len() - k,
        {
            let mut found = false;
            let mut i: usize = 0;
            while i < hs.len()
                invariant
                    k < self.pairs@.len(),
                    i <= hs@.len(),
                    found == exists|ii: int|
                        0 <= ii < i && self.pairs@[k as int].0@ == #[trigger] hs@[ii]@,
                decreases hs@.len() - i,
            {
                if self.pairs[k].0 == hs[i] {
                    found = true;
                }
                i = i + 1;
            }
            let ghost r0 = r@;
            if found {
                r.push(self.pairs[k].1);
            }
            proof {
                assert forall|x: u64|
                    r@.contains(x) <==> exists|j: int, i: int|
                        0 <= j < k + 1 && 0 <= i < hs@.len() && #[trigger] self.pairs@[j].1 == x
                            && self.pairs@[j].0@ == #[trigger] hs@[i]@ by {
                    if r@.contains(x) {
                        if r0.contains(x) {
                        } else {
                            assert(found && x == self.pairs@[k as int].1);
                            let ii = choose|ii: int|
                                0 <= ii < hs@.len() && self.pairs@[k as int].0@ == #[trigger] hs@[ii]@;
                            assert(self.pairs@[k as int].1 == x && self.pairs@[k as int].0@ == hs@[ii]@);
                        }
                    }
                    if exists|j: int, i: int|
                        0 <= j < k + 1 && 0 <= i < hs@.len() && #[trigger] self.pairs@[j].1 == x
                            && self.pairs@[j].0@ == #[trigger] hs@[i]@ {
                        let (j, i) = choose|j: int, i: int|
                            0 <= j < k + 1 && 0 <= i < hs@.len() && #[trigger] self.pairs@[j].1 == x
                                && self.pairs@[j].0@ == #[trigger] hs@[i]@;
                        if j < k {
                            assert(r0.contains(x));
                            let t = choose|t: int| 0 <= t < r0.len() && r0[t] == x;
                            assert(r@[t] == x);
                        } else {
                            assert(found);
                            assert(r@[r@.len() - 1] == x);
                        }
                    }
                }
            }
            k = k + 1;
        }
        proof {
            assert forall|x: u64|
                r@.contains(x) <==> exists|i: int|
                    0 <= i < hs@.len() && #[trigger] self.view().contains((hs@[i]@, x)) by {
                if r@.contains(x) {
                    let (j, i) = choose|j: int, i: int|
                        0 <= j < self.pairs@.len() && 0 <= i < hs@.len() && #[trigger] self.pairs@[j].1
                            == x && self.pairs@[j].0@ == #[trigger] hs@[i]@;
                    assert(pairs_hold(self.pairs@, self.pairs@.len() as int, (hs@[i]@, x)));
                    assert(self.view().contains((hs@[i]@, x)));
                }
                if exists|i: int| 0 <= i < hs@.len() && #[trigger] self.view().contains((hs@[i]@, x)) {
                    let i = choose|i: int|
                        0 <= i < hs@.len() && #[trigger] self.view().contains((hs@[i]@, x));
                    let p = (hs@[i]@, x);
                    assert(pairs_hold(self.pairs@, self.pairs@.len() as int, p));
                    let j = choose|j: int|
                        0 <= j < self.pairs@.len() && #[trigger] self.pairs@[j].0@ == p.0
                            && self.pairs@[j].1 == p.1;
                    assert(self.pairs@[j].1 == x && self.pairs@[j].0@ == hs@[i]@);
                }
            }
        }
        r
    }
}

pub(crate) proof fn lemma_push_contains<T>(s: Seq<T>, x: T, y: T)
    ensures
        s.push(x).contains(y) == (s.contains(y) || y == x),
{
    if s.push(x).contains(y) {
        let t = choose|t: int| 0 <= t < s.push(x).len() && s.push(x)[t] == y;
        if t < s.len() {
            assert(s[t] == y);
        }
    }
    if s.contains(y) {
        let t = choose|t: int| 0 <= t < s.len() && s[t] == y;
        assert(s.push(x)[t] == y);
    }
    if y == x {
        assert(s.push(x)[s.len() as int] == y);
    }
}

fn vec_has(v: &Vec<u64>, x: u64) -> (b: bool)
    ensures
        b == v@.contains(x),
{
    let mut i: usize = 0;
    while i < v.len()
        invariant
            i <= v@.len(),
            forall|j: int| 0 <= j < i ==> v@[j] != x,
        decreases v@.len() - i,
    {
        if v[i] == x {
            return true;
        }
        i = i + 1;
    }
    false
}

impl VaultIndex {
    /// `x` is a hit of a search for `query`: a registered file posted under
    /// the token of one of the query's words.
    pub open spec fn search_hit(&self, query: Seq<char>, x: u64) -> bool {
        &&& self.files().dom().contains(x)
        &&& exists|i: int|
            0 <= i < query_tokens(query).len() && self.postings().contains(
                (spec_token_hash(self.spec_search_key(), #[trigger] query_tokens(query)[i]), x),
            )
    }
}

/// Words posted for a file find it: when the postings hold the tokens of
/// `words` for file `id` (registering, renaming and tagging a file post its
/// new words) and the file is registered, every query that has one of those
/// words finds the file.
pub proof fn posted_words_find_file(
    ix: VaultIndex,
    id: u64,
    words: Seq<Seq<char>>,
    query: Seq<char>,
    i: int,
    j: int,
)
    requires
        ix.files().dom().contains(id),
        token_pairs(ix.spec_search_key(), id, words).subset_of(ix.postings()),
        0 <= i < query_tokens(query).len(),
        0 <= j < words.len(),
        query_tokens(query)[i] == words[j],
    ensures
        ix.search_hit(query, id),
{
    let p = (spec_token_hash(ix.spec_search_key(), words[j]), id);
    assert(token_pairs(ix.spec_search_key(), id, words).contains(p));
    assert(ix.postings().contains(
        (spec_token_hash(ix.spec_search_key(), query_tokens(query)[i]), id),
    ));
}

/// A file that is not registered (never added, or removed) is found by no
/// query.
pub proof fn unregistered_file_not_found(ix: VaultIndex, id: u64, query: Seq<char>)
    requires
        !ix.files().dom().contains(id),
    ensures
        !ix.search_hit(query, id),
{
}

impl VaultIndex {
    /// Search: the query's words are hashed and looked up; the hits are the
    /// registered files posted under any of them, ascending by id.
    pub fn search(&self, query: &str) -> (r: Vec<u64>)
        requires
            self.wf(),
        ensures
            ids_increasing(r@),
            forall|x: u64| #![trigger r@.contains(x)] r@.contains(x) <==> self.search_hit(query@, x),
    {
        let toks = tokenize(query);
        let ghost qt = strings_view(toks@);
        let mut hs: Vec<String> = Vec::new();
        let mut i: usize = 0;
        while i < toks.len()
            invariant
                qt == strings_view(toks@),
                i <= toks@.len(),
                hs@.len() == i,
                forall|j: int| 0 <= j < i ==> #[trigger] hs@[j]@ == spec_token_hash(self.search_key@, qt[j]),
            decreases toks@.len() - i,
        {
            hs.push(self.token_hash(toks[i].as_str()));
            i = i + 1;
        }
        let hits = self.search.ids_for_any(&hs);
        let ghost fs = self.files.spec_entries();
        let n = self.files.len();
        let mut r: Vec<u64> = Vec::new();
        let mut k: usize = 0;
        while k < n
            invariant
                self.wf(),
                fs == self.files.spec_entries(),
                n == fs.len(),
                k <= n,
                ids_increasing(r@),
                forall|t: int| #![trigger r@[t]] 0 <= t < r@.len() ==> exists|j: int| #![trigger fs[j]] 0 <= j < k && fs[j].0 == r@[t],
                forall|x: u64|
                    r@.contains(x) <==> (exists|j: int| 0 <= j < k && #[trigger] fs[j].0 == x && hits@.contains(x)),
            decreases n - k,
        {
            let fid = self.files.entry_at(k).0;
            if vec_has(&hits, fid) {
                let ghost r0 = r@;
                r.push(fid);
                proof {
                    assert forall|t: int| 0 <= t < r0.len() implies r0[t] < fid by {
                        let j = choose|j: int| #![trigger fs[j]] 0 <= j < k && fs[j].0 == r0[t];
                        assert(fs[j].0 < fs[k as int].0);
                    }
                    assert forall|x: u64|
                        r@.contains(x) <==> (exists|j: int| 0 <= j < k + 1 && #[trigger] fs[j].0 == x && hits@.contains(x)) by {
                        if r@.contains(x) && x != fid {
                            let t = choose|t: int| 0 <= t < r@.len() && r@[t] == x;
                            assert(r0.contains(x));
                        }
                        if x == fid {
                            assert(r@[r@.len() - 1] == x);
                        } else if exists|j: int| 0 <= j < k + 1 && #[trigger] fs[j].0 == x && hits@.contains(x) {
                            let j = choose|j: int| 0 <= j < k + 1 && #[trigger] fs[j].0 == x && hits@.contains(x);
                            assert(j < k);
                            assert(r0.contains(x));
                            let t = choose|t: int| 0 <= t < r0.len() && r0[t] == x;
                            assert(r@[t] == x);
                        }
                    }
                }
            } else {
                proof {
                    assert forall|x: u64|
                        r@.contains(x) <==> (exists|j: int| 0 <= j < k + 1 && #[trigger] fs[j].0 == x && hits@.contains(x)) by {
                        if exists|j: int| 0 <= j < k + 1 && #[trigger] fs[j].0 == x && hits@.contains(x) {
                            let j = choose|j: int| 0 <= j < k + 1 && #[trigger] fs[j].0 == x && hits@.contains(x);
                            assert(j < k);
                        }
                    }
                }
            }
            k = k + 1;
        }
        proof {
            self.files.lemma_dom();
            assert forall|x: u64|
                #![trigger r@.contains(x)]
                r@.contains(x) <==> (self.files().dom().contains(x) && exists|i: int|
                    0 <= i < query_tokens(query@).len() && self.postings().contains(
                        (spec_token_hash(self.spec_search_key(), #[trigger] query_tokens(query@)[i]), x),
                    )) by {
                let hit = exists|i: int| 0 <= i < hs@.len() && #[trigger] self.search.view().contains((hs@[i]@, x));
                if hit {
                    let i = choose|i: int| 0 <= i < hs@.len() && #[trigger] self.search.view().contains((hs@[i]@, x));
                    assert(hs@[i]@ == spec_token_hash(self.search_key@, qt[i]));
                }
                if exists|i: int|
                    0 <= i < query_tokens(query@).len() && self.postings().contains(
                        (spec_token_hash(self.spec_search_key(), #[trigger] query_tokens(query@)[i]), x),
                    ) {
                    let i = choose|i: int|
                        0 <= i < query_tokens(query@).len() && self.postings().contains(
                            (spec_token_hash(self.spec_search_key(), #[trigger] query_tokens(query@)[i]), x),
                        );
                    assert(hs@[i]@ == spec_token_hash(self.search_key@, qt[i]));
                    assert(self.search.view().contains((hs@[i]@, x)));
                }
                if r@.contains(x) {
                    let j = choose|j: int| 0 <= j < n && #[trigger] fs[j].0 == x && hits@.contains(x);
                    crate::idmap::lemma_entries_lookup(fs, j);
                }
                if self.files().dom().contains(x) && hits@.contains(x) {
                    let j = choose|j: int| 0 <= j < fs.len() && fs[j].0 == x;
                    assert(fs[j].0 == x && hits@.contains(x));
                }
            }
        }
        r
    }

    /// Deletes a folder with everything below it; gives the ids of the files
    /// that went with it (ascending). Their containers are the caller's to
    /// delete.
    pub fn remove_folder(&mut self, id: u64) -> (r: Result<Vec<u64>, &'static str>)
        requires
            old(self).wf(),
        ensures
            final(self).wf(),
            old(self).tree_ok() ==> final(self).tree_ok(),
            r is Ok <==> (old(self).folders().dom().contains(id) && id != ROOT_FOLDER),
            match r {
                Ok(removed) => {
                    &&& ids_increasing(removed@)
                    &&& forall|x: u64|
                        #![trigger removed@.contains(x)]
                        removed@.contains(x) <==> (old(self).files().dom().contains(x) && in_subtree(
                            old(self).folders(),
                            id,
                            old(self).files()[x].folder,
                        ))
                    &&& forall|x: u64|
                        #[trigger] final(self).files().dom().contains(x) <==> (old(
                            self,
                        ).files().dom().contains(x) && !removed@.contains(x))
                    &&& forall|x: u64| #[trigger]
                        final(self).files().dom().contains(x) ==> final(self).files()[x] == old(
                            self,
                        ).files()[x]
                    &&& forall|f: u64|
                        #[trigger] final(self).folders().dom().contains(f) <==> (old(
                            self,
                        ).folders().dom().contains(f) && !in_subtree(old(self).folders(), id, f))
                    &&& forall|f: u64| #[trigger]
                        final(self).folders().dom().contains(f) ==> final(self).folders()[f] == old(
                            self,
                        ).folders()[f]
                    &&& final(self).postings() == old(self).postings().difference(
                        files_pairs(old(self).spec_search_key(), old(self).files(), removed@),
                    )
                    &&& final(self).shares() == old(self).shares()
                    &&& final(self).tombs() == old(self).tombs()
                    &&& final(self).spec_next_id() == old(self).spec_next_id()
                    &&& final(self).spec_search_key() == old(self).spec_search_key()
                },
                Err(e) => {
                    &&& *final(self) == *old(self)
                    &&& e@ == (if !old(self).folders().dom().contains(id) {
                        "folder not found"@
                    } else {
                        "cannot delete root"@
                    })
                },
            },
    {
        let r = self.remove_folder_inner(id);
        proof {
            if r is Ok && old(self).tree_ok() {
                let removed = r->Ok_0;
                lemma_remove_folder_tree(*old(self), *self, id, removed@);
            }
        }
        r
    }

    fn remove_folder_inner(&mut self, id: u64) -> (r: Result<Vec<u64>, &'static str>)
        requires
            old(self).wf(),
        ensures
            final(self).wf(),
            r is Ok <==> (old(self).folders().dom().contains(id) && id != ROOT_FOLDER),
            match r {
                Ok(removed) => {
                    &&& ids_increasing(removed@)
                    &&& forall|x: u64|
                        #![trigger removed@.contains(x)]
                        removed@.contains(x) <==> (old(self).files().dom().contains(x) && in_subtree(
                            old(self).folders(),
                            id,
                            old(self).files()[x].folder,
                        ))
                    &&& forall|x: u64|
                        #[trigger] final(self).files().dom().contains(x) <==> (old(
                            self,
                        ).files().dom().contains(x) && !removed@.contains(x))
                    &&& forall|x: u64| #[trigger]
                        final(self).files().dom().contains(x) ==> final(self).files()[x] == old(
                            self,
                        ).files()[x]
                    &&& forall|f: u64|
                        #[trigger] final(self).folders().dom().contains(f) <==> (old(
                            self,
                        ).folders().dom().contains(f) && !in_subtree(old(self).folders(), id, f))
                    &&& forall|f: u64| #[trigger]
                        final(self).folders().dom().contains(f) ==> final(self).folders()[f] == old(
                            self,
                        ).folders()[f]
                    &&& final(self).postings() == old(self).postings().difference(
                        files_pairs(old(self).spec_search_key(), old(self).files(), removed@),
                    )
                    &&& final(self).shares() == old(self).shares()
                    &&& final(self).tombs() == old(self).tombs()
                    &&& final(self).spec_next_id() == old(self).spec_next_id()
                    &&& final(self).spec_search_key() == old(self).spec_search_key()
                },
                Err(e) => {
                    &&& *final(self) == *old(self)
                    &&& e@ == (if !old(self).folders().dom().contains(id) {
                        "folder not found"@
                    } else {
                        "cannot delete root"@
                    })
                },
            },
    {
        if !self.folders.contains_key(id) {
            return Err("folder not found");
        }
        if id == ROOT_FOLDER {
            return Err("cannot delete root");
        }
        let m = self.subtree_marks(id);
        let removed = self.files_in_marked(&m, id);
        let ghost es = self.folders.spec_entries();
        let ghost ofo = self.folders();
        let mut dead: Vec<u64> = Vec::new();
        let mut i: usize = 0;
        while i < m.len()
            invariant
                self.wf(),
                es == self.folders.spec_entries(),
                m@.len() == es.len(),
                i <= m@.len(),
                forall|f: u64|
                    #![trigger dead@.contains(f)]
                    dead@.contains(f) <==> exists|j: int| 0 <= j < i && #[trigger] es[j].0 == f && m@[j],
            decreases m@.len() - i,
        {
            let ghost d0 = dead@;
            if m[i] {
                dead.push(self.folders.entry_at(i).0);
            }
            proof {
                assert forall|f: u64|
                    #![trigger dead@.contains(f)]
                    dead@.contains(f) <==> exists|j: int| 0 <= j < i + 1 && #[trigger] es[j].0 == f && m@[j] by {
                    if dead@.contains(f) && !d0.contains(f) {
                        assert(m@[i as int] && es[i as int].0 == f);
                    }
                    if dead@.contains(f) && d0.contains(f) {
                    }
                    if exists|j: int| 0 <= j < i + 1 && #[trigger] es[j].0 == f && m@[j] {
                        let j = choose|j: int| 0 <= j < i + 1 && #[trigger] es[j].0 == f && m@[j];
                        if j < i {
                            assert(d0.contains(f));
                            let t = choose|t: int| 0 <= t < d0.len() && d0[t] == f;
                            assert(dead@[t] == f);
                        } else {
                            assert(dead@[dead@.len() - 1] == f);
                        }
                    }
                }
            }
            i = i + 1;
        }
        let ghost key = self.search_key@;
        let ghost of = old(self).files();
        let mut k: usize = 0;
        while k < removed.len()
            invariant
                self.wf(),
                key == self.search_key@,
                of == old(self).files(),
                ids_increasing(removed@),
                forall|x: u64|
                    #![trigger removed@.contains(x)]
                    removed@.contains(x) ==> of.dom().contains(x),
                k <= removed@.len(),
                forall|x: u64|
                    #[trigger] self.files().dom().contains(x) <==> (of.dom().contains(x)
                        && !removed@.take(k as int).contains(x)),
                forall|x: u64| #[trigger]
                    self.files().dom().contains(x) ==> self.files()[x] == of[x],
                self.postings() == old(self).postings().difference(
                    files_pairs(key, of, removed@.take(k as int)),
                ),
                self.folders() == old(self).folders(),
                forall|f: u64|
                    #![trigger dead@.contains(f)]
                    dead@.contains(f) <==> exists|jj: int| 0 <= jj < es.len() && #[trigger] es[jj].0 == f && m@[jj],
                self.shares() == old(self).shares(),
                self.tombs() == old(self).tombs(),
                self.spec_next_id() == old(self).spec_next_id(),
            decreases removed@.len() - k,
        {
            let x = removed[k];
            proof {
                assert(removed@.contains(x));
                assert(!removed@.take(k as int).contains(x)) by {
                    if removed@.take(k as int).contains(x) {
                        let t = choose|t: int| 0 <= t < k && #[trigger] removed@.take(k as int)[t] == x;
                        assert(removed@[t] < removed@[k as int]);
                    }
                }
            }
            let ghost before = self.postings();
            let _ = self.remove_file(x);
            proof {
                assert(removed@.take(k + 1) =~= removed@.take(k as int).push(x));
                assert forall|y: u64|
                    #[trigger] self.files().dom().contains(y) <==> (of.dom().contains(y)
                        && !removed@.take(k + 1).contains(y)) by {
                    lemma_push_contains(removed@.take(k as int), x, y);
                }
                assert(files_pairs(key, of, removed@.take(k + 1)) =~= files_pairs(
                    key,
                    of,
                    removed@.take(k as int),
                ).union(entry_pairs(key, x, of[x]))) by {
                    assert forall|p: (Seq<char>, u64)| #[trigger]
                        files_pairs(key, of, removed@.take(k + 1)).contains(p) implies files_pairs(
                        key,
                        of,
                        removed@.take(k as int),
                    ).union(entry_pairs(key, x, of[x])).contains(p) by {
                        if p.1 != x {
                            let t = choose|t: int| 0 <= t < k + 1 && #[trigger] removed@.take(k + 1)[t] == p.1;
                            assert(removed@.take(k as int)[t] == p.1);
                        }
                    }
                    assert forall|p: (Seq<char>, u64)| #[trigger]
                        files_pairs(key, of, removed@.take(k as int)).contains(p) implies files_pairs(
                        key,
                        of,
                        removed@.take(k + 1),
                    ).contains(p) by {
                        let t = choose|t: int| 0 <= t < k && #[trigger] removed@.take(k as int)[t] == p.1;
                        assert(removed@.take(k + 1)[t] == p.1);
                    }
                    assert forall|p: (Seq<char>, u64)| #[trigger]
                        entry_pairs(key, x, of[x]).contains(p) implies files_pairs(
                        key,
                        of,
                        removed@.take(k + 1),
                    ).contains(p) by {
                        assert(removed@.take(k + 1)[k as int] == x);
                        assert(p.1 == x) by {
                            if token_pairs(key, x, name_tokens(of[x].name@)).contains(p) {
                            } else {
                            }
                        }
                    }
                }
                assert(self.postings() =~= old(self).postings().difference(
                    files_pairs(key, of, removed@.take(k + 1)),
                ));
            }
            k = k + 1;
        }
        proof {
            assert(removed@.take(k as int) =~= removed@);
        }
        let mut j: usize = 0;
        while j < dead.len()
            invariant
                self.wf(),
                j <= dead@.len(),
                forall|f: u64|
                    #[trigger] self.folders().dom().contains(f) <==> (ofo.dom().contains(f)
                        && !dead@.take(j as int).contains(f)),
                forall|f: u64| #[trigger]
                    self.folders().dom().contains(f) ==> self.folders()[f] == ofo[f],
                self.files() == old(self).files().restrict(self.files().dom()),
                self.postings() == old(self).postings().difference(
                    files_pairs(key, of, removed@),
                ),
                forall|x: u64|
                    #[trigger] self.files().dom().contains(x) <==> (of.dom().contains(x)
                        && !removed@.contains(x)),
                forall|x: u64| #[trigger]
                    self.files().dom().contains(x) ==> self.files()[x] == of[x],
                self.shares() == old(self).shares(),
                self.tombs() == old(self).tombs(),
                self.spec_next_id() == old(self).spec_next_id(),
                self.spec_search_key() == old(self).spec_search_key(),
            decreases dead@.len() - j,
        {
            let f = dead[j];
            let ghost fv = self.folders();
            let _ = self.folders.remove(f);
            proof {
                assert(self.folders() == fv.remove(f));
                assert(dead@.take(j + 1) =~= dead@.take(j as int).push(f));
                assert forall|g: u64|
                    #[trigger] self.folders().dom().contains(g) <==> (ofo.dom().contains(g)
                        && !dead@.take(j + 1).contains(g)) by {
                    lemma_push_contains(dead@.take(j as int), f, g);
                }
            }
            j = j + 1;
        }
        proof {
            assert(dead@.take(j as int) =~= dead@);
            assert forall|f: u64|
                #[trigger] self.folders().dom().contains(f) <==> (ofo.dom().contains(f)
                    && !in_subtree(ofo, id, f)) by {
                if ofo.dom().contains(f) {
                    self.lemma_pos_of(ofo, es, f);
                    let t = choose|t: int| 0 <= t < es.len() && es[t].0 == f;
                    if dead@.contains(f) {
                        let jj = choose|jj: int| 0 <= jj < es.len() && #[trigger] es[jj].0 == f && m@[jj];
                    } else {
                        assert(!m@[t]);
                    }
                    if in_subtree(ofo, id, f) {
                        assert(m@[t]);
                        assert(dead@.contains(f));
                    }
                }
            }
        }
        Ok(removed)
    }

    proof fn lemma_pos_of(&self, fm: Map<u64, Folder>, es: Seq<(u64, Folder)>, f: u64)
        requires
            crate::idmap::keys_increasing(es),
            fm == crate::idmap::entries_map(es),
            fm.dom().contains(f),
        ensures
            exists|t: int| 0 <= t < es.len() && es[t].0 == f,
    {
    }
}

/// Magic of the index file, also bound as associated data.
pub open spec fn index_magic() -> Seq<u8> {
    seq![86u8, 83, 73, 88]
}

/// The index file: magic ‖ format_ver ‖ nonce ‖ sealed JSON.
pub open spec fn spec_index_blob(key: Seq<u8>, nonce: Seq<u8>, json: Seq<u8>) -> Seq<u8> {
    index_magic() + le16(INDEX_FORMAT_VER) + nonce + spec_aes_gcm_seal(key, nonce, json, index_magic())
}

/// What `open_index` makes of an index file.
pub open spec fn spec_open_index(key: Seq<u8>, d: Seq<u8>) -> Result<Seq<u8>, Seq<char>> {
    if d.len() < 34 {
        Err("index truncated"@)
    } else if d.take(4) != index_magic() {
        Err("bad index magic"@)
    } else if rd16(d, 4) > INDEX_FORMAT_VER {
        Err("index format newer than engine"@)
    } else {
        match spec_aead_open_blob(key, d.skip(6), index_magic()) {
            Some(j) => Ok(j),
            None => Err("index decrypt failed (wrong key or tampered)"@),
        }
    }
}

fn index_magic_bytes() -> (m: [u8; 4])
    ensures
        m@ == index_magic(),
{
    let m = [86u8, 83, 73, 88];
    proof {
        assert(m@ =~= index_magic());
    }
    m
}

/// Seals the serialised index under the index key with a given nonce.
pub fn seal_index_with_nonce(json: &[u8], key: &[u8; KEY_LEN], nonce: &[u8; 12]) -> (r: Result<
    Vec<u8>,
    &'static str,
>)
    ensures
        r is Ok <==> gcm_len_ok(json@, index_magic()),
        match r {
            Ok(b) => b@ == spec_index_blob(key@, nonce@, json@) && b@.len() == 6 + 12 + json@.len()
                + AES_GCM_TAG_LEN,
            Err(e) => e@ == "aes-gcm encrypt failed"@,
        },
{
    let aad = index_magic_bytes();
    let full = match aead_encrypt_with_aad(key, nonce, json, &aad) {
        Ok(b) => b,
        Err(e) => return Err(e),
    };
    let ct = copy_range(full.as_slice(), AES_GCM_NONCE_LEN, full.len());
    let mut out: Vec<u8> = Vec::new();
    out.extend_from_slice(&aad);
    push_le16(&mut out, INDEX_FORMAT_VER);
    out.extend_from_slice(nonce.as_slice());
    out.extend_from_slice(ct.as_slice());
    proof {
        assert(ct@ =~= spec_aes_gcm_seal(key@, nonce@, json@, index_magic()));
        assert(out@ =~= spec_index_blob(key@, nonce@, json@));
    }
    Ok(out)
}

/// Seals the serialised index (fresh random nonce).
pub fn seal_index(json: &[u8], key: &[u8; KEY_LEN]) -> (r: Result<Vec<u8>, &'static str>)
    ensures
        r is Ok <==> gcm_len_ok(json@, index_magic()),
        match r {
            Ok(b) => exists|n: Seq<u8>| n.len() == 12 && b@ == #[trigger] spec_index_blob(key@, n, json@),
            Err(e) => e@ == "aes-gcm encrypt failed"@,
        },
{
    let nonce = random_nonce();
    seal_index_with_nonce(json, key, &nonce)
}

/// Opens an index file: checks its length, magic and format version, then
/// decrypts (the magic is the associated data). Gives the serialised index.
pub fn open_index(data: &[u8], key: &[u8; KEY_LEN]) -> (r: Result<Vec<u8>, &'static str>)
    ensures
        match r {
            Ok(j) => spec_open_index(key@, data@) == Ok::<Seq<u8>, Seq<char>>(j@),
            Err(e) => spec_open_index(key@, data@) == Err::<Seq<u8>, Seq<char>>(e@),
        },
        forall|n: Seq<u8>, j: Seq<u8>|
            n.len() == 12 && gcm_len_ok(j, index_magic()) && data@.len() == 18 + j.len() + AES_GCM_TAG_LEN
                && data@ == #[trigger] spec_index_blob(key@, n, j) ==> (r matches Ok(o) && o@ == j),
{
    if data.len() < 34 {
        return Err("index truncated");
    }
    if !(data[0] == 86 && data[1] == 83 && data[2] == 73 && data[3] == 88) {
        proof {
            assert(data@.take(4) != index_magic()) by {
                if data@.take(4) == index_magic() {
                    assert(data@.take(4)[0] == 86);
                    assert(data@.take(4)[1] == 83);
                    assert(data@.take(4)[2] == 73);
                    assert(data@.take(4)[3] == 88);
                }
            }
        }
        return Err("bad index magic");
    }
    proof {
        assert(data@.take(4) =~= index_magic());
    }
    let ver = read16(data, 4);
    if ver > INDEX_FORMAT_VER {
        return Err("index format newer than engine");
    }
    let blob = copy_range(data, 6, data.len());
    let aad = index_magic_bytes();
    proof {
        assert(blob@ =~= data@.skip(6));
        assert forall|n: Seq<u8>, j: Seq<u8>|
            n.len() == 12 && gcm_len_ok(j, index_magic()) && data@.len() == 18 + j.len() + AES_GCM_TAG_LEN
                && data@ == #[trigger] spec_index_blob(key@, n, j) implies spec_aead_blob(
            key@,
            n,
            j,
            index_magic(),
        ) == blob@ && rd16(data@, 4) == INDEX_FORMAT_VER by {
            assert(data@.skip(6) =~= n + spec_aes_gcm_seal(key@, n, j, index_magic()));
            assert(data@[4] == le16(INDEX_FORMAT_VER)[0]);
            assert(data@[5] == le16(INDEX_FORMAT_VER)[1]);
        }
    }
    match aead_decrypt_with_aad(key, blob.as_slice(), &aad) {
        Some(j) => Ok(j),
        None => Err("index decrypt failed (wrong key or tampered)"),
    }
}

impl VaultIndex {
    /// Folder entries in ascending id order.
    pub closed spec fn folder_entries(&self) -> Seq<(u64, Folder)> {
        self.folders.spec_entries()
    }

    /// File entries in ascending id order.
    pub closed spec fn file_entries(&self) -> Seq<(u64, FileEntry)> {
        self.files.spec_entries()
    }

    /// Share entries in ascending id order.
    pub closed spec fn share_entries(&self) -> Seq<(u64, Share)> {
        self.shares.spec_entries()
    }

    /// Tombstone entries in ascending id order.
    pub closed spec fn tomb_entries(&self) -> Seq<(u64, Tombstone)> {
        self.tombstones.spec_entries()
    }

    /// The stored postings.
    pub closed spec fn posting_list(&self) -> Seq<(String, u64)> {
        self.search.pairs@
    }

    /// Number of folders (for serialising the index).
    pub fn folder_count(&self) -> (n: usize)
        ensures
            n == self.folder_entries().len(),
    {
        self.folders.len()
    }

    /// Folder at a position, ascending by id.
    pub fn folder_at(&self, i: usize) -> (e: &(u64, Folder))
        requires
            i < self.folder_entries().len(),
        ensures
            *e == self.folder_entries()[i as int],
    {
        self.folders.entry_at(i)
    }

    /// Number of files.
    pub fn file_count(&self) -> (n: usize)
        ensures
            n == self.file_entries().len(),
    {
        self.files.len()
    }

    /// File at a position, ascending by id.
    pub fn file_at(&self, i: usize) -> (e: &(u64, FileEntry))
        requires
            i < self.file_entries().len(),
        ensures
            *e == self.file_entries()[i as int],
    {
        self.files.entry_at(i)
    }

    /// Number of shares.
    pub fn share_count(&self) -> (n: usize)
        ensures
            n == self.share_entries().len(),
    {
        self.shares.len()
    }

    /// Share at a position, ascending by id.
    pub fn share_at(&self, i: usize) -> (e: &(u64, Share))
        requires
            i < self.share_entries().len(),
        ensures
            *e == self.share_entries()[i as int],
    {
        self.shares.entry_at(i)
    }

    /// Number of tombstones.
    pub fn tombstone_count(&self) -> (n: usize)
        ensures
            n == self.tomb_entries().len(),
    {
        self.tombstones.len()
    }

    /// Tombstone at a position, ascending by file id.
    pub fn tombstone_at(&self, i: usize) -> (e: &(u64, Tombstone))
        requires
            i < self.tomb_entries().len(),
        ensures
            *e == self.tomb_entries()[i as int],
    {
        self.tombstones.entry_at(i)
    }

    /// Number of stored (token, file id) postings.
    pub fn posting_count(&self) -> (n: usize)
        ensures
            n == self.posting_list().len(),
    {
        self.search.pairs.len()
    }

    /// Posting at a position.
    pub fn posting_at(&self, i: usize) -> (e: &(String, u64))
        requires
            i < self.posting_list().len(),
        ensures
            *e == self.posting_list()[i as int],
    {
        &self.search.pairs[i]
    }

    /// Rebuilds an index from its parts (as read back from the index file);
    /// a missing root folder is added.
    pub fn from_parts(
        search_key: [u8; KEY_LEN],
        next_id: u64,
        folders: Vec<(u64, Folder)>,
        files: Vec<(u64, FileEntry)>,
        shares: Vec<(u64, Share)>,
        tombstones: Vec<(u64, Tombstone)>,
        postings: Vec<(String, u64)>,
    ) -> (ix: Self)
        requires
            forall|i: int| 0 <= i < files@.len() ==> (#[trigger] files@[i]).1.vc.wf(),
            forall|i: int| 0 <= i < tombstones@.len() ==> (#[trigger] tombstones@[i]).1.vc.wf(),
        ensures
            ix.wf(),
            ix.folders().dom() == pairs_map(folders@).dom().insert(ROOT_FOLDER),
            ix.folders().remove(ROOT_FOLDER) == pairs_map(folders@).remove(ROOT_FOLDER),
            pairs_map(folders@).dom().contains(ROOT_FOLDER) ==> ix.folders() == pairs_map(folders@),
            !pairs_map(folders@).dom().contains(ROOT_FOLDER) ==> ix.folders()[ROOT_FOLDER].name@
                == Seq::<char>::empty() && ix.folders()[ROOT_FOLDER].parent == 0,
            ix.files() == pairs_map(files@),
            ix.shares() == pairs_map(shares@),
            ix.tombs() == pairs_map(tombstones@),
            ix.postings() == Set::new(
                |p: (Seq<char>, u64)|
                    exists|i: int|
                        0 <= i < postings@.len() && #[trigger] postings@[i].0@ == p.0 && postings@[i].1
                            == p.1,
            ),
            ix.spec_next_id() == next_id,
            ix.spec_search_key() == search_key@,
    {
        let ghost fv = files@;
        let ghost tv = tombstones@;
        let mut fm = IdMap::from_pairs(folders);
        if !fm.contains_key(ROOT_FOLDER) {
            fm.insert(ROOT_FOLDER, Folder { name: String::new(), parent: 0 });
        }
        let files = IdMap::from_pairs(files);
        let tombs = IdMap::from_pairs(tombstones);
        proof {
            assert forall|id: u64| #[trigger] files@.dom().contains(id) implies files@[id].vc.wf() by {
                crate::idmap::lemma_pairs_map_from(fv, id);
            }
            assert forall|id: u64| #[trigger] tombs@.dom().contains(id) implies tombs@[id].vc.wf() by {
                crate::idmap::lemma_pairs_map_from(tv, id);
            }
        }
        let ix = VaultIndex {
            folders: fm,
            files,
            shares: IdMap::from_pairs(shares),
            search: Postings { pairs: postings },
            tombstones: tombs,
            next_id,
            search_key,
        };
        proof {
            assert(ix.folders().remove(ROOT_FOLDER) =~= pairs_map(folders@).remove(ROOT_FOLDER));
            assert(ix.folders().dom() =~= pairs_map(folders@).dom().insert(ROOT_FOLDER));
            assert(ix.postings() =~= Set::new(
                |p: (Seq<char>, u64)|
                    exists|i: int|
                        0 <= i < postings@.len() && #[trigger] postings@[i].0@ == p.0 && postings@[i].1
                            == p.1,
            ));
        }
        ix
    }
}

impl VaultIndex {
    /// Manifest entries of the files, ascending by id (chunk list, nonce
    /// prefix and file hash are filled in from the containers).
    pub fn manifest_files(&self) -> (r: Vec<ManifestItem>)
        requires
            self.wf(),
        ensures
            r@.len() == self.file_entries().len(),
            forall|i: int|
                0 <= i < r@.len() ==> {
                    let (id, e) = self.file_entries()[i];
                    let m = #[trigger] r@[i];
                    &&& m.id == id
                    &&& m.folder == e.folder
                    &&& m.name@ == e.name@
                    &&& m.size == e.size
                    &&& m.modified_ms == e.modified_ms
                    &&& m.vc.wf() && m.vc.view() == e.vc.view()
                    &&& m.deleted_ms is None
                    &&& m.chunks@.len() == 0
                    &&& m.nonce_prefix == 0
                    &&& m.file_sha@ == Seq::<char>::empty()
                },
    {
        let mut r: Vec<ManifestItem> = Vec::new();
        let n = self.files.len();
        let mut i: usize = 0;
        while i < n
            invariant
                self.wf(),
                n == self.files.spec_entries().len(),
                i <= n,
                r@.len() == i,
                forall|j: int|
                    0 <= j < i ==> {
                        let (id, e) = self.files.spec_entries()[j];
                        let m = #[trigger] r@[j];
                        &&& m.id == id
                        &&& m.folder == e.folder
                        &&& m.name@ == e.name@
                        &&& m.size == e.size
                        &&& m.modified_ms == e.modified_ms
                        &&& m.vc.wf() && m.vc.view() == e.vc.view()
                        &&& m.deleted_ms is None
                        &&& m.chunks@.len() == 0
                        &&& m.nonce_prefix == 0
                        &&& m.file_sha@ == Seq::<char>::empty()
                    },
            decreases n - i,
        {
            let e = self.files.entry_at(i);
            proof {
                crate::idmap::lemma_entries_lookup(self.files.spec_entries(), i as int);
            }
            r.push(
                ManifestItem {
                    id: e.0,
                    folder: e.1.folder,
                    name: e.1.name.clone(),
                    size: e.1.size,
                    modified_ms: e.1.modified_ms,
                    vc: e.1.vc.duplicate(),
                    deleted_ms: None,
                    chunks: Vec::new(),
                    nonce_prefix: 0,
                    file_sha: String::new(),
                },
            );
            i = i + 1;
        }
        r
    }

    /// Manifest entries of the tombstones, ascending by id: no name, folder 0,
    /// size 0, `modified_ms` and `deleted_ms` both the deletion time.
    pub fn manifest_tombstones(&self) -> (r: Vec<ManifestItem>)
        requires
            self.wf(),
        ensures
            r@.len() == self.tomb_entries().len(),
            forall|i: int|
                0 <= i < r@.len() ==> {
                    let (id, t) = self.tomb_entries()[i];
                    let m = #[trigger] r@[i];
                    &&& m.id == id
                    &&& m.folder == 0
                    &&& m.name@ == Seq::<char>::empty()
                    &&& m.size == 0
                    &&& m.modified_ms == t.deleted_ms
                    &&& m.vc.wf() && m.vc.view() == t.vc.view()
                    &&& m.deleted_ms == Some(t.deleted_ms)
                    &&& m.chunks@.len() == 0
                },
    {
        let mut r: Vec<ManifestItem> = Vec::new();
        let n = self.tombstones.len();
        let mut i: usize = 0;
        while i < n
            invariant
                self.wf(),
                n == self.tombstones.spec_entries().len(),
                i <= n,
                r@.len() == i,
                forall|j: int|
                    0 <= j < i ==> {
                        let (id, t) = self.tombstones.spec_entries()[j];
                        let m = #[trigger] r@[j];
                        &&& m.id == id
                        &&& m.folder == 0
                        &&& m.name@ == Seq::<char>::empty()
                        &&& m.size == 0
                        &&& m.modified_ms == t.deleted_ms
                        &&& m.vc.wf() && m.vc.view() == t.vc.view()
                        &&& m.deleted_ms == Some(t.deleted_ms)
                        &&& m.chunks@.len() == 0
                    },
            decreases n - i,
        {
            let e = self.tombstones.entry_at(i);
            proof {
                crate::idmap::lemma_entries_lookup(self.tombstones.spec_entries(), i as int);
                assert(self.tombstones@.dom().contains(e.0));
                assert(e.1.vc.wf());
            }
            let vc = e.1.vc.duplicate();
            r.push(
                ManifestItem {
                    id: e.0,
                    folder: 0,
                    name: String::new(),
                    size: 0,
                    modified_ms: e.1.deleted_ms,
                    vc,
                    deleted_ms: Some(e.1.deleted_ms),
                    chunks: Vec::new(),
                    nonce_prefix: 0,
                    file_sha: String::new(),
                },
            );
            i = i + 1;
        }
        r
    }
}

} // verus!
