//! Relay protocol. A client's first line is `VSR1 <room>`; the room token is
//! 1 to 128 characters from `[A-Za-z0-9_-]`. The first client of a room
//! waits; the second is paired with it and the relay then copies bytes both
//! ways without reading them. Waiting rooms expire after ten minutes and at
//! most 1024 rooms wait at once. Logs name a room only by an FNV-1a hash.
use vstd::prelude::*;
use vstd::utf8::encode_utf8;

use crate::strmap::StrMap;
use crate::text::string_push;
use crate::vault::tokenize::strings_view;
use crate::vaultcore::platform_store::kek_bio::{fnv1a, spec_fnv1a};

verus! {

pub const MAX_ROOMS: usize = 1024;

/// Idle lifetime of a waiting room (10 min).
pub const ROOM_TTL_MS: u64 = 600000;

pub const MAX_ROOM_LEN: usize = 128;

/// Unicode White_Space (the property `char::is_whitespace` tests): tab to
/// carriage return, space, next line, no-break space, ogham space mark, the
/// spaces U+2000 to U+200A, line and paragraph separators, narrow no-break
/// space, medium mathematical space and ideographic space.
pub open spec fn spec_is_whitespace(c: char) -> bool {
    let u = c as u32;
    (0x09 <= u <= 0x0D) || u == 0x20 || u == 0x85 || u == 0xA0 || u == 0x1680 || (0x2000 <= u <= 0x200A)
        || u == 0x2028 || u == 0x2029 || u == 0x202F || u == 0x205F || u == 0x3000
}

fn is_whitespace(c: char) -> (b: bool)
    ensures
        b == spec_is_whitespace(c),
{
    let u = c as u32;
    (0x09 <= u && u <= 0x0D) || u == 0x20 || u == 0x85 || u == 0xA0 || u == 0x1680 || (0x2000 <= u && u
        <= 0x200A) || u == 0x2028 || u == 0x2029 || u == 0x202F || u == 0x205F || u == 0x3000
}

/// Whitespace-separated words seen after `n` characters: (finished words,
/// current word).
pub open spec fn words_upto(cs: Seq<char>, n: nat) -> (Seq<Seq<char>>, Seq<char>)
    decreases n,
{
    if n == 0 {
        (seq![], seq![])
    } else {
        let (w, cur) = words_upto(cs, (n - 1) as nat);
        let c = cs[n - 1];
        if spec_is_whitespace(c) {
            if cur.len() > 0 {
                (w.push(cur), seq![])
            } else {
                (w, seq![])
            }
        } else {
            (w, cur.push(c))
        }
    }
}

/// Words of a line (`str::split_whitespace`).
pub open spec fn spec_words(cs: Seq<char>) -> Seq<Seq<char>> {
    let (w, cur) = words_upto(cs, cs.len());
    if cur.len() > 0 {
        w.push(cur)
    } else {
        w
    }
}

/// A character allowed in a room token.
pub open spec fn room_char(c: char) -> bool {
    (0x30 <= c as u32 <= 0x39) || (0x41 <= c as u32 <= 0x5A) || (0x61 <= c as u32 <= 0x7A) || c == '-'
        || c == '_'
}

pub open spec fn valid_room(room: Seq<char>) -> bool {
    0 < room.len() <= MAX_ROOM_LEN && forall|i: int| 0 <= i < room.len() ==> room_char(#[trigger] room[i])
}

/// Refusals of a first line.
#[derive(PartialEq, Eq, Structural, Clone, Copy, Debug)]
pub enum RelayError {
    BadMagic,
    BadRoom,
}

impl RelayError {
    /// The line sent back before closing.
    pub fn reply(&self) -> (s: &'static str)
        ensures
            s@ == (match self {
                RelayError::BadMagic => "ERR bad-magic\n"@,
                RelayError::BadRoom => "ERR bad-room\n"@,
            }),
    {
        match self {
            RelayError::BadMagic => "ERR bad-magic\n",
            RelayError::BadRoom => "ERR bad-room\n",
        }
    }
}

/// What a first line asks for: the room, or why it is refused.
pub open spec fn spec_parse_hello(line: Seq<char>) -> Result<Seq<char>, RelayError> {
    let w = spec_words(line);
    if w.len() == 0 || w[0] != "VSR1"@ {
        Err(RelayError::BadMagic)
    } else {
        let room = if w.len() > 1 {
            w[1]
        } else {
            seq![]
        };
        if valid_room(room) {
            Ok(room)
        } else {
            Err(RelayError::BadRoom)
        }
    }
}

fn split_words(line: &str) -> (r: Vec<String>)
    ensures
        strings_view(r@) == spec_words(line@),
{
    let ghost cs = line@;
    let mut words: Vec<String> = Vec::new();
    let mut cur = String::new();
    proof {
        broadcast use vstd::string::axiom_spec_iter;
    }
    for c in it: line.chars()
        invariant
            cs == line@,
            it.seq() == cs,
            (strings_view(words@), cur@) == words_upto(cs, it.index() as nat),
    {
        let ghost w0 = words@;
        if is_whitespace(c) {
            if cur.as_str().unicode_len() > 0 {
                let done = cur;
                words.push(done);
                cur = String::new();
                proof {
                    assert(strings_view(words@) =~= w0.map_values(|s: String| s@).push(done@));
                }
            } else {
                cur = String::new();
            }
        } else {
            string_push(&mut cur, c);
        }
    }
    if cur.as_str().unicode_len() > 0 {
        let ghost w0 = words@;
        let done = cur;
        words.push(done);
        proof {
            assert(strings_view(words@) =~= w0.map_values(|s: String| s@).push(done@));
        }
    }
    words
}

fn is_room_char(c: char) -> (b: bool)
    ensures
        b == room_char(c),
{
    let u = c as u32;
    (0x30 <= u && u <= 0x39) || (0x41 <= u && u <= 0x5A) || (0x61 <= u && u <= 0x7A) || c == '-' || c
        == '_'
}

/// Reads a client's first line: `VSR1 <room>`.
pub fn parse_hello(line: &str) -> (r: Result<String, RelayError>)
    ensures
        match r {
            Ok(room) => spec_parse_hello(line@) == Ok::<Seq<char>, RelayError>(room@),
            Err(e) => spec_parse_hello(line@) == Err::<Seq<char>, RelayError>(e),
        },
{
    let words = split_words(line);
    let ghost wv = strings_view(words@);
    if words.len() == 0 {
        return Err(RelayError::BadMagic);
    }
    let magic = "VSR1".to_owned();
    if words[0] != magic {
        proof {
            assert(wv[0] == words@[0]@);
        }
        return Err(RelayError::BadMagic);
    }
    proof {
        assert(wv[0] == words@[0]@);
    }
    let room = if words.len() > 1 {
        words[1].clone()
    } else {
        String::new()
    };
    proof {
        if words@.len() > 1 {
            assert(wv[1] == words@[1]@);
        }
    }
    let n = room.as_str().unicode_len();
    if n == 0 || n > MAX_ROOM_LEN {
        return Err(RelayError::BadRoom);
    }
    let mut i: usize = 0;
    while i < n
        invariant
            n == room@.len(),
            i <= n,
            forall|j: int| 0 <= j < i ==> room_char(#[trigger] room@[j]),
            wv == spec_words(line@),
            wv.len() > 0 && wv[0] == "VSR1"@,
            room@ == (if wv.len() > 1 {
                wv[1]
            } else {
                seq![]
            }),
        decreases n - i,
    {
        if !is_room_char(room.as_str().get_char(i)) {
            return Err(RelayError::BadRoom);
        }
        i = i + 1;
    }
    Ok(room)
}

/// FNV-1a hash of a room token (the only trace of a room in the logs).
pub fn hash_room(room: &str) -> (h: u64)
    ensures
        h == spec_fnv1a(encode_utf8(room@)),
{
    fnv1a(room.as_bytes())
}

/// A waiting room has been idle longer than its lifetime.
pub open spec fn expired(created_ms: u64, now_ms: u64) -> bool {
    now_ms > created_ms + ROOM_TTL_MS
}

/// What happens to a client that named a room.
#[derive(PartialEq, Eq, Structural, Clone, Copy, Debug)]
pub enum Arrival {
    /// Too many rooms are waiting.
    Busy,
    /// First of its room: it waits.
    Waiting,
    /// Second of its room: it is paired with the waiting client.
    Paired,
}

/// Waiting rooms and when each was opened.
pub struct RoomTable {
    rooms: StrMap<u64>,
}

impl RoomTable {
    /// Room → creation time (ms).
    pub closed spec fn view(&self) -> Map<Seq<char>, u64> {
        self.rooms.view()
    }

    pub closed spec fn wf(&self) -> bool {
        self.rooms.wf()
    }

    pub fn new() -> (t: Self)
        ensures
            t.wf(),
            t.view() == Map::<Seq<char>, u64>::empty(),
    {
        RoomTable { rooms: StrMap::new() }
    }

    /// Drops expired rooms; gives their names.
    fn purge(&mut self, now_ms: u64) -> (gone: Vec<String>)
        requires
            old(self).wf(),
        ensures
            final(self).wf(),
            forall|k: Seq<char>|
                #[trigger] final(self).view().dom().contains(k) <==> (old(self).view().dom().contains(k)
                    && !expired(old(self).view()[k], now_ms)),
            forall|k: Seq<char>| #[trigger]
                final(self).view().dom().contains(k) ==> final(self).view()[k] == old(self).view()[k],
            forall|k: Seq<char>|
                #![trigger strings_view(gone@).contains(k)]
                strings_view(gone@).contains(k) <==> (old(self).view().dom().contains(k)
                    && expired(old(self).view()[k], now_ms)),
    {
        let mut kept: StrMap<u64> = StrMap::new();
        let mut gone: Vec<String> = Vec::new();
        let n = self.rooms.len();
        let mut i: usize = 0;
        while i < n
            invariant
                self.rooms.wf(),
                n == self.rooms.spec_entries().len(),
                i <= n,
                kept.wf(),
                forall|k: Seq<char>|
                    #[trigger] kept.view().dom().contains(k) <==> exists|j: int|
                        0 <= j < i && self.rooms.spec_entries()[j].0@ == k && !expired(
                            self.rooms.spec_entries()[j].1,
                            now_ms,
                        ),
                forall|k: Seq<char>| #[trigger]
                    kept.view().dom().contains(k) ==> kept.view()[k] == self.rooms.view()[k],
                forall|k: Seq<char>|
                    #![trigger strings_view(gone@).contains(k)]
                    strings_view(gone@).contains(k) <==> exists|j: int|
                        0 <= j < i && self.rooms.spec_entries()[j].0@ == k && expired(
                            self.rooms.spec_entries()[j].1,
                            now_ms,
                        ),
            decreases n - i,
        {
            let e = self.rooms.entry_at(i);
            proof {
                self.rooms.lemma_lookup(i as int);
            }
            let ghost g0 = strings_view(gone@);
            let is_old = now_ms > e.1 && now_ms - e.1 > ROOM_TTL_MS;
            if is_old {
                gone.push(e.0.clone());
                proof {
                    assert(strings_view(gone@) =~= g0.push(e.0@));
                }
            } else {
                kept.insert(e.0.clone(), e.1);
            }
            proof {
                assert forall|k: Seq<char>|
                    #[trigger] kept.view().dom().contains(k) <==> exists|j: int|
                        0 <= j < i + 1 && self.rooms.spec_entries()[j].0@ == k && !expired(
                            self.rooms.spec_entries()[j].1,
                            now_ms,
                        ) by {
                    if k == e.0@ && !is_old {
                        assert(self.rooms.spec_entries()[i as int].0@ == k);
                    }
                    if exists|j: int|
                        0 <= j < i + 1 && self.rooms.spec_entries()[j].0@ == k && !expired(
                            self.rooms.spec_entries()[j].1,
                            now_ms,
                        ) {
                        let j = choose|j: int|
                            0 <= j < i + 1 && self.rooms.spec_entries()[j].0@ == k && !expired(
                                self.rooms.spec_entries()[j].1,
                                now_ms,
                            );
                        if j == i && is_old {
                            assert(false);
                        }
                    }
                    if kept.view().dom().contains(k) && k == e.0@ && is_old {
                        let j = choose|j: int|
                            0 <= j < i && self.rooms.spec_entries()[j].0@ == k && !expired(
                                self.rooms.spec_entries()[j].1,
                                now_ms,
                            );
                        self.rooms.lemma_distinct(j, i as int);
                    }
                }
                assert forall|k: Seq<char>|
                    #![trigger strings_view(gone@).contains(k)]
                    strings_view(gone@).contains(k) <==> exists|j: int|
                        0 <= j < i + 1 && self.rooms.spec_entries()[j].0@ == k && expired(
                            self.rooms.spec_entries()[j].1,
                            now_ms,
                        ) by {
                    if is_old {
                        crate::vault::index::lemma_push_contains(g0, e.0@, k);
                        if k == e.0@ {
                            assert(self.rooms.spec_entries()[i as int].0@ == k);
                        }
                    }
                    if exists|j: int|
                        0 <= j < i + 1 && self.rooms.spec_entries()[j].0@ == k && expired(
                            self.rooms.spec_entries()[j].1,
                            now_ms,
                        ) {
                        let j = choose|j: int|
                            0 <= j < i + 1 && self.rooms.spec_entries()[j].0@ == k && expired(
                                self.rooms.spec_entries()[j].1,
                                now_ms,
                            );
                        if j == i && !is_old {
                            assert(false);
                        }
                    }
                    if !is_old && strings_view(gone@).contains(k) && k == e.0@ {
                        let j = choose|j: int|
                            0 <= j < i && self.rooms.spec_entries()[j].0@ == k && expired(
                                self.rooms.spec_entries()[j].1,
                                now_ms,
                            );
                        self.rooms.lemma_distinct(j, i as int);
                    }
                }
            }
            i = i + 1;
        }
        proof {
            assert forall|k: Seq<char>|
                #[trigger] kept.view().dom().contains(k) <==> (self.rooms.view().dom().contains(k) && !expired(
                    self.rooms.view()[k],
                    now_ms,
                )) by {
                if self.rooms.view().dom().contains(k) {
                    let j = self.rooms.index_of(k);
                    self.rooms.lemma_lookup(j);
                }
                if kept.view().dom().contains(k) {
                    let j = choose|j: int|
                        0 <= j < n && self.rooms.spec_entries()[j].0@ == k && !expired(
                            self.rooms.spec_entries()[j].1,
                            now_ms,
                        );
                    self.rooms.lemma_lookup(j);
                }
            }
            assert forall|k: Seq<char>|
                #![trigger strings_view(gone@).contains(k)]
                strings_view(gone@).contains(k) <==> (self.rooms.view().dom().contains(k)
                    && expired(self.rooms.view()[k], now_ms)) by {
                if self.rooms.view().dom().contains(k) {
                    let j = self.rooms.index_of(k);
                    self.rooms.lemma_lookup(j);
                }
                if strings_view(gone@).contains(k) {
                    let j = choose|j: int|
                        0 <= j < n && self.rooms.spec_entries()[j].0@ == k && expired(
                            self.rooms.spec_entries()[j].1,
                            now_ms,
                        );
                    self.rooms.lemma_lookup(j);
                }
            }
        }
        self.rooms = kept;
        gone
    }

    /// A client named `room` at `now_ms`: expired rooms are dropped first (their
    /// names are given back so their waiting clients can be closed); then the
    /// client is refused when the table is full, paired when its room waits,
    /// and otherwise waits itself.
    pub fn arrive(&mut self, room: &str, now_ms: u64) -> (r: (Arrival, Vec<String>))
        requires
            old(self).wf(),
        ensures
            final(self).wf(),
            forall|k: Seq<char>|
                #![trigger strings_view(r.1@).contains(k)]
                strings_view(r.1@).contains(k) <==> (old(self).view().dom().contains(k)
                    && expired(old(self).view()[k], now_ms)),
            ({
                let live = old(self).view().restrict(
                    old(self).view().dom().filter(|k: Seq<char>| !expired(old(self).view()[k], now_ms)),
                );
                if live.dom().len() >= MAX_ROOMS {
                    r.0 == Arrival::Busy && final(self).view() == live
                } else if live.dom().contains(room@) {
                    r.0 == Arrival::Paired && final(self).view() == live.remove(room@)
                } else {
                    r.0 == Arrival::Waiting && final(self).view() == live.insert(room@, now_ms)
                }
            }),
    {
        let ghost old_view = self.view();
        let gone = self.purge(now_ms);
        let ghost live = old_view.restrict(
            old_view.dom().filter(|k: Seq<char>| !expired(old_view[k], now_ms)),
        );
        proof {
            assert(self.view() =~= live);
            self.rooms.lemma_dom_len();
        }
        if self.rooms.len() >= MAX_ROOMS {
            return (Arrival::Busy, gone);
        }
        let key = room.to_owned();
        match self.rooms.get(&key) {
            Some(_) => {
                self.rooms.remove(&key);
                (Arrival::Paired, gone)
            },
            None => {
                self.rooms.insert(key, now_ms);
                (Arrival::Waiting, gone)
            },
        }
    }
}

} // verus!
