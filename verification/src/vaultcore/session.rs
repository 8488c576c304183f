//! Sessions and brute-force protection.
//!
//! Failed unlocks are counted per protection domain, the parent directory of
//! the vault file, so the primary vault and the disguise vault beside it share
//! one counter and their delays cannot be told apart.  From the third failure
//! on, a cooldown of 30 s doubles with every further failure up to 15 min.
//! Time is passed in as milliseconds of a monotonic clock.
use vstd::arithmetic::power2::pow2;
use vstd::prelude::*;

use crate::crypto::KEY_LEN;
use crate::strmap::StrMap;

verus! {

/// An unlocked vault.  The master key never leaves the engine; callers hold
/// the session itself.
pub struct Session {
    pub(crate) mk: [u8; KEY_LEN],
    pub(crate) vault_path: String,
    /// Disguise-space session: may not touch the key material of the vault.
    pub(crate) disguise: bool,
}

impl Session {
    pub closed spec fn spec_mk(&self) -> Seq<u8> {
        self.mk@
    }

    pub closed spec fn spec_path(&self) -> Seq<char> {
        self.vault_path@
    }

    pub closed spec fn spec_disguise(&self) -> bool {
        self.disguise
    }

    pub(crate) fn new(mk: [u8; KEY_LEN], vault_path: String, disguise: bool) -> (s: Session)
        ensures
            s.spec_mk() == mk@,
            s.spec_path() == vault_path@,
            s.spec_disguise() == disguise,
    {
        Session { mk, vault_path, disguise }
    }

    /// The master key, for the engine's own vault and sync layers (it is
    /// never handed across the host boundary).
    pub fn mk(&self) -> (r: &[u8; KEY_LEN])
        ensures
            r@ == self.spec_mk(),
    {
        &self.mk
    }

    pub fn is_disguise(&self) -> (r: bool)
        ensures
            r == self.spec_disguise(),
    {
        self.disguise
    }

    pub fn vault_path(&self) -> (r: &String)
        ensures
            r@ == self.spec_path(),
    {
        &self.vault_path
    }

    /// Whether two sessions hold the same master key.
    pub fn same_master_key(&self, other: &Session) -> (r: bool)
        ensures
            r == (self.spec_mk() == other.spec_mk()),
    {
        crate::crypto::bytes_eq(&self.mk, &other.mk)
    }
}

pub const COOLDOWN_BASE_SECS: u64 = 30;

pub const COOLDOWN_MAX_SECS: u64 = 900;

/// Consecutive failures from which a cooldown applies.
pub const COOLDOWN_THRESHOLD: u32 = 3;

/// Cooldown seconds after the `fails`-th consecutive failure.
pub open spec fn spec_cooldown_secs(fails: u32) -> u64 {
    if fails < COOLDOWN_THRESHOLD {
        0
    } else {
        let e = (fails - COOLDOWN_THRESHOLD) as nat;
        let m = if e > 16 {
            16
        } else {
            e
        };
        let s = COOLDOWN_BASE_SECS * pow2(m);
        if s > COOLDOWN_MAX_SECS {
            COOLDOWN_MAX_SECS
        } else {
            s as u64
        }
    }
}

#[derive(Clone, Copy, Debug, PartialEq, Eq)]
pub struct GuardState {
    pub fails: u32,
    pub locked_until_ms: Option<u64>,
}

/// Verdict before an unlock attempt.
#[derive(Clone, Copy, Debug, PartialEq, Eq)]
pub enum GuardVerdict {
    Allowed,
    /// remaining milliseconds
    Cooldown(u64),
}

/// Directory that holds a vault file (`Path::parent`, empty when there is none).
pub uninterp spec fn spec_parent_dir(path: Seq<char>) -> Seq<char>;

/// Calls `std::path::Path::parent` on the path and converts the parent to a
/// string (empty when the path has no parent).  Claims: the result is a
/// function of the path alone.
#[verifier::external_body]
fn parent_dir(path: &str) -> (r: String)
    ensures
        r@ == spec_parent_dir(path@),
{
    std::path::Path::new(path).parent().map(|p| p.to_string_lossy().into_owned()).unwrap_or_default()
}

/// Protection domain of a vault file.
pub open spec fn guard_key(path: Seq<char>) -> Seq<char> {
    spec_parent_dir(path)
}

/// Failure counters per protection domain.
pub struct GuardTable {
    map: StrMap<GuardState>,
}

impl GuardTable {
    pub closed spec fn view(&self) -> Map<Seq<char>, GuardState> {
        self.map.view()
    }

    pub closed spec fn wf(&self) -> bool {
        self.map.wf()
    }

    pub fn new() -> (t: Self)
        ensures
            t.wf(),
            t.view() == Map::<Seq<char>, GuardState>::empty(),
    {
        GuardTable { map: StrMap::new() }
    }

    /// Current state of a domain (zero failures when unknown).
    fn state_of(&self, key: &String) -> (r: GuardState)
        requires
            self.wf(),
        ensures
            r == spec_state(self.view(), key@),
    {
        match self.map.get(key) {
            Some(st) => *st,
            None => GuardState { fails: 0, locked_until_ms: None },
        }
    }
}

/// State of a domain, zero failures when unknown.
pub open spec fn spec_state(t: Map<Seq<char>, GuardState>, key: Seq<char>) -> GuardState {
    if t.dom().contains(key) {
        t[key]
    } else {
        GuardState { fails: 0, locked_until_ms: None }
    }
}

/// What `guard_check` answers.
pub open spec fn spec_guard_check(t: Map<Seq<char>, GuardState>, path: Seq<char>, now_ms: u64) -> GuardVerdict {
    match spec_state(t, guard_key(path)).locked_until_ms {
        Some(until) => if until > now_ms {
            GuardVerdict::Cooldown((until - now_ms) as u64)
        } else {
            GuardVerdict::Allowed
        },
        None => GuardVerdict::Allowed,
    }
}

/// State of a domain after one more failure at `now_ms`.
pub open spec fn spec_after_fail(st: GuardState, now_ms: u64) -> GuardState {
    let fails = if st.fails == u32::MAX {
        u32::MAX
    } else {
        (st.fails + 1) as u32
    };
    if fails >= COOLDOWN_THRESHOLD {
        let ms = spec_cooldown_secs(fails) * 1000;
        GuardState {
            fails,
            locked_until_ms: Some(
                if now_ms + ms > u64::MAX {
                    u64::MAX
                } else {
                    (now_ms + ms) as u64
                },
            ),
        }
    } else {
        GuardState { fails, locked_until_ms: st.locked_until_ms }
    }
}

fn cooldown_secs(fails: u32) -> (s: u64)
    ensures
        s == spec_cooldown_secs(fails),
        s <= COOLDOWN_MAX_SECS,
{
    if fails < COOLDOWN_THRESHOLD {
        return 0;
    }
    let e = fails - COOLDOWN_THRESHOLD;
    let m: u32 = if e > 16 {
        16
    } else {
        e
    };
    let mut s: u64 = COOLDOWN_BASE_SECS;
    let mut k: u32 = 0;
    proof {
        vstd::arithmetic::power2::lemma2_to64();
    }
    while k < m
        invariant
            k <= m <= 16,
            s == COOLDOWN_BASE_SECS * pow2(k as nat),
        decreases m - k,
    {
        proof {
            vstd::arithmetic::power2::lemma_pow2_unfold((k + 1) as nat);
            vstd::arithmetic::power2::lemma_pow2_strictly_increases(k as nat, 16);
            vstd::arithmetic::power2::lemma2_to64();
        }
        s = s * 2;
        k = k + 1;
    }
    if s > COOLDOWN_MAX_SECS {
        COOLDOWN_MAX_SECS
    } else {
        s
    }
}

/// Pre-check before an unlock attempt: in cooldown, the remaining milliseconds.
pub fn guard_check(table: &GuardTable, vault_path: &str, now_ms: u64) -> (v: GuardVerdict)
    requires
        table.wf(),
    ensures
        v == spec_guard_check(table.view(), vault_path@, now_ms),
{
    let key = parent_dir(vault_path);
    let st = table.state_of(&key);
    match st.locked_until_ms {
        Some(until) => if until > now_ms {
            GuardVerdict::Cooldown(until - now_ms)
        } else {
            GuardVerdict::Allowed
        },
        None => GuardVerdict::Allowed,
    }
}

/// Count a failed unlock; returns the cooldown it starts in milliseconds
/// (0 below the threshold).
pub fn guard_fail(table: &mut GuardTable, vault_path: &str, now_ms: u64) -> (ms: u64)
    requires
        old(table).wf(),
    ensures
        final(table).wf(),
        final(table).view() == old(table).view().insert(
            guard_key(vault_path@),
            spec_after_fail(spec_state(old(table).view(), guard_key(vault_path@)), now_ms),
        ),
        ms == spec_cooldown_secs(
            spec_after_fail(spec_state(old(table).view(), guard_key(vault_path@)), now_ms).fails,
        ) * 1000,
{
    let key = parent_dir(vault_path);
    let st = table.state_of(&key);
    let fails = st.fails.saturating_add(1);
    if fails >= COOLDOWN_THRESHOLD {
        let secs = cooldown_secs(fails);
        let ms = secs * 1000;
        let until = now_ms.saturating_add(ms);
        table.map.insert(key, GuardState { fails, locked_until_ms: Some(until) });
        ms
    } else {
        table.map.insert(key, GuardState { fails, locked_until_ms: st.locked_until_ms });
        0
    }
}

/// Successful unlock: forget the domain's failures and cooldown.
pub fn guard_reset(table: &mut GuardTable, vault_path: &str)
    requires
        old(table).wf(),
    ensures
        final(table).wf(),
        final(table).view() == old(table).view().remove(guard_key(vault_path@)),
{
    let key = parent_dir(vault_path);
    table.map.remove(&key);
}

/// The cooldown grows with every failure and never exceeds 15 minutes: none
/// below three failures, 30 s at the third, doubling after that.
pub proof fn cooldown_schedule(f: u32)
    ensures
        f < COOLDOWN_THRESHOLD ==> spec_cooldown_secs(f) == 0,
        f == COOLDOWN_THRESHOLD ==> spec_cooldown_secs(f) == COOLDOWN_BASE_SECS,
        f == COOLDOWN_THRESHOLD + 1 ==> spec_cooldown_secs(f) == 2 * COOLDOWN_BASE_SECS,
        spec_cooldown_secs(f) <= COOLDOWN_MAX_SECS,
        f >= COOLDOWN_THRESHOLD + 5 ==> spec_cooldown_secs(f) == COOLDOWN_MAX_SECS,
        f < u32::MAX ==> spec_cooldown_secs(f) <= spec_cooldown_secs((f + 1) as u32),
{
    vstd::arithmetic::power2::lemma2_to64();
    if f >= COOLDOWN_THRESHOLD {
        let e = (f - COOLDOWN_THRESHOLD) as nat;
        let m: nat = if e > 16 { 16 } else { e };
        if m > 5 {
            vstd::arithmetic::power2::lemma_pow2_strictly_increases(5, m);
        }
        if f < u32::MAX {
            let m2: nat = if e + 1 > 16 { 16 } else { e + 1 };
            if m < m2 {
                vstd::arithmetic::power2::lemma_pow2_strictly_increases(m, m2);
            }
        }
    }
}

/// A domain's state after failures at the instants `nows`, in order, from
/// state `st`.
pub open spec fn fails_from(st: GuardState, nows: Seq<u64>) -> GuardState
    decreases nows.len(),
{
    if nows.len() == 0 {
        st
    } else {
        spec_after_fail(fails_from(st, nows.drop_last()), nows.last())
    }
}

/// Consecutive failures since the last reset, saturating at `u32::MAX`.
pub open spec fn saturated_count(n: nat) -> u32 {
    if n >= u32::MAX {
        u32::MAX
    } else {
        n as u32
    }
}

/// A domain with no failures since its last reset.
pub open spec fn fresh_guard_state() -> GuardState {
    GuardState { fails: 0, locked_until_ms: None }
}

/// After `n` consecutive failures since a reset (at any instants), the count
/// is `n` (saturating, never overflowing) and the cooldown the last failure
/// reports is the schedule's value for `n`: none below three failures, then
/// 30 s doubling per failure, never above 15 min.  From the third failure on,
/// unless the clock is at its last instant, the domain is in cooldown right
/// afterwards for at most that long.
pub proof fn cooldown_after_repeated_failures(nows: Seq<u64>)
    ensures
        fails_from(fresh_guard_state(), nows).fails == saturated_count(nows.len()),
        ({
            let f = saturated_count(nows.len());
            &&& f < COOLDOWN_THRESHOLD ==> spec_cooldown_secs(f) == 0
            &&& f >= COOLDOWN_THRESHOLD ==> spec_cooldown_secs(f) == if COOLDOWN_BASE_SECS * pow2(
                if f - COOLDOWN_THRESHOLD > 16 { 16 } else { (f - COOLDOWN_THRESHOLD) as nat },
            ) > COOLDOWN_MAX_SECS {
                COOLDOWN_MAX_SECS as int
            } else {
                COOLDOWN_BASE_SECS * pow2(
                    if f - COOLDOWN_THRESHOLD > 16 { 16 } else { (f - COOLDOWN_THRESHOLD) as nat },
                )
            }
            &&& spec_cooldown_secs(f) <= COOLDOWN_MAX_SECS
        }),
        nows.len() >= COOLDOWN_THRESHOLD && nows.last() < u64::MAX ==> {
            let st = fails_from(fresh_guard_state(), nows);
            &&& st.locked_until_ms matches Some(until)
            &&& until > nows.last()
            &&& until - nows.last() <= spec_cooldown_secs(st.fails) * 1000
        },
    decreases nows.len(),
{
    if nows.len() > 0 {
        cooldown_after_repeated_failures(nows.drop_last());
    }
    cooldown_schedule(saturated_count(nows.len()));
    vstd::arithmetic::power2::lemma2_to64();
    if nows.len() >= COOLDOWN_THRESHOLD {
        let f = saturated_count(nows.len());
        let e = (f - COOLDOWN_THRESHOLD) as nat;
        let m: nat = if e > 16 { 16 } else { e };
        vstd::arithmetic::power2::lemma_pow2_pos(m);
    }
}

/// Two vault files in one directory share one protection domain: a failure
/// counted through one is seen through the other.
pub proof fn shared_protection_domain(t: Map<Seq<char>, GuardState>, a: Seq<char>, b: Seq<char>, now_ms: u64)
    requires
        spec_parent_dir(a) == spec_parent_dir(b),
    ensures
        spec_guard_check(t, a, now_ms) == spec_guard_check(t, b, now_ms),
        spec_guard_check(
            t.insert(guard_key(a), spec_after_fail(spec_state(t, guard_key(a)), now_ms)),
            b,
            now_ms,
        ) == spec_guard_check(
            t.insert(guard_key(a), spec_after_fail(spec_state(t, guard_key(a)), now_ms)),
            a,
            now_ms,
        ),
{
}

} // verus!
