//! An ordered, deduplicating, expiring buffer of artifacts that peers have
//! supplied.  Entries are ordered by chain height and then by artifact; an
//! artifact is held once, however often and under whatever height it is
//! offered.

use vstd::prelude::*;
use crate::block::BlockNumber;
use crate::block::PeerInfo;
use crate::order::Order;
use crate::order::Ranked;

verus! {

/// Seconds for which a pooled artifact is kept, counted from its first arrival.
pub const DEFAULT_TTL_SECS: u64 = 60 * 60;

/// What an entry of the pool holds.
pub struct EntryView<E> {
    pub data: E,
    /// Time, in seconds, from which the entry may be evicted.
    pub expiration_time: u64,
    pub block_number: BlockNumber,
    /// The peers that have offered this artifact, in order of first offer.
    pub peers: Seq<PeerInfo>,
}

/// The key `(n1, d1)` is ordered strictly before the key `(n2, d2)`: lower
/// height first, and at one height the artifact that its own order puts first.
pub open spec fn key_before<E: Ranked>(n1: BlockNumber, d1: &E, n2: BlockNumber, d2: &E) -> bool {
    n1 < n2 || (n1 == n2 && d1.le(d2) && !d2.le(d1))
}

/// The entry `e` is ordered strictly before the key `(number, data)`.
pub open spec fn entry_before_key<E: Ranked>(e: EntryView<E>, number: BlockNumber, data: &E) -> bool {
    key_before(e.block_number, &e.data, number, data)
}

/// The entry `e` holds the key `(number, data)`: same height, equivalent artifact.
pub open spec fn entry_has_key<E: Ranked>(e: EntryView<E>, number: BlockNumber, data: &E) -> bool {
    e.block_number == number && e.data.le(data) && data.le(&e.data)
}

/// Entry `a` is ordered strictly before entry `b`: by height, then by artifact.
pub open spec fn entry_before<E: Ranked>(a: EntryView<E>, b: EntryView<E>) -> bool {
    key_before(a.block_number, &a.data, b.block_number, &b.data)
}

/// The entry `e` holds `data`: its artifact is equivalent to `data`,
/// whatever the height under which it was offered.
pub open spec fn entry_holds<E: Ranked>(e: EntryView<E>, data: &E) -> bool {
    e.data.le(data) && data.le(&e.data)
}

/// No artifact is held twice: no two entries hold equivalent artifacts.
pub open spec fn distinct_artifacts<E: Ranked>(s: Seq<EntryView<E>>) -> bool {
    forall|i: int, j: int|
        0 <= i < j < s.len() ==> !entry_holds(#[trigger] s[i], &(#[trigger] s[j]).data)
}

/// Some entry of `s` holds `data`.
pub open spec fn holds_artifact<E: Ranked>(s: Seq<EntryView<E>>, data: &E) -> bool {
    exists|i: int| 0 <= i < s.len() && entry_holds(#[trigger] s[i], data)
}

/// The position of the entry of `s` that holds `data`, where one does.
pub open spec fn place_of<E: Ranked>(s: Seq<EntryView<E>>, data: &E) -> int {
    choose|i: int| 0 <= i < s.len() && entry_holds(#[trigger] s[i], data)
}

/// Entries ascend strictly by height and then by artifact.
pub open spec fn strictly_ascending<E: Ranked>(s: Seq<EntryView<E>>) -> bool {
    forall|i: int, j: int| 0 <= i < j < s.len() ==> entry_before(#[trigger] s[i], #[trigger] s[j])
}

/// Every entry names at least one peer, and none twice.
pub open spec fn peers_recorded<E>(s: Seq<EntryView<E>>) -> bool {
    forall|i: int| 0 <= i < s.len() ==> (#[trigger] s[i]).peers.len() > 0 && s[i].peers.no_duplicates()
}

/// What every pool satisfies: entries in order, each artifact held once,
/// each entry with its peers.
pub open spec fn valid_pool<E: Ranked>(s: Seq<EntryView<E>>) -> bool {
    strictly_ascending(s) && peers_recorded(s) && distinct_artifacts(s)
}

/// `k` is where the key `(number, data)` belongs in `s`: everything below
/// `k` is ordered before the key, nothing from `k` on is.
pub open spec fn is_slot<E: Ranked>(s: Seq<EntryView<E>>, k: int, number: BlockNumber, data: &E) -> bool {
    &&& 0 <= k <= s.len()
    &&& forall|j: int| 0 <= j < k ==> entry_before_key(#[trigger] s[j], number, data)
    &&& forall|j: int| k <= j < s.len() ==> !entry_before_key(#[trigger] s[j], number, data)
}

/// The position in `s` at which the key `(number, data)` belongs.
pub open spec fn slot_of<E: Ranked>(s: Seq<EntryView<E>>, number: BlockNumber, data: &E) -> int {
    choose|k: int| is_slot(s, k, number, data)
}

/// `peers` with `peer` recorded: appended unless already there.
pub open spec fn with_peer(peers: Seq<PeerInfo>, peer: PeerInfo) -> Seq<PeerInfo> {
    if peers.contains(peer) {
        peers
    } else {
        peers.push(peer)
    }
}

/// The pool `s` after `peer` has offered `data` for height `number`, where a
/// fresh entry would expire at `expiry`.
///
/// An artifact that is held, under whatever height, stays where it is,
/// with its height and its expiry, and gains the peer; an artifact that is
/// not held is entered at the place of its key in the order.
pub open spec fn pool_insert<E: Ranked>(
    s: Seq<EntryView<E>>,
    expiry: u64,
    peer: PeerInfo,
    number: BlockNumber,
    data: E,
) -> Seq<EntryView<E>> {
    if holds_artifact(s, &data) {
        let i = place_of(s, &data);
        s.update(
            i,
            EntryView {
                data: s[i].data,
                expiration_time: s[i].expiration_time,
                block_number: s[i].block_number,
                peers: with_peer(s[i].peers, peer),
            },
        )
    } else {
        s.insert(
            slot_of(s, number, &data),
            EntryView { data, expiration_time: expiry, block_number: number, peers: seq![peer] },
        )
    }
}

/// The peers that have offered `data` to `s`, in order of first offer; none
/// if the artifact is not held.
pub open spec fn offered_by<E: Ranked>(s: Seq<EntryView<E>>, data: &E) -> Seq<PeerInfo> {
    if holds_artifact(s, data) {
        s[place_of(s, data)].peers
    } else {
        Seq::empty()
    }
}

/// How many entries a request for `size` takes from `s`.
pub open spec fn take_count<E>(s: Seq<EntryView<E>>, size: usize) -> int {
    if size < s.len() {
        size as int
    } else {
        s.len() as int
    }
}

/// The artifacts of `s`, in order.
pub open spec fn artifacts<E>(s: Seq<EntryView<E>>) -> Seq<E> {
    s.map_values(|e: EntryView<E>| e.data)
}

/// The entries of `s` that are still alive at time `now`.
pub open spec fn alive_at<E>(s: Seq<EntryView<E>>, now: u64) -> Seq<EntryView<E>> {
    s.filter(|e: EntryView<E>| e.expiration_time > now)
}

/// The entries of `s` that have expired by time `now`.
pub open spec fn expired_at<E>(s: Seq<EntryView<E>>, now: u64) -> Seq<EntryView<E>> {
    s.filter(|e: EntryView<E>| e.expiration_time <= now)
}

/// An artifact in the pool, with its expiry and the peers that offered it.
pub struct TTLEntry<E: Ranked> {
    data: E,
    expiration_time: u64,
    block_number: BlockNumber,
    peers: Vec<PeerInfo>,
}

impl<E: Ranked> View for TTLEntry<E> {
    type V = EntryView<E>;

    closed spec fn view(&self) -> EntryView<E> {
        EntryView {
            data: self.data,
            expiration_time: self.expiration_time,
            block_number: self.block_number,
            peers: self.peers@,
        }
    }
}

impl<E: Ranked> TTLEntry<E> {
    /// An entry for an artifact that `peer` offered first, at time `now`.
    pub fn new(now: u64, peer: PeerInfo, block_number: BlockNumber, entry: E) -> (e: Self)
        ensures
            e@ == (EntryView {
                data: entry,
                expiration_time: expiry_from(now),
                block_number,
                peers: seq![peer],
            }),
    {
        let mut peers: Vec<PeerInfo> = Vec::new();
        peers.push(peer);
        let e = TTLEntry {
            data: entry,
            expiration_time: now.saturating_add(DEFAULT_TTL_SECS),
            block_number,
            peers,
        };
        assert(e@.peers =~= seq![peer]);
        e
    }

    /// Time, in seconds, from which the entry may be evicted.
    pub fn expiration_time(&self) -> (t: u64)
        ensures
            t == self@.expiration_time,
    {
        self.expiration_time
    }

    pub fn block_number(&self) -> (n: BlockNumber)
        ensures
            n == self@.block_number,
    {
        self.block_number
    }

    pub fn data(&self) -> (d: &E)
        ensures
            *d == self@.data,
    {
        &self.data
    }

    /// Number of peers that have offered the artifact.
    pub fn peer_count(&self) -> (n: usize)
        ensures
            n == self@.peers.len(),
    {
        self.peers.len()
    }

    /// Whether `peer` has offered the artifact.
    pub fn offered_by(&self, peer: &PeerInfo) -> (r: bool)
        ensures
            r == self@.peers.contains(*peer),
    {
        let mut i: usize = 0;
        while i < self.peers.len()
            invariant
                i <= self.peers@.len(),
                forall|j: int| 0 <= j < i ==> self.peers@[j] != *peer,
            decreases self.peers@.len() - i,
        {
            if self.peers[i].equals(peer) {
                return true;
            }
            i = i + 1;
        }
        false
    }

    /// Orders the entry against the key `(number, data)`: by height first,
    /// then by artifact.
    pub fn compare_key(&self, number: BlockNumber, data: &E) -> (o: Order)
        ensures
            o == Order::Less <==> entry_before_key(self@, number, data),
            o == Order::Equal <==> entry_has_key(self@, number, data),
            o == Order::Greater <==> key_before(number, data, self@.block_number, &self@.data),
    {
        proof {
            E::le_total(&self.data, data);
        }
        if self.block_number < number {
            Order::Less
        } else if self.block_number > number {
            Order::Greater
        } else {
            self.data.compare(data)
        }
    }

    /// Orders two entries: by height first, then by artifact.  Entries that
    /// compare equal hold the same key, whatever their peers and expiry.
    pub fn compare(&self, other: &Self) -> (o: Order)
        ensures
            o == Order::Less <==> entry_before(self@, other@),
            o == Order::Equal <==> entry_has_key(self@, other@.block_number, &other@.data),
            o == Order::Greater <==> entry_before(other@, self@),
    {
        self.compare_key(other.block_number, &other.data)
    }

    /// Records that `peer` has offered the artifact.
    fn add_peer(&mut self, peer: PeerInfo)
        ensures
            final(self)@ == (EntryView {
                data: old(self)@.data,
                expiration_time: old(self)@.expiration_time,
                block_number: old(self)@.block_number,
                peers: with_peer(old(self)@.peers, peer),
            }),
    {
        if !self.offered_by(&peer) {
            self.peers.push(peer);
        }
    }

    fn into_data(self) -> (d: E)
        ensures
            d == self@.data,
    {
        self.data
    }
}

/// The expiry of an entry that first arrives at time `now`.
pub open spec fn expiry_from(now: u64) -> u64 {
    if now + DEFAULT_TTL_SECS > u64::MAX {
        u64::MAX
    } else {
        (now + DEFAULT_TTL_SECS) as u64
    }
}

/// The pool: entries in ascending order of `(block_number, artifact)`.
pub struct TTLPool<E: Ranked> {
    data: Vec<TTLEntry<E>>,
}

impl<E: Ranked> View for TTLPool<E> {
    type V = Seq<EntryView<E>>;

    closed spec fn view(&self) -> Seq<EntryView<E>> {
        self.data@.map_values(|e: TTLEntry<E>| e@)
    }
}

impl<E: Ranked> TTLPool<E> {
    /// The pool's invariant: entries in strictly ascending order, no artifact
    /// held twice, peers recorded once.
    pub open spec fn wf(&self) -> bool {
        valid_pool(self@)
    }

    pub fn new() -> (pool: Self)
        ensures
            pool@ == Seq::<EntryView<E>>::empty(),
            pool.wf(),
    {
        let pool = TTLPool { data: Vec::new() };
        assert(pool@ =~= Seq::<EntryView<E>>::empty());
        pool
    }

    /// Number of entries held.
    pub fn size(&self) -> (n: usize)
        ensures
            n == self@.len(),
    {
        self.data.len()
    }

    /// Adds an artifact that `peer` offered at time `now`, in seconds.
    ///
    /// If the artifact is already held, under this height or another, the
    /// entry keeps its artifact, height, place and expiry and gains `peer`.
    /// Otherwise a new entry is made, which expires `DEFAULT_TTL_SECS` after
    /// `now`.
    pub fn insert_at(&mut self, now: u64, peer: PeerInfo, number: BlockNumber, entry: E)
        requires
            old(self).wf(),
        ensures
            final(self).wf(),
            final(self)@ == pool_insert(old(self)@, expiry_from(now), peer, number, entry),
    {
        let ghost s = self@;
        let ghost t = pool_insert(s, expiry_from(now), peer, number, entry);
        match self.find_artifact(&entry) {
            Some(i) => {
                proof {
                    lemma_place_unique(s, i as int, &entry);
                }
                let mut e = self.data.remove(i);
                e.add_peer(peer);
                self.data.insert(i, e);
                proof {
                    assert(self@ =~= t);
                    lemma_with_peer_recorded(s[i as int].peers, peer);
                    lemma_update_keeps_pool(s, i as int, t[i as int]);
                }
            },
            None => {
                let k = self.find_slot(number, &entry);
                proof {
                    lemma_slot_unique(s, k as int, number, &entry);
                }
                let e = TTLEntry::new(now, peer, number, entry);
                self.data.insert(k, e);
                proof {
                    assert(self@ =~= t);
                    lemma_insert_keeps_pool(s, k as int, t[k as int]);
                }
            },
        }
    }

    /// Adds an artifact that `peer` offers now.
    ///
    /// The arrival time is the system clock's, so the expiry of a new entry
    /// is whatever that clock gave; everything else is as in `insert_at`.
    pub fn insert(&mut self, peer: PeerInfo, number: BlockNumber, entry: E)
        requires
            old(self).wf(),
        ensures
            final(self).wf(),
            exists|now: u64|
                final(self)@ == #[trigger] pool_insert(
                    old(self)@,
                    expiry_from(now),
                    peer,
                    number,
                    entry,
                ),
    {
        let now = unix_time_secs();
        self.insert_at(now, peer, number, entry);
    }

    /// Removes and returns the `size` lowest-ordered artifacts, in ascending
    /// order, or all of them if the pool holds fewer.
    pub fn take(&mut self, size: usize) -> (taken: Vec<E>)
        requires
            old(self).wf(),
        ensures
            final(self).wf(),
            taken@ == artifacts(old(self)@.take(take_count(old(self)@, size))),
            final(self)@ == old(self)@.skip(take_count(old(self)@, size)),
    {
        let ghost s = self@;
        let len = self.data.len();
        let m = if size < len { size } else { len };
        let mut taken: Vec<E> = Vec::new();
        let mut i: usize = 0;
        assert(self@ =~= s.skip(0));
        assert(taken@ =~= artifacts(s.take(0)));
        while i < m
            invariant
                i <= m <= s.len(),
                self@ == s.skip(i as int),
                taken@ == artifacts(s.take(i as int)),
            decreases m - i,
        {
            assert(self@.len() == self.data@.len());
            assert(self@[0] == s[i as int]);
            let ghost held = self.data@;
            let e = self.data.remove(0);
            assert(e@ == s[i as int]);
            taken.push(e.into_data());
            assert forall|j: int| 0 <= j < self@.len() implies self@[j] == s.skip(i + 1)[j] by {
                assert(self.data@[j] == held[j + 1]);
                assert(s.skip(i as int)[j + 1] == held[j + 1]@);
            }
            assert(self@ =~= s.skip(i + 1));
            assert(taken@ =~= artifacts(s.take(i + 1)));
            i = i + 1;
        }
        proof {
            lemma_skip_valid(s, m as int);
        }
        taken
    }

    /// Evicts every entry whose expiry is at or before `now`, in seconds, and
    /// returns the evicted artifacts in ascending order.
    pub fn gc(&mut self, now: u64) -> (evicted: Vec<E>)
        requires
            old(self).wf(),
        ensures
            final(self).wf(),
            final(self)@ == alive_at(old(self)@, now),
            evicted@ == artifacts(expired_at(old(self)@, now)),
    {
        let ghost s = self@;
        let ghost alive = |e: EntryView<E>| e.expiration_time > now;
        let ghost expired = |e: EntryView<E>| e.expiration_time <= now;
        let len = self.data.len();
        let mut kept: Vec<TTLEntry<E>> = Vec::new();
        let mut evicted: Vec<E> = Vec::new();
        let mut i: usize = 0;
        proof {
            assert(self@ =~= s.skip(0));
            assert(s.take(0) =~= Seq::<EntryView<E>>::empty());
            reveal(Seq::filter);
            assert(s.take(0).filter(alive) =~= Seq::<EntryView<E>>::empty());
            assert(s.take(0).filter(expired) =~= Seq::<EntryView<E>>::empty());
            assert(kept@.map_values(|e: TTLEntry<E>| e@) =~= s.take(0).filter(alive));
            assert(evicted@ =~= artifacts(s.take(0).filter(expired)));
        }
        while i < len
            invariant
                i <= len == s.len(),
                valid_pool(s),
                alive == |e: EntryView<E>| e.expiration_time > now,
                expired == |e: EntryView<E>| e.expiration_time <= now,
                self@ == s.skip(i as int),
                kept@.map_values(|e: TTLEntry<E>| e@) == s.take(i as int).filter(alive),
                evicted@ == artifacts(s.take(i as int).filter(expired)),
                valid_pool(kept@.map_values(|e: TTLEntry<E>| e@)),
                forall|j: int, r: int|
                    0 <= j < kept@.len() && i <= r < s.len() ==> entry_before(
                        #[trigger] kept@[j]@,
                        #[trigger] s[r],
                    ) && !entry_holds(kept@[j]@, &s[r].data),
            decreases len - i,
        {
            let ghost kept_before = kept@.map_values(|e: TTLEntry<E>| e@);
            assert(self@.len() == self.data@.len());
            assert(self@[0] == s[i as int]);
            let ghost held = self.data@;
            let e = self.data.remove(0);
            proof {
                assert(e@ == s[i as int]);
                assert forall|j: int| 0 <= j < self@.len() implies self@[j] == s.skip(i + 1)[j] by {
                    assert(self.data@[j] == held[j + 1]);
                    assert(s.skip(i as int)[j + 1] == held[j + 1]@);
                }
                assert(self@ =~= s.skip(i + 1));
                assert(s.take(i + 1) =~= s.take(i as int).push(s[i as int]));
                s.take(i as int).lemma_filter_push(s[i as int], alive);
                s.take(i as int).lemma_filter_push(s[i as int], expired);
            }
            if e.expiration_time <= now {
                evicted.push(e.into_data());
                assert(evicted@ =~= artifacts(s.take(i + 1).filter(expired)));
            } else {
                kept.push(e);
                proof {
                    let kv = kept@.map_values(|e: TTLEntry<E>| e@);
                    assert(kv =~= kept_before.push(s[i as int]));
                    assert forall|a: int, b: int| 0 <= a < b < kv.len() implies entry_before(
                        #[trigger] kv[a],
                        #[trigger] kv[b],
                    ) by {
                        if b < kept_before.len() {
                            assert(entry_before(kept_before[a], kept_before[b]));
                        } else {
                            assert(entry_before(kept@[a]@, s[i as int]));
                        }
                    }
                    assert forall|a: int| 0 <= a < kv.len() implies (#[trigger] kv[a]).peers.len()
                        > 0 && kv[a].peers.no_duplicates() by {
                        if a < kept_before.len() {
                            assert(kept_before[a].peers.len() > 0);
                        } else {
                            assert(s[i as int].peers.len() > 0);
                        }
                    }
                    assert forall|a: int, b: int| 0 <= a < b < kv.len() implies !entry_holds(
                        #[trigger] kv[a],
                        &(#[trigger] kv[b]).data,
                    ) by {
                        if b < kept_before.len() {
                            assert(!entry_holds(kept_before[a], &kept_before[b].data));
                        } else {
                            assert(!entry_holds(kept@[a]@, &s[i as int].data));
                        }
                    }
                    assert forall|j: int, r: int|
                        0 <= j < kept@.len() && i + 1 <= r < s.len() implies entry_before(
                        #[trigger] kept@[j]@,
                        #[trigger] s[r],
                    ) && !entry_holds(kept@[j]@, &s[r].data) by {
                        if j == kept@.len() - 1 {
                            assert(entry_before(s[i as int], s[r]));
                            assert(!entry_holds(s[i as int], &s[r].data));
                        }
                    }
                }
            }
            i = i + 1;
        }
        proof {
            assert(s.take(len as int) =~= s);
        }
        self.data = kept;
        evicted
    }

    /// The peers that have offered the artifact `entry`, in order of first
    /// offer; none if the pool does not hold it.
    pub fn peers_of(&self, entry: &E) -> (peers: Vec<PeerInfo>)
        requires
            self.wf(),
        ensures
            peers@ == offered_by(self@, entry),
    {
        let mut peers: Vec<PeerInfo> = Vec::new();
        match self.find_artifact(entry) {
            Some(k) => {
                proof {
                    lemma_place_unique(self@, k as int, entry);
                }
                let held = &self.data[k].peers;
                let mut i: usize = 0;
                while i < held.len()
                    invariant
                        i <= held@.len(),
                        peers@ == held@.take(i as int),
                    decreases held@.len() - i,
                {
                    peers.push(held[i]);
                    assert(held@.take(i + 1) == held@.take(i as int).push(held@[i as int]));
                    i = i + 1;
                }
                assert(held@.take(held@.len() as int) == held@);
            },
            None => {},
        }
        peers
    }

    /// Finds the entry that holds an artifact equivalent to `entry`, at
    /// whatever height.
    fn find_artifact(&self, entry: &E) -> (at: Option<usize>)
        requires
            self.wf(),
        ensures
            match at {
                Some(i) => i < self@.len() && entry_holds(self@[i as int], entry),
                None => !holds_artifact(self@, entry),
            },
    {
        let mut i: usize = 0;
        while i < self.data.len()
            invariant
                i <= self.data@.len(),
                forall|j: int| 0 <= j < i ==> !entry_holds(#[trigger] self@[j], entry),
            decreases self.data@.len() - i,
        {
            assert(self@[i as int] == self.data@[i as int]@);
            if self.data[i].data.compare(entry) == Order::Equal {
                return Some(i);
            }
            i = i + 1;
        }
        None
    }

    /// Finds where the key `(number, entry)` belongs in the order.
    fn find_slot(&self, number: BlockNumber, entry: &E) -> (k: usize)
        requires
            self.wf(),
        ensures
            is_slot(self@, k as int, number, entry),
    {
        let mut i: usize = 0;
        while i < self.data.len()
            invariant
                i <= self.data@.len(),
                self.wf(),
                forall|j: int| 0 <= j < i ==> entry_before_key(#[trigger] self@[j], number, entry),
            decreases self.data@.len() - i,
        {
            let before = self.data[i].compare_key(number, entry) == Order::Less;
            assert(self@[i as int] == self.data@[i as int]@);
            if !before {
                proof {
                    let s = self@;
                    assert forall|j: int| i <= j < s.len() implies !entry_before_key(
                        #[trigger] s[j],
                        number,
                        entry,
                    ) by {
                        if j > i && entry_before_key(s[j], number, entry) {
                            assert(entry_before(s[i as int], s[j]));
                            lemma_key_before_transitive(
                                s[i as int].block_number,
                                &s[i as int].data,
                                s[j].block_number,
                                &s[j].data,
                                number,
                                entry,
                            );
                        }
                    }
                }
                return i;
            }
            i = i + 1;
        }
        i
    }
}

/// Seconds since the Unix epoch, from `std::time::SystemTime::elapsed` on
/// `UNIX_EPOCH`.
///
/// Nothing is claimed of the value: a clock may read anything, and one set
/// before the epoch reads as zero.
#[verifier::external_body]
pub(crate) fn unix_time_secs() -> u64 {
    match std::time::UNIX_EPOCH.elapsed() {
        Ok(elapsed) => elapsed.as_secs(),
        Err(_) => 0,
    }
}

/// Recording a peer keeps a peer list non-empty and free of repeats.
pub proof fn lemma_with_peer_recorded(peers: Seq<PeerInfo>, peer: PeerInfo)
    requires
        peers.no_duplicates(),
    ensures
        with_peer(peers, peer).no_duplicates(),
        with_peer(peers, peer).len() > 0,
        with_peer(peers, peer).contains(peer),
{
    let t = with_peer(peers, peer);
    if peers.contains(peer) {
        let i = choose|i: int| 0 <= i < peers.len() && peers[i] == peer;
        assert(peers[i] == peer);
    } else {
        assert(t[peers.len() as int] == peer);
        assert forall|i: int, j: int| 0 <= i < t.len() && 0 <= j < t.len() && i != j implies t[i]
            != t[j] by {
            if i < peers.len() && j < peers.len() {
            } else if i < peers.len() {
                assert(peers.contains(peers[i]));
            } else {
                assert(peers.contains(peers[j]));
            }
        }
    }
}

/// Entering a new key at its slot keeps a pool strictly ascending.
pub proof fn lemma_insert_keeps_order<E: Ranked>(s: Seq<EntryView<E>>, k: int, e: EntryView<E>)
    requires
        strictly_ascending(s),
        is_slot(s, k, e.block_number, &e.data),
        k < s.len() ==> !entry_has_key(s[k], e.block_number, &e.data),
    ensures
        strictly_ascending(s.insert(k, e)),
{
    let t = s.insert(k, e);
    assert forall|j: int| k <= j < s.len() implies entry_before(e, #[trigger] s[j]) by {
        assert(!entry_before_key(s[k], e.block_number, &e.data));
        E::le_total(&e.data, &s[k].data);
        assert(entry_before(e, s[k]));
        if j > k {
            assert(entry_before(s[k], s[j]));
            lemma_key_before_transitive(
                e.block_number,
                &e.data,
                s[k].block_number,
                &s[k].data,
                s[j].block_number,
                &s[j].data,
            );
        }
    }
    assert forall|i: int, j: int| 0 <= i < j < t.len() implies entry_before(
        #[trigger] t[i],
        #[trigger] t[j],
    ) by {
        if j < k {
            assert(entry_before(s[i], s[j]));
        } else if j == k {
            assert(entry_before_key(s[i], e.block_number, &e.data));
        } else if i < k {
            assert(entry_before(s[i], s[j - 1]));
        } else if i == k {
            assert(entry_before(e, s[j - 1]));
        } else {
            assert(entry_before(s[i - 1], s[j - 1]));
        }
    }
}

/// What is left of a pool after its first `m` entries is a pool.
pub proof fn lemma_skip_valid<E: Ranked>(s: Seq<EntryView<E>>, m: int)
    requires
        valid_pool(s),
        0 <= m <= s.len(),
    ensures
        valid_pool(s.skip(m)),
{
    let t = s.skip(m);
    assert forall|i: int, j: int| 0 <= i < j < t.len() implies entry_before(
        #[trigger] t[i],
        #[trigger] t[j],
    ) by {
        assert(entry_before(s[i + m], s[j + m]));
    }
    assert forall|i: int| 0 <= i < t.len() implies (#[trigger] t[i]).peers.len() > 0
        && t[i].peers.no_duplicates() by {
        assert(s[i + m].peers.len() > 0);
    }
    assert forall|i: int, j: int| 0 <= i < j < t.len() implies !entry_holds(
        #[trigger] t[i],
        &(#[trigger] t[j]).data,
    ) by {
        assert(!entry_holds(s[i + m], &s[j + m].data));
    }
}

/// An artifact is held at one place: an entry that holds it is the entry
/// that `place_of` names.
pub proof fn lemma_place_unique<E: Ranked>(s: Seq<EntryView<E>>, i: int, data: &E)
    requires
        distinct_artifacts(s),
        0 <= i < s.len(),
        entry_holds(s[i], data),
    ensures
        holds_artifact(s, data),
        place_of(s, data) == i,
{
    let c = place_of(s, data);
    assert(entry_holds(s[c], data));
    if c < i {
        E::le_transitive(&s[c].data, data, &s[i].data);
        E::le_transitive(&s[i].data, data, &s[c].data);
        assert(!entry_holds(s[c], &s[i].data));
    } else if i < c {
        E::le_transitive(&s[c].data, data, &s[i].data);
        E::le_transitive(&s[i].data, data, &s[c].data);
        assert(!entry_holds(s[i], &s[c].data));
    }
}

/// Recording a peer in an entry leaves a pool a pool: the entry `e` that
/// replaces the one at `i` differs from it in its peers alone.
pub proof fn lemma_update_keeps_pool<E: Ranked>(s: Seq<EntryView<E>>, i: int, e: EntryView<E>)
    requires
        valid_pool(s),
        0 <= i < s.len(),
        e.data == s[i].data,
        e.block_number == s[i].block_number,
        e.peers.len() > 0,
        e.peers.no_duplicates(),
    ensures
        valid_pool(s.update(i, e)),
{
    let t = s.update(i, e);
    assert forall|a: int, b: int| 0 <= a < b < t.len() implies entry_before(
        #[trigger] t[a],
        #[trigger] t[b],
    ) && !entry_holds(t[a], &t[b].data) by {
        assert(entry_before(s[a], s[b]));
        assert(!entry_holds(s[a], &s[b].data));
    }
    assert forall|a: int| 0 <= a < t.len() implies (#[trigger] t[a]).peers.len() > 0
        && t[a].peers.no_duplicates() by {
        assert(s[a].peers.len() > 0);
    }
}

/// Entering an artifact that is not held, at the slot of its key, leaves a
/// pool a pool.
pub proof fn lemma_insert_keeps_pool<E: Ranked>(s: Seq<EntryView<E>>, k: int, e: EntryView<E>)
    requires
        valid_pool(s),
        is_slot(s, k, e.block_number, &e.data),
        !holds_artifact(s, &e.data),
        e.peers.len() > 0,
        e.peers.no_duplicates(),
    ensures
        valid_pool(s.insert(k, e)),
{
    let t = s.insert(k, e);
    if k < s.len() {
        assert(!entry_holds(s[k], &e.data));
    }
    lemma_insert_keeps_order(s, k, e);
    assert forall|a: int| 0 <= a < t.len() implies (#[trigger] t[a]).peers.len() > 0
        && t[a].peers.no_duplicates() by {
        if a < k {
            assert(s[a].peers.len() > 0);
        } else if a > k {
            assert(s[a - 1].peers.len() > 0);
        }
    }
    assert forall|a: int, b: int| 0 <= a < b < t.len() implies !entry_holds(
        #[trigger] t[a],
        &(#[trigger] t[b]).data,
    ) by {
        let a0 = if a < k { a } else { a - 1 };
        let b0 = if b < k { b } else { b - 1 };
        if a == k {
            assert(!entry_holds(s[b0], &e.data));
        } else if b == k {
            assert(!entry_holds(s[a0], &e.data));
        } else {
            assert(!entry_holds(s[a0], &s[b0].data));
        }
    }
}

/// The order on keys is transitive.
pub proof fn lemma_key_before_transitive<E: Ranked>(
    n1: BlockNumber,
    d1: &E,
    n2: BlockNumber,
    d2: &E,
    n3: BlockNumber,
    d3: &E,
)
    requires
        key_before(n1, d1, n2, d2),
        key_before(n2, d2, n3, d3),
    ensures
        key_before(n1, d1, n3, d3),
{
    if n1 == n2 && n2 == n3 {
        E::le_transitive(d1, d2, d3);
        if d3.le(d1) {
            E::le_transitive(d3, d1, d2);
        }
    }
}

/// A key has one slot in a pool.
pub proof fn lemma_slot_unique<E: Ranked>(s: Seq<EntryView<E>>, k: int, number: BlockNumber, data: &E)
    requires
        is_slot(s, k, number, data),
    ensures
        slot_of(s, number, data) == k,
{
    let c = slot_of(s, number, data);
    assert(is_slot(s, c, number, data));
    if c < k {
        assert(entry_before_key(s[c], number, data));
    } else if k < c {
        assert(entry_before_key(s[k], number, data));
    }
}

} // verus!
