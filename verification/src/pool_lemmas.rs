//! What holds of every pool: statements about `pool_insert`, taking and
//! eviction that callers of the pool may rely on.

use vstd::prelude::*;
use crate::block::BlockNumber;
use crate::block::PeerInfo;
use crate::order::Ranked;
use crate::pool::EntryView;
use crate::pool::DEFAULT_TTL_SECS;
use crate::pool::alive_at;
use crate::pool::entry_before;
use crate::pool::entry_before_key;
use crate::pool::entry_holds;
use crate::pool::holds_artifact;
use crate::pool::lemma_insert_keeps_pool;
use crate::pool::lemma_place_unique;
use crate::pool::lemma_update_keeps_pool;
use crate::pool::place_of;
use crate::pool::expiry_from;
use crate::pool::is_slot;
use crate::pool::lemma_key_before_transitive;
use crate::pool::lemma_slot_unique;
use crate::pool::lemma_with_peer_recorded;
use crate::pool::offered_by;
use crate::pool::pool_insert;
use crate::pool::slot_of;
use crate::pool::strictly_ascending;
use crate::pool::take_count;
use crate::pool::valid_pool;

verus! {

/// Every key has a slot in an ascending pool.
pub proof fn lemma_slot_exists<E: Ranked>(s: Seq<EntryView<E>>, number: BlockNumber, data: &E)
    requires
        strictly_ascending(s),
    ensures
        is_slot(s, slot_of(s, number, data), number, data),
    decreases s.len(),
{
    if s.len() == 0 {
        assert(is_slot(s, 0, number, data));
    } else {
        let p = s.drop_last();
        assert forall|i: int, j: int| 0 <= i < j < p.len() implies entry_before(
            #[trigger] p[i],
            #[trigger] p[j],
        ) by {
            assert(entry_before(s[i], s[j]));
        }
        lemma_slot_exists(p, number, data);
        let k = slot_of(p, number, data);
        let last = s.last();
        if k < p.len() {
            assert(!entry_before_key(p[k], number, data));
            if entry_before_key(last, number, data) {
                assert(entry_before(s[k], s[s.len() - 1]));
                lemma_key_before_transitive(
                    p[k].block_number,
                    &p[k].data,
                    last.block_number,
                    &last.data,
                    number,
                    data,
                );
            }
            assert forall|j: int| 0 <= j < k implies entry_before_key(
                #[trigger] s[j],
                number,
                data,
            ) by {
                assert(entry_before_key(p[j], number, data));
            }
            assert forall|j: int| k <= j < s.len() implies !entry_before_key(
                #[trigger] s[j],
                number,
                data,
            ) by {
                if j < p.len() {
                    assert(!entry_before_key(p[j], number, data));
                }
            }
            assert(is_slot(s, k, number, data));
        } else {
            assert forall|j: int| 0 <= j < p.len() implies entry_before_key(
                #[trigger] s[j],
                number,
                data,
            ) by {
                assert(entry_before_key(p[j], number, data));
            }
            if entry_before_key(last, number, data) {
                assert(is_slot(s, s.len() as int, number, data));
            } else {
                assert(is_slot(s, p.len() as int, number, data));
            }
        }
    }
}

/// Inserting into a pool gives a pool.
pub proof fn lemma_insert_valid<E: Ranked>(
    s: Seq<EntryView<E>>,
    expiry: u64,
    peer: PeerInfo,
    number: BlockNumber,
    data: E,
)
    requires
        valid_pool(s),
    ensures
        valid_pool(pool_insert(s, expiry, peer, number, data)),
{
    let t = pool_insert(s, expiry, peer, number, data);
    if holds_artifact(s, &data) {
        let i = place_of(s, &data);
        lemma_with_peer_recorded(s[i].peers, peer);
        lemma_update_keeps_pool(s, i, t[i]);
    } else {
        lemma_slot_exists(s, number, &data);
        let k = slot_of(s, number, &data);
        assert(t[k].peers =~= seq![peer]);
        lemma_insert_keeps_pool(s, k, t[k]);
    }
}

/// Where an artifact is found once it has been offered for height `number`:
/// where it was, if it was held; at the slot of its key, if not.
pub open spec fn place_after_offer<E: Ranked>(
    s: Seq<EntryView<E>>,
    number: BlockNumber,
    data: &E,
) -> int {
    if holds_artifact(s, data) {
        place_of(s, data)
    } else {
        slot_of(s, number, data)
    }
}

/// After an insert the artifact is held, at one place, and `peer` is among
/// the peers recorded for it.
pub proof fn lemma_insert_holds_artifact<E: Ranked>(
    s: Seq<EntryView<E>>,
    expiry: u64,
    peer: PeerInfo,
    number: BlockNumber,
    data: E,
)
    requires
        valid_pool(s),
    ensures
        ({
            let t = pool_insert(s, expiry, peer, number, data);
            let i = place_after_offer(s, number, &data);
            &&& 0 <= i < t.len()
            &&& holds_artifact(t, &data)
            &&& place_of(t, &data) == i
            &&& t[i].peers.contains(peer)
            &&& offered_by(t, &data) == t[i].peers
        }),
{
    lemma_insert_valid(s, expiry, peer, number, data);
    let t = pool_insert(s, expiry, peer, number, data);
    let i = place_after_offer(s, number, &data);
    if holds_artifact(s, &data) {
        lemma_with_peer_recorded(s[i].peers, peer);
    } else {
        lemma_slot_exists(s, number, &data);
        E::le_reflexive(&data);
        assert(t[i].peers[0] == peer);
    }
    lemma_place_unique(t, i, &data);
}

/// Deduplication: when a second peer offers an artifact that is held, under
/// whatever height, the offer adds no entry.  The entry keeps the artifact,
/// the height and the expiry of the first offer and names both peers; in a
/// pool that was empty it is the only entry and names exactly the two.
pub proof fn lemma_second_offer_merges<E: Ranked>(
    s: Seq<EntryView<E>>,
    first_expiry: u64,
    second_expiry: u64,
    p1: PeerInfo,
    p2: PeerInfo,
    first_number: BlockNumber,
    second_number: BlockNumber,
    first: E,
    second: E,
)
    requires
        valid_pool(s),
        p1 != p2,
        first.le(&second),
        second.le(&first),
    ensures
        ({
            let t1 = pool_insert(s, first_expiry, p1, first_number, first);
            let t2 = pool_insert(t1, second_expiry, p2, second_number, second);
            let i = place_after_offer(s, first_number, &first);
            &&& t2.len() == t1.len()
            &&& 0 <= i < t2.len()
            &&& t2[i].data == t1[i].data
            &&& t2[i].block_number == t1[i].block_number
            &&& t2[i].expiration_time == t1[i].expiration_time
            &&& t2[i].peers.contains(p1)
            &&& t2[i].peers.contains(p2)
            &&& t2[i].peers.no_duplicates()
            &&& forall|j: int| 0 <= j < t2.len() && j != i ==> t2[j] == t1[j]
            &&& offered_by(t2, &first) == t2[i].peers
            &&& s.len() == 0 ==> t2.len() == 1 && t2[0].peers == seq![p1, p2] && t2[0].block_number
                == first_number && t2[0].expiration_time == first_expiry
        }),
{
    let t1 = pool_insert(s, first_expiry, p1, first_number, first);
    let t2 = pool_insert(t1, second_expiry, p2, second_number, second);
    let i = place_after_offer(s, first_number, &first);
    lemma_insert_holds_artifact(s, first_expiry, p1, first_number, first);
    lemma_insert_valid(s, first_expiry, p1, first_number, first);
    assert(entry_holds(t1[i], &first));
    assert(entry_holds(t1[i], &second)) by {
        E::le_transitive(&t1[i].data, &first, &second);
        E::le_transitive(&second, &first, &t1[i].data);
    }
    lemma_place_unique(t1, i, &second);
    lemma_with_peer_recorded(t1[i].peers, p2);
    let i1 = choose|j: int| 0 <= j < t1[i].peers.len() && t1[i].peers[j] == p1;
    assert(t2[i].peers[i1] == p1);
    lemma_insert_valid(t1, second_expiry, p2, second_number, second);
    assert(entry_holds(t2[i], &first));
    lemma_place_unique(t2, i, &first);
    if s.len() == 0 {
        assert(!holds_artifact(s, &first));
        lemma_slot_exists(s, first_number, &first);
        assert(i == 0);
        assert(t1[0].peers =~= seq![p1]);
        assert(!t1[0].peers.contains(p2));
        assert(t2[0].peers =~= seq![p1, p2]);
    }
}

/// Ordering: what `take` hands out ascends strictly by height and then by
/// artifact, and everything it leaves behind is ordered after all of it.
pub proof fn lemma_take_is_ascending<E: Ranked>(s: Seq<EntryView<E>>, size: usize)
    requires
        valid_pool(s),
    ensures
        ({
            let c = take_count(s, size);
            let taken = s.take(c);
            let left = s.skip(c);
            &&& forall|i: int, j: int|
                0 <= i < j < c ==> (#[trigger] taken[i]).block_number <= (
                #[trigger] taken[j]).block_number
            &&& forall|i: int, j: int|
                0 <= i < j < c ==> entry_before(#[trigger] taken[i], #[trigger] taken[j])
            &&& forall|i: int, j: int|
                0 <= i < c && 0 <= j < left.len() ==> entry_before(
                    #[trigger] taken[i],
                    #[trigger] left[j],
                )
        }),
{
    let c = take_count(s, size);
    let taken = s.take(c);
    let left = s.skip(c);
    assert forall|i: int, j: int| 0 <= i < j < c implies entry_before(
        #[trigger] taken[i],
        #[trigger] taken[j],
    ) && taken[i].block_number <= taken[j].block_number by {
        assert(entry_before(s[i], s[j]));
    }
    assert forall|i: int, j: int| 0 <= i < c && 0 <= j < left.len() implies entry_before(
        #[trigger] taken[i],
        #[trigger] left[j],
    ) by {
        assert(entry_before(s[i], s[j + c]));
    }
}

/// The order of entries is strict: of two entries, at most one comes before
/// the other, and none before itself.
pub proof fn lemma_entry_order_is_strict<E: Ranked>(a: EntryView<E>, b: EntryView<E>)
    ensures
        !(entry_before(a, b) && entry_before(b, a)),
        !entry_before(a, a),
{
}

/// Determinism: an ascending pool is determined by the entries that it
/// holds.  Two ascending pools with the same entries are the same sequence.
pub proof fn lemma_same_entries_same_pool<E: Ranked>(a: Seq<EntryView<E>>, b: Seq<EntryView<E>>)
    requires
        strictly_ascending(a),
        strictly_ascending(b),
        forall|x: EntryView<E>| a.contains(x) <==> b.contains(x),
    ensures
        a == b,
    decreases a.len(),
{
    if a.len() == 0 {
        if b.len() > 0 {
            assert(b.contains(b[0]));
        }
        assert(a =~= b);
    } else {
        let n = a.len() as int;
        assert(a.contains(a[n - 1]));
        assert(b.contains(a[n - 1]));
        let m = b.len() as int;
        let j = choose|j: int| 0 <= j < b.len() && b[j] == a[n - 1];
        assert(b.contains(b[m - 1]));
        assert(a.contains(b[m - 1]));
        let i = choose|i: int| 0 <= i < a.len() && a[i] == b[m - 1];
        if j < m - 1 {
            assert(entry_before(b[j], b[m - 1]));
            if i < n - 1 {
                assert(entry_before(a[i], a[n - 1]));
            }
            lemma_entry_order_is_strict(b[j], b[m - 1]);
        }
        assert(j == m - 1);
        let a0 = a.drop_last();
        let b0 = b.drop_last();
        assert forall|x: EntryView<E>| a0.contains(x) <==> b0.contains(x) by {
            if a0.contains(x) {
                let p = choose|p: int| 0 <= p < a0.len() && a0[p] == x;
                assert(a[p] == x);
                assert(entry_before(a[p], a[n - 1]));
                lemma_entry_order_is_strict(a[n - 1], a[n - 1]);
                assert(a.contains(x));
                let q = choose|q: int| 0 <= q < b.len() && b[q] == x;
                assert(q != m - 1);
                assert(b0[q] == x);
            }
            if b0.contains(x) {
                let q = choose|q: int| 0 <= q < b0.len() && b0[q] == x;
                assert(b[q] == x);
                assert(entry_before(b[q], b[m - 1]));
                lemma_entry_order_is_strict(b[m - 1], b[m - 1]);
                assert(b.contains(x));
                let p = choose|p: int| 0 <= p < a.len() && a[p] == x;
                assert(p != n - 1);
                assert(a0[p] == x);
            }
        }
        assert forall|p: int, q: int| 0 <= p < q < a0.len() implies entry_before(
            #[trigger] a0[p],
            #[trigger] a0[q],
        ) by {
            assert(entry_before(a[p], a[q]));
        }
        assert forall|p: int, q: int| 0 <= p < q < b0.len() implies entry_before(
            #[trigger] b0[p],
            #[trigger] b0[q],
        ) by {
            assert(entry_before(b[p], b[q]));
        }
        lemma_same_entries_same_pool(a0, b0);
        assert(a =~= a0.push(a[n - 1]));
        assert(b =~= b0.push(b[m - 1]));
    }
}

/// Order of arrival does not matter: two different artifacts that a pool
/// does not hold leave the same pool behind, whichever is offered first.
pub proof fn lemma_inserts_commute<E: Ranked>(
    s: Seq<EntryView<E>>,
    expiry1: u64,
    peer1: PeerInfo,
    number1: BlockNumber,
    data1: E,
    expiry2: u64,
    peer2: PeerInfo,
    number2: BlockNumber,
    data2: E,
)
    requires
        valid_pool(s),
        !holds_artifact(s, &data1),
        !holds_artifact(s, &data2),
        !(data1.le(&data2) && data2.le(&data1)),
    ensures
        pool_insert(pool_insert(s, expiry1, peer1, number1, data1), expiry2, peer2, number2, data2)
            == pool_insert(
            pool_insert(s, expiry2, peer2, number2, data2),
            expiry1,
            peer1,
            number1,
            data1,
        ),
{
    let e1 = EntryView {
        data: data1,
        expiration_time: expiry1,
        block_number: number1,
        peers: seq![peer1],
    };
    let e2 = EntryView {
        data: data2,
        expiration_time: expiry2,
        block_number: number2,
        peers: seq![peer2],
    };
    let t1 = pool_insert(s, expiry1, peer1, number1, data1);
    let t2 = pool_insert(s, expiry2, peer2, number2, data2);
    let t12 = pool_insert(t1, expiry2, peer2, number2, data2);
    let t21 = pool_insert(t2, expiry1, peer1, number1, data1);
    lemma_insert_of_absent_artifact_is_fresh(s, expiry1, peer1, number1, data1);
    lemma_insert_of_absent_artifact_is_fresh(s, expiry2, peer2, number2, data2);
    lemma_insert_valid(s, expiry1, peer1, number1, data1);
    lemma_insert_valid(s, expiry2, peer2, number2, data2);
    let k1 = slot_of(s, number1, &data1);
    let k2 = slot_of(s, number2, &data2);
    assert(!holds_artifact(t1, &data2)) by {
        assert forall|i: int| 0 <= i < t1.len() implies !entry_holds(#[trigger] t1[i], &data2) by {
            if i < k1 {
                assert(t1[i] == s[i]);
            } else if i > k1 {
                assert(t1[i] == s[i - 1]);
            }
        }
    }
    assert(!holds_artifact(t2, &data1)) by {
        assert forall|i: int| 0 <= i < t2.len() implies !entry_holds(#[trigger] t2[i], &data1) by {
            if i < k2 {
                assert(t2[i] == s[i]);
            } else if i > k2 {
                assert(t2[i] == s[i - 1]);
            }
        }
    }
    lemma_insert_of_absent_artifact_is_fresh(t1, expiry2, peer2, number2, data2);
    lemma_insert_of_absent_artifact_is_fresh(t2, expiry1, peer1, number1, data1);
    lemma_insert_valid(t1, expiry2, peer2, number2, data2);
    lemma_insert_valid(t2, expiry1, peer1, number1, data1);
    let k12 = slot_of(t1, number2, &data2);
    let k21 = slot_of(t2, number1, &data1);
    assert(t1 == s.insert(k1, e1));
    assert(t2 == s.insert(k2, e2));
    assert(t12 == t1.insert(k12, e2));
    assert(t21 == t2.insert(k21, e1));
    assert forall|x: EntryView<E>| t12.contains(x) <==> t21.contains(x) by {
        lemma_inserted_entries(s, k1, e1, x);
        lemma_inserted_entries(s, k2, e2, x);
        lemma_inserted_entries(t1, k12, e2, x);
        lemma_inserted_entries(t2, k21, e1, x);
    }
    lemma_same_entries_same_pool(t12, t21);
}

/// What a sequence holds after an insertion: what it held, and the new item.
proof fn lemma_inserted_entries<E>(
    s: Seq<EntryView<E>>,
    k: int,
    e: EntryView<E>,
    x: EntryView<E>,
)
    requires
        0 <= k <= s.len(),
    ensures
        s.insert(k, e).contains(x) <==> (s.contains(x) || x == e),
{
    let t = s.insert(k, e);
    if t.contains(x) {
        let i = choose|i: int| 0 <= i < t.len() && t[i] == x;
        if i < k {
            assert(s[i] == x);
        } else if i > k {
            assert(s[i - 1] == x);
        }
    }
    if s.contains(x) {
        let i = choose|i: int| 0 <= i < s.len() && s[i] == x;
        if i < k {
            assert(t[i] == x);
        } else {
            assert(t[i + 1] == x);
        }
    }
    if x == e {
        assert(t[k] == x);
    }
}

/// Bounded take: a request for more than a pool holds hands out every entry
/// and leaves the pool empty, and a further request then hands out nothing.
pub proof fn lemma_take_more_than_held<E: Ranked>(s: Seq<EntryView<E>>, size: usize, again: usize)
    requires
        s.len() < size,
    ensures
        take_count(s, size) == s.len(),
        s.take(take_count(s, size)) == s,
        s.skip(take_count(s, size)) == Seq::<EntryView<E>>::empty(),
        take_count(s.skip(take_count(s, size)), again) == 0,
{
    let c = take_count(s, size);
    assert(s.take(c) =~= s);
    assert(s.skip(c) =~= Seq::<EntryView<E>>::empty());
}

/// A fresh insert: an artifact that the pool does not hold, be it new or
/// evicted before, is entered with the offering peer alone and the expiry of
/// this offer; the entries that were held stay as they were, in their order.
pub proof fn lemma_insert_of_absent_artifact_is_fresh<E: Ranked>(
    s: Seq<EntryView<E>>,
    expiry: u64,
    peer: PeerInfo,
    number: BlockNumber,
    data: E,
)
    requires
        valid_pool(s),
        !holds_artifact(s, &data),
    ensures
        ({
            let t = pool_insert(s, expiry, peer, number, data);
            let k = slot_of(s, number, &data);
            &&& 0 <= k <= s.len()
            &&& t == s.insert(
                k,
                EntryView { data, expiration_time: expiry, block_number: number, peers: seq![peer] },
            )
            &&& t.len() == s.len() + 1
            &&& offered_by(t, &data) == seq![peer]
        }),
{
    lemma_slot_exists(s, number, &data);
    lemma_insert_holds_artifact(s, expiry, peer, number, data);
}

/// What has expired is no longer held: after an eviction at time `now`, an
/// artifact is held only with an expiry after `now`.
pub proof fn lemma_evicted_artifact_is_absent<E: Ranked>(
    s: Seq<EntryView<E>>,
    now: u64,
    data: E,
)
    requires
        valid_pool(s),
        forall|i: int|
            0 <= i < s.len() && entry_holds(#[trigger] s[i], &data) ==> s[i].expiration_time
                <= now,
    ensures
        !holds_artifact(alive_at(s, now), &data),
{
    let alive = |e: EntryView<E>| e.expiration_time > now;
    let kept = s.filter(alive);
    assert forall|i: int| 0 <= i < kept.len() implies !entry_holds(#[trigger] kept[i], &data) by {
        s.lemma_filter_pred(alive, i);
        assert(kept.contains(kept[i]));
        s.lemma_filter_contains_rev(alive, kept[i]);
        let j = choose|j: int| 0 <= j < s.len() && s[j] == kept[i];
        assert(s[j] == kept[i]);
    }
}

/// Expiry: an artifact that is first offered at time `now` is still held
/// after an eviction at any time before `now + DEFAULT_TTL_SECS`, and is gone
/// after an eviction at that time or later.
pub proof fn lemma_fresh_entry_lives_for_ttl<E: Ranked>(
    s: Seq<EntryView<E>>,
    now: u64,
    later: u64,
    peer: PeerInfo,
    number: BlockNumber,
    data: E,
)
    requires
        valid_pool(s),
        !holds_artifact(s, &data),
        now + DEFAULT_TTL_SECS <= u64::MAX,
    ensures
        later < now + DEFAULT_TTL_SECS ==> holds_artifact(
            alive_at(pool_insert(s, expiry_from(now), peer, number, data), later),
            &data,
        ),
        later >= now + DEFAULT_TTL_SECS ==> !holds_artifact(
            alive_at(pool_insert(s, expiry_from(now), peer, number, data), later),
            &data,
        ),
{
    let t = pool_insert(s, expiry_from(now), peer, number, data);
    let alive = |e: EntryView<E>| e.expiration_time > later;
    let kept = t.filter(alive);
    lemma_slot_exists(s, number, &data);
    let k = slot_of(s, number, &data);
    E::le_reflexive(&data);
    assert(entry_holds(t[k], &data));
    assert(t[k].expiration_time == now + DEFAULT_TTL_SECS);
    if later < now + DEFAULT_TTL_SECS {
        t.lemma_filter_contains(alive, k);
        let i = choose|i: int| 0 <= i < kept.len() && kept[i] == t[k];
        assert(entry_holds(kept[i], &data));
    } else {
        assert forall|i: int| 0 <= i < kept.len() implies !entry_holds(
            #[trigger] kept[i],
            &data,
        ) by {
            t.lemma_filter_pred(alive, i);
            assert(kept.contains(kept[i]));
            t.lemma_filter_contains_rev(alive, kept[i]);
            let j = choose|j: int| 0 <= j < t.len() && t[j] == kept[i];
            if j < k {
                assert(t[j] == s[j]);
            } else if j > k {
                assert(t[j] == s[j - 1]);
            }
        }
    }
}

} // verus!
