//! The downloader: picks the peer to follow, finds where its chain leaves
//! ours, and buffers the blocks that it supplies until they can be applied.

use vstd::prelude::*;
use crate::ancestor::Ancestor;
use crate::ancestor::chains_agree;
use crate::ancestor::find_ancestor_header;
use crate::ancestor::initial_state;
use crate::ancestor::outcome;
use crate::block::Block;
use crate::block::BlockBody;
use crate::block::BlockHeader;
use crate::block::BlockInfo;
use crate::block::BlockNumber;
use crate::block::PeerInfo;
use crate::chain::MemChain;
use crate::order::Order;
use crate::pool::EntryView;
use crate::pool::TTLPool;
use crate::pool::alive_at;
use crate::pool::artifacts;
use crate::pool::expired_at;
use crate::pool::expiry_from;
use crate::pool::pool_insert;
use crate::pool::take_count;
use crate::pool::unix_time_secs;
use crate::pool::valid_pool;

verus! {

/// Why a batch of fetched blocks was refused.
#[derive(Clone, Copy, Debug, PartialEq, Eq, Structural)]
pub enum DownloadError {
    /// Headers, bodies and metadata differ in number.
    LengthMismatch,
    /// A body or a metadata record belongs to another block than the header
    /// at its position.
    Misaligned,
    /// A header does not follow the one before it: its number is not one
    /// higher, or its parent is another block.
    NonContiguous,
}

/// `peers[i]` advertises the highest score, and is the first to do so.
pub open spec fn is_best(peers: Seq<PeerInfo>, i: int) -> bool {
    &&& 0 <= i < peers.len()
    &&& forall|j: int|
        0 <= j < peers.len() ==> (#[trigger] peers[j]).total_difficulty.value()
            <= peers[i].total_difficulty.value()
    &&& forall|j: int|
        0 <= j < i ==> (#[trigger] peers[j]).total_difficulty.value()
            < peers[i].total_difficulty.value()
}

/// The body and the metadata at position `i` belong to the header there.
pub open spec fn aligned_at(
    headers: Seq<BlockHeader>,
    bodies: Seq<BlockBody>,
    infos: Seq<BlockInfo>,
    i: int,
) -> bool {
    bodies[i].block_id == headers[i].id && infos[i].block_id == headers[i].id
}

/// The header at position `i` follows the one before it.
pub open spec fn follows_at(headers: Seq<BlockHeader>, i: int) -> bool {
    headers[i].number == headers[i - 1].number + 1 && headers[i].parent_id == headers[i - 1].id
}

/// Why the batch is refused, or `None` if it is a contiguous run of blocks.
pub open spec fn batch_error(
    headers: Seq<BlockHeader>,
    bodies: Seq<BlockBody>,
    infos: Seq<BlockInfo>,
) -> Option<DownloadError> {
    if headers.len() != bodies.len() || headers.len() != infos.len() {
        Some(DownloadError::LengthMismatch)
    } else if exists|i: int| 0 <= i < headers.len() && !#[trigger] aligned_at(headers, bodies, infos, i) {
        Some(DownloadError::Misaligned)
    } else if exists|i: int| 0 < i < headers.len() && !#[trigger] follows_at(headers, i) {
        Some(DownloadError::NonContiguous)
    } else {
        None
    }
}

/// The blocks that the three sequences describe, position by position.
pub open spec fn zipped(
    headers: Seq<BlockHeader>,
    bodies: Seq<BlockBody>,
    infos: Seq<BlockInfo>,
) -> Seq<Block> {
    Seq::new(
        headers.len(),
        |i: int| Block { header: headers[i], body: bodies[i], info: infos[i] },
    )
}

/// The pool `s` after `peer` has offered each of `blocks`, first to last,
/// under the number of its header.
pub open spec fn pool_insert_all(
    s: Seq<EntryView<Block>>,
    expiry: u64,
    peer: PeerInfo,
    blocks: Seq<Block>,
) -> Seq<EntryView<Block>>
    decreases blocks.len(),
{
    if blocks.len() == 0 {
        s
    } else {
        pool_insert(
            pool_insert_all(s, expiry, peer, blocks.drop_last()),
            expiry,
            peer,
            blocks.last().header.number,
            blocks.last(),
        )
    }
}

/// The peer that advertises the highest score; among equals, the first.
/// `None` when no peer is connected.
pub fn best_peer(peers: &Vec<PeerInfo>) -> (best: Option<PeerInfo>)
    ensures
        peers@.len() == 0 <==> best is None,
        best matches Some(p) ==> exists|i: int| is_best(peers@, i) && p == peers@[i],
{
    if peers.len() == 0 {
        return None;
    }
    let mut at: usize = 0;
    let mut i: usize = 1;
    while i < peers.len()
        invariant
            0 <= at < i <= peers@.len(),
            is_best(peers@.take(i as int), at as int),
        decreases peers@.len() - i,
    {
        let ghost seen = peers@.take(i as int);
        let ghost more = peers@.take(i + 1);
        let higher = peers[i].total_difficulty.compare(&peers[at].total_difficulty)
            == Order::Greater;
        proof {
            assert forall|j: int| 0 <= j < i implies more[j] == seen[j] by {}
            assert(more[i as int] == peers@[i as int]);
        }
        if higher {
            proof {
                assert forall|j: int| 0 <= j < more.len() implies (#[trigger] more[j]).total_difficulty.value()
                    <= more[i as int].total_difficulty.value() by {
                    if j < i {
                        assert(seen[j].total_difficulty.value() <= seen[at as int].total_difficulty.value());
                    }
                }
                assert forall|j: int| 0 <= j < i implies (#[trigger] more[j]).total_difficulty.value()
                    < more[i as int].total_difficulty.value() by {
                    assert(seen[j].total_difficulty.value() <= seen[at as int].total_difficulty.value());
                }
            }
            at = i;
        } else {
            proof {
                assert forall|j: int| 0 <= j < more.len() implies (#[trigger] more[j]).total_difficulty.value()
                    <= more[at as int].total_difficulty.value() by {
                    if j < i {
                        assert(seen[j].total_difficulty.value() <= seen[at as int].total_difficulty.value());
                    }
                }
                assert forall|j: int| 0 <= j < at implies (#[trigger] more[j]).total_difficulty.value()
                    < more[at as int].total_difficulty.value() by {
                    assert(seen[j].total_difficulty.value() < seen[at as int].total_difficulty.value());
                }
            }
        }
        i = i + 1;
    }
    assert(peers@.take(peers@.len() as int) == peers@);
    Some(peers[at])
}

/// Checks that three fetched sequences describe a contiguous run of blocks.
pub fn check_batch(headers: &Vec<BlockHeader>, bodies: &Vec<BlockBody>, infos: &Vec<BlockInfo>) -> (r:
    Result<(), DownloadError>)
    ensures
        r == (match batch_error(headers@, bodies@, infos@) {
            Some(e) => Err::<(), DownloadError>(e),
            None => Ok::<(), DownloadError>(()),
        }),
{
    let n = headers.len();
    if bodies.len() != n || infos.len() != n {
        return Err(DownloadError::LengthMismatch);
    }
    let mut i: usize = 0;
    while i < n
        invariant
            i <= n,
            n == headers@.len() == bodies@.len() == infos@.len(),
            forall|j: int| 0 <= j < i ==> #[trigger] aligned_at(headers@, bodies@, infos@, j),
        decreases n - i,
    {
        let aligned = bodies[i].block_id.equals(&headers[i].id) && infos[i].block_id.equals(
            &headers[i].id,
        );
        if !aligned {
            assert(!aligned_at(headers@, bodies@, infos@, i as int));
            return Err(DownloadError::Misaligned);
        }
        i = i + 1;
    }
    let mut i: usize = 1;
    while i < n
        invariant
            1 <= i,
            n == headers@.len() == bodies@.len() == infos@.len(),
            forall|j: int| 0 <= j < n ==> #[trigger] aligned_at(headers@, bodies@, infos@, j),
            forall|j: int| 0 < j < i && j < n ==> #[trigger] follows_at(headers@, j),
        decreases n - i,
    {
        let below = &headers[i - 1];
        let here = &headers[i];
        let follows = below.number < u64::MAX && here.number == below.number + 1
            && here.parent_id.equals(&below.id);
        if !follows {
            assert(!follows_at(headers@, i as int));
            return Err(DownloadError::NonContiguous);
        }
        i = i + 1;
    }
    Ok(())
}

/// Buffers fetched blocks for one synchronization session.
pub struct Downloader {
    pool: TTLPool<Block>,
}

impl Downloader {
    /// The blocks buffered, in the order in which they will be handed out.
    pub closed spec fn pool(&self) -> Seq<EntryView<Block>> {
        self.pool@
    }

    /// The downloader's invariant: its buffer is a valid pool.
    pub open spec fn wf(&self) -> bool {
        valid_pool(self.pool())
    }

    pub fn new() -> (d: Downloader)
        ensures
            d.wf(),
            d.pool() == Seq::<EntryView<Block>>::empty(),
    {
        Downloader { pool: TTLPool::new() }
    }

    /// The peer to synchronize against: see [`best_peer`].
    pub fn best_peer(peers: &Vec<PeerInfo>) -> (best: Option<PeerInfo>)
        ensures
            peers@.len() == 0 <==> best is None,
            best matches Some(p) ==> exists|i: int| is_best(peers@, i) && p == peers@[i],
    {
        best_peer(peers)
    }

    /// The header of the local head, from which a search begins.
    pub fn master_head_header(chain: &MemChain) -> (head: Option<&BlockHeader>)
        ensures
            chain@.len() == 0 <==> head is None,
            head matches Some(h) ==> h@ == chain@.last().header,
    {
        chain.master_head_header()
    }

    /// Finds the common ancestor of the local chain and a peer's chain at or
    /// below `begin_number`: see [`find_ancestor_header`].
    pub fn find_ancestor_header(
        &self,
        local: &MemChain,
        peer: &MemChain,
        begin_number: BlockNumber,
        allow_full_scan: bool,
    ) -> (found: Ancestor)
        ensures
            found == outcome(
                initial_state(begin_number, allow_full_scan),
                |h: BlockNumber| chains_agree(local@, peer@, h),
            ),
    {
        find_ancestor_header(local, peer, begin_number, allow_full_scan)
    }

    /// Number of blocks buffered.
    pub fn pending(&self) -> (n: usize)
        ensures
            n == self.pool().len(),
    {
        self.pool.size()
    }

    /// Buffers a fetched run of blocks that `peer` supplied at time `now`.
    ///
    /// The three sequences have to be of one length, aligned by block
    /// identifier, and contiguous; a batch that is not is refused whole.
    pub fn do_blocks_at(
        &mut self,
        now: u64,
        peer: PeerInfo,
        headers: Vec<BlockHeader>,
        bodies: Vec<BlockBody>,
        infos: Vec<BlockInfo>,
    ) -> (r: Result<(), DownloadError>)
        requires
            old(self).wf(),
        ensures
            final(self).wf(),
            r == (match batch_error(headers@, bodies@, infos@) {
                Some(e) => Err::<(), DownloadError>(e),
                None => Ok::<(), DownloadError>(()),
            }),
            r is Ok ==> final(self).pool() == pool_insert_all(
                old(self).pool(),
                expiry_from(now),
                peer,
                zipped(headers@, bodies@, infos@),
            ),
            r is Err ==> final(self).pool() == old(self).pool(),
    {
        match check_batch(&headers, &bodies, &infos) {
            Ok(()) => {},
            Err(e) => {
                return Err(e);
            },
        }
        let ghost start = self.pool();
        let ghost blocks = zipped(headers@, bodies@, infos@);
        let n = headers.len();
        let mut headers = headers;
        let mut bodies = bodies;
        let mut infos = infos;
        let mut i: usize = 0;
        assert(blocks.take(0) =~= Seq::<Block>::empty());
        while i < n
            invariant
                i <= n == blocks.len(),
                self.wf(),
                headers@.len() == n - i,
                bodies@.len() == n - i,
                infos@.len() == n - i,
                forall|j: int|
                    0 <= j < n - i ==> blocks[i + j] == (Block {
                        header: #[trigger] headers@[j],
                        body: bodies@[j],
                        info: infos@[j],
                    }),
                self.pool() == pool_insert_all(start, expiry_from(now), peer, blocks.take(i as int)),
            decreases n - i,
        {
            let header = headers.remove(0);
            let body = bodies.remove(0);
            let info = infos.remove(0);
            let block = Block { header, body, info };
            assert(block == blocks[i as int]);
            proof {
                assert(blocks.take(i + 1).drop_last() =~= blocks.take(i as int));
                assert(blocks.take(i + 1).last() == blocks[i as int]);
            }
            self.pool.insert_at(now, peer, block.header.number, block);
            i = i + 1;
        }
        assert(blocks.take(n as int) =~= blocks);
        Ok(())
    }

    /// Buffers a fetched run of blocks that `peer` supplies now.
    ///
    /// As [`Downloader::do_blocks_at`], with the system clock's time.
    pub fn do_blocks(
        &mut self,
        peer: PeerInfo,
        headers: Vec<BlockHeader>,
        bodies: Vec<BlockBody>,
        infos: Vec<BlockInfo>,
    ) -> (r: Result<(), DownloadError>)
        requires
            old(self).wf(),
        ensures
            final(self).wf(),
            r == (match batch_error(headers@, bodies@, infos@) {
                Some(e) => Err::<(), DownloadError>(e),
                None => Ok::<(), DownloadError>(()),
            }),
            r is Ok ==> exists|now: u64|
                final(self).pool() == #[trigger] pool_insert_all(
                    old(self).pool(),
                    expiry_from(now),
                    peer,
                    zipped(headers@, bodies@, infos@),
                ),
            r is Err ==> final(self).pool() == old(self).pool(),
    {
        let now = unix_time_secs();
        self.do_blocks_at(now, peer, headers, bodies, infos)
    }

    /// Buffers again the blocks that the processor handed back, as offered
    /// by `peer` at time `now`.
    pub fn put_back(&mut self, now: u64, peer: PeerInfo, blocks: Vec<Block>)
        requires
            old(self).wf(),
        ensures
            final(self).wf(),
            final(self).pool() == pool_insert_all(
                old(self).pool(),
                expiry_from(now),
                peer,
                blocks@,
            ),
    {
        let ghost start = self.pool();
        let ghost all = blocks@;
        let n = blocks.len();
        let mut blocks = blocks;
        let mut i: usize = 0;
        assert(all.take(0) =~= Seq::<Block>::empty());
        while i < n
            invariant
                i <= n == all.len(),
                self.wf(),
                blocks@ == all.skip(i as int),
                self.pool() == pool_insert_all(start, expiry_from(now), peer, all.take(i as int)),
            decreases n - i,
        {
            let block = blocks.remove(0);
            assert(block == all[i as int]);
            proof {
                assert(blocks@ =~= all.skip(i + 1));
                assert(all.take(i + 1).drop_last() =~= all.take(i as int));
                assert(all.take(i + 1).last() == all[i as int]);
            }
            self.pool.insert_at(now, peer, block.header.number, block);
            i = i + 1;
        }
        assert(all.take(n as int) =~= all);
    }

    /// Hands out the `size` lowest buffered blocks, in ascending order, for
    /// the processor to apply.
    pub fn take_ready(&mut self, size: usize) -> (ready: Vec<Block>)
        requires
            old(self).wf(),
        ensures
            final(self).wf(),
            ready@ == artifacts(old(self).pool().take(take_count(old(self).pool(), size))),
            final(self).pool() == old(self).pool().skip(take_count(old(self).pool(), size)),
    {
        self.pool.take(size)
    }

    /// Evicts the buffered blocks that have expired by time `now`.
    pub fn gc(&mut self, now: u64) -> (evicted: Vec<Block>)
        requires
            old(self).wf(),
        ensures
            final(self).wf(),
            final(self).pool() == alive_at(old(self).pool(), now),
            evicted@ == artifacts(expired_at(old(self).pool(), now)),
    {
        self.pool.gc(now)
    }
}

} // verus!
