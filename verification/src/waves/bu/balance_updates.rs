//! The balance analyzer: collects the balances of the updates and writes
//! them to the store in chunks.

use crate::db::mappers::balance_history::{inserted_rows, lemma_inserted_rows_len, save_bulk};
use crate::db::mappers::balance_history_max_uids_per_height::{
    fill_from_balance_history, filled, height_of, indexed, leads_group, leads_selected,
};
use crate::db::mappers::safe_heights::{recorded, safe_height};
use crate::db::mappers::unique_address::{addresses_of, dictionary};
use crate::db::mappers::unique_assets::asset_candidates;
use crate::db::{balance_uids, BalanceRow, Db, WAVES_ASSET_ID};
use crate::text::{normalize, normalized};
use crate::waves::events::{Amount, BalanceUpdate, StateUpdate};
use crate::waves::{base58, base58_encode, BlockType, BlockchainUpdateInfo};
use vstd::prelude::*;

verus! {

/// Name of the balance history among the safe heights.
pub const BH_TABLE_NAME: &'static str = "balance_history";

/// Number of pending entries above which a chunk is written.
pub const CHUNK_SIZE: usize = 1000;

/// One balance of an update: after the block with key `block_uid`, at height
/// `block_height`, the address holds `amount` of the asset.
#[derive(Clone, Debug)]
pub struct BalanceHistory {
    pub block_uid: i64,
    pub address: String,
    pub asset_id: String,
    pub amount: i64,
    pub block_height: u32,
}

pub struct BalanceHistoryView {
    pub block_uid: i64,
    pub address: Seq<char>,
    pub asset_id: Seq<char>,
    pub amount: i64,
    pub block_height: u32,
}

impl View for BalanceHistory {
    type V = BalanceHistoryView;

    open spec fn view(&self) -> BalanceHistoryView {
        BalanceHistoryView {
            block_uid: self.block_uid,
            address: self.address@,
            asset_id: self.asset_id@,
            amount: self.amount,
            block_height: self.block_height,
        }
    }
}

pub open spec fn chunk_view(chunk: Seq<BalanceHistory>) -> Seq<BalanceHistoryView> {
    chunk.map_values(|b: BalanceHistory| b@)
}

/// The entry that one balance of an update gives: address and asset as
/// Base58 text, trimmed and stripped of NUL characters.
pub open spec fn entry_of(b: BalanceUpdate, a: Amount, block_uid: i64, height: u32) -> BalanceHistoryView {
    BalanceHistoryView {
        block_uid,
        address: normalized(base58(b.address@)),
        asset_id: normalized(base58(a.asset_id@)),
        amount: a.amount,
        block_height: height,
    }
}

/// The entries of some balances, in order; a balance without an amount
/// gives none.
pub open spec fn entries_of(balances: Seq<BalanceUpdate>, block_uid: i64, height: u32) -> Seq<
    BalanceHistoryView,
>
    decreases balances.len(),
{
    if balances.len() == 0 {
        Seq::empty()
    } else {
        let rest = entries_of(balances.drop_last(), block_uid, height);
        match balances.last().amount_after {
            Some(a) => rest.push(entry_of(balances.last(), a, block_uid, height)),
            None => rest,
        }
    }
}

pub open spec fn state_entries(s: Option<StateUpdate>, block_uid: i64, height: u32) -> Seq<
    BalanceHistoryView,
> {
    match s {
        Some(u) => entries_of(u.balances@, block_uid, height),
        None => Seq::empty(),
    }
}

pub open spec fn transaction_entries(updates: Seq<StateUpdate>, block_uid: i64, height: u32) -> Seq<
    BalanceHistoryView,
>
    decreases updates.len(),
{
    if updates.len() == 0 {
        Seq::empty()
    } else {
        transaction_entries(updates.drop_last(), block_uid, height) + entries_of(
            updates.last().balances@,
            block_uid,
            height,
        )
    }
}

/// The entries of one update: those of its state update, then those of its
/// transactions, then the corrections of a rollback.
pub open spec fn update_entries(block: BlockchainUpdateInfo) -> Seq<BalanceHistoryView> {
    let uid = block.uid->0;
    let h = block.height->0;
    state_entries(block.state_updates, uid, h) + transaction_entries(
        block.transaction_state_updates@,
        uid,
        h,
    ) + match block.rollback_data {
        Some(r) => state_entries(r.rollback_state_update, uid, h),
        None => Seq::empty(),
    }
}

/// Number of balances in a state update.
pub open spec fn balances_in(s: Option<StateUpdate>) -> nat {
    match s {
        Some(u) => u.balances@.len(),
        None => 0,
    }
}

/// Number of balances in some state updates together.
pub open spec fn balances_in_all(updates: Seq<StateUpdate>) -> nat
    decreases updates.len(),
{
    if updates.len() == 0 {
        0
    } else {
        balances_in_all(updates.drop_last()) + updates.last().balances@.len()
    }
}

/// Number of balances that an update carries: no more entries come of it.
pub open spec fn entry_bound(block: BlockchainUpdateInfo) -> nat {
    balances_in(block.state_updates) + balances_in_all(block.transaction_state_updates@)
        + match block.rollback_data {
        Some(r) => balances_in(r.rollback_state_update),
        None => 0,
    }
}

proof fn lemma_entries_of_len(balances: Seq<BalanceUpdate>, block_uid: i64, height: u32)
    ensures
        entries_of(balances, block_uid, height).len() <= balances.len(),
    decreases balances.len(),
{
    if balances.len() > 0 {
        lemma_entries_of_len(balances.drop_last(), block_uid, height);
    }
}

proof fn lemma_transaction_entries_len(updates: Seq<StateUpdate>, block_uid: i64, height: u32)
    ensures
        transaction_entries(updates, block_uid, height).len() <= balances_in_all(updates),
    decreases updates.len(),
{
    if updates.len() > 0 {
        lemma_transaction_entries_len(updates.drop_last(), block_uid, height);
        lemma_entries_of_len(updates.last().balances@, block_uid, height);
    }
}

/// An update gives at most one entry for each balance that it carries.
pub proof fn lemma_entry_bound(block: BlockchainUpdateInfo)
    ensures
        update_entries(block).len() <= entry_bound(block),
{
    let uid = block.uid->0;
    let h = block.height->0;
    match block.state_updates {
        Some(u) => lemma_entries_of_len(u.balances@, uid, h),
        None => {},
    }
    lemma_transaction_entries_len(block.transaction_state_updates@, uid, h);
    match block.rollback_data {
        Some(r) => match r.rollback_state_update {
            Some(u) => lemma_entries_of_len(u.balances@, uid, h),
            None => {},
        },
        None => {},
    }
}

/// Appends the entries of some balances to a chunk.
pub fn push_balances(
    block_height: u32,
    block_uid: &i64,
    balances: &Vec<BalanceUpdate>,
    chunk: &mut Vec<BalanceHistory>,
)
    ensures
        chunk_view(final(chunk)@) == chunk_view(old(chunk)@) + entries_of(
            balances@,
            *block_uid,
            block_height,
        ),
{
    let mut i: usize = 0;
    proof {
        assert(balances@.subrange(0, 0) =~= Seq::<BalanceUpdate>::empty());
        assert(chunk_view(chunk@) + Seq::<BalanceHistoryView>::empty() =~= chunk_view(chunk@));
    }
    while i < balances.len()
        invariant
            i <= balances@.len(),
            chunk_view(chunk@) == chunk_view(old(chunk)@) + entries_of(
                balances@.subrange(0, i as int),
                *block_uid,
                block_height,
            ),
        decreases balances@.len() - i,
    {
        let b = &balances[i];
        proof {
            assert(balances@.subrange(0, i + 1).drop_last() =~= balances@.subrange(0, i as int));
            assert(balances@.subrange(0, i + 1).last() == *b);
        }
        match &b.amount_after {
            Some(a) => {
                let address = normalize(base58_encode(&b.address).as_str());
                let asset_id = normalize(base58_encode(&a.asset_id).as_str());
                let ghost before = chunk@;
                let ghost rest = entries_of(balances@.subrange(0, i as int), *block_uid, block_height);
                chunk.push(
                    BalanceHistory {
                        block_uid: *block_uid,
                        address,
                        asset_id,
                        amount: a.amount,
                        block_height,
                    },
                );
                proof {
                    let e = entry_of(*b, *a, *block_uid, block_height);
                    assert(chunk_view(chunk@) =~= chunk_view(before).push(e));
                    assert(chunk_view(before).push(e) =~= chunk_view(old(chunk)@) + rest.push(e));
                }
            },
            None => {},
        }
        i = i + 1;
    }
    assert(balances@.subrange(0, i as int) =~= balances@);
}

/// Appends the entries of one update to a chunk.
pub fn process(block: &BlockchainUpdateInfo, chunk: &mut Vec<BalanceHistory>)
    requires
        block.uid is Some,
        block.height is Some,
    ensures
        chunk_view(final(chunk)@) == chunk_view(old(chunk)@) + update_entries(*block),
{
    let block_uid = block.uid.unwrap();
    let block_height = block.height.unwrap();
    let ghost c0 = chunk_view(chunk@);
    let ghost se = state_entries(block.state_updates, block_uid, block_height);
    match &block.state_updates {
        Some(s) => {
            push_balances(block_height, &block_uid, &s.balances, chunk);
        },
        None => {
            assert(c0 + Seq::<BalanceHistoryView>::empty() =~= c0);
        },
    }
    let mut i: usize = 0;
    proof {
        assert(block.transaction_state_updates@.subrange(0, 0) =~= Seq::<StateUpdate>::empty());
        assert(c0 + se + Seq::<BalanceHistoryView>::empty() =~= c0 + se);
    }
    while i < block.transaction_state_updates.len()
        invariant
            i <= block.transaction_state_updates@.len(),
            chunk_view(chunk@) == c0 + se + transaction_entries(
                block.transaction_state_updates@.subrange(0, i as int),
                block_uid,
                block_height,
            ),
        decreases block.transaction_state_updates@.len() - i,
    {
        let ghost before = chunk_view(chunk@);
        let ghost done = transaction_entries(
            block.transaction_state_updates@.subrange(0, i as int),
            block_uid,
            block_height,
        );
        push_balances(
            block_height,
            &block_uid,
            &block.transaction_state_updates[i].balances,
            chunk,
        );
        proof {
            let all = block.transaction_state_updates@;
            assert(all.subrange(0, i + 1).drop_last() =~= all.subrange(0, i as int));
            assert(all.subrange(0, i + 1).last() == all[i as int]);
            let e = entries_of(all[i as int].balances@, block_uid, block_height);
            assert(c0 + se + done + e =~= c0 + se + (done + e));
        }
        i = i + 1;
    }
    proof {
        let all = block.transaction_state_updates@;
        assert(all.subrange(0, i as int) =~= all);
    }
    let ghost te = transaction_entries(block.transaction_state_updates@, block_uid, block_height);
    match &block.rollback_data {
        Some(r) => match &r.rollback_state_update {
            Some(s) => {
                push_balances(block_height, &block_uid, &s.balances, chunk);
                proof {
                    let e = entries_of(s.balances@, block_uid, block_height);
                    assert(c0 + se + te + e =~= c0 + (se + te + e));
                }
            },
            None => {
                assert(c0 + se + te =~= c0 + (se + te + Seq::<BalanceHistoryView>::empty()));
            },
        },
        None => {
            assert(c0 + se + te =~= c0 + (se + te + Seq::<BalanceHistoryView>::empty()));
        },
    }
}

/// The least height of a chunk; `1` for an empty one.
pub open spec fn min_height(chunk: Seq<BalanceHistoryView>) -> u32
    decreases chunk.len(),
{
    if chunk.len() == 0 {
        1
    } else if chunk.len() == 1 {
        chunk[0].block_height
    } else {
        let rest = min_height(chunk.drop_last());
        if chunk.last().block_height < rest {
            chunk.last().block_height
        } else {
            rest
        }
    }
}

/// Finds the least height of a chunk.
pub fn least_height(chunk: &Vec<BalanceHistory>) -> (h: u32)
    ensures
        h == min_height(chunk_view(chunk@)),
{
    if chunk.len() == 0 {
        return 1;
    }
    let ghost cv = chunk_view(chunk@);
    let mut h = chunk[0].block_height;
    let mut i: usize = 1;
    assert(cv.subrange(0, 1)[0] == cv[0]);
    while i < chunk.len()
        invariant
            1 <= i <= chunk@.len(),
            cv == chunk_view(chunk@),
            h == min_height(cv.subrange(0, i as int)),
        decreases chunk@.len() - i,
    {
        proof {
            assert(cv.subrange(0, i + 1).drop_last() =~= cv.subrange(0, i as int));
            assert(cv.subrange(0, i + 1).last() == cv[i as int]);
        }
        if chunk[i].block_height < h {
            h = chunk[i].block_height;
        }
        i = i + 1;
    }
    assert(cv.subrange(0, i as int) =~= cv);
    h
}

/// Whether the sequences of the store can key `n` more entries.
pub open spec fn has_room(db: Db, n: int) -> bool {
    &&& db.last_asset_uid + n <= i64::MAX
    &&& db.last_address_uid + n <= i64::MAX
    &&& db.last_balance_uid + n <= i64::MAX
    &&& db.last_max_uid_uid + db.balances@.len() + n <= i64::MAX
}

/// The keys that a chunk's assets have once the chunk was merged.
pub open spec fn asset_ids_of(pre: Db, chunk: Seq<BalanceHistoryView>) -> Map<Seq<char>, i64> {
    dictionary(pre.assets@, pre.last_asset_uid).mapping(asset_candidates(chunk)).insert(
        Seq::<char>::empty(),
        WAVES_ASSET_ID,
    ).insert("WAVES"@, WAVES_ASSET_ID)
}

/// The keys that a chunk's addresses have once the chunk was merged.
pub open spec fn address_ids_of(pre: Db, chunk: Seq<BalanceHistoryView>) -> Map<Seq<char>, i64> {
    dictionary(pre.addresses@, pre.last_address_uid).mapping(addresses_of(chunk))
}

/// The rows that a chunk adds to the balance history.
pub open spec fn chunk_rows(pre: Db, chunk: Seq<BalanceHistoryView>) -> Seq<BalanceRow> {
    inserted_rows(
        pre.blocks@,
        chunk,
        asset_ids_of(pre, chunk),
        address_ids_of(pre, chunk),
        pre.last_balance_uid,
    )
}

/// The store `post` is the store `pre` after one chunk was written: assets
/// and addresses merged into the dictionaries, one history row for each
/// entry whose block is in the ledger, the index filled from the new rows,
/// and the safe height of the history moved.
pub open spec fn chunk_saved(pre: Db, chunk: Seq<BalanceHistoryView>, post: Db) -> bool {
    &&& dictionary(post.assets@, post.last_asset_uid) == dictionary(
        pre.assets@,
        pre.last_asset_uid,
    ).merged(asset_candidates(chunk))
    &&& dictionary(post.addresses@, post.last_address_uid) == dictionary(
        pre.addresses@,
        pre.last_address_uid,
    ).merged(addresses_of(chunk))
    &&& post.balances@ == pre.balances@ + chunk_rows(pre, chunk)
    &&& post.last_balance_uid == pre.last_balance_uid + chunk_rows(pre, chunk).len()
    &&& (post.max_uids@, post.last_max_uid_uid) == filled(
        pre.max_uids@,
        pre.last_max_uid_uid,
        post.balances@,
        post.balances@.len() as int,
        pre.blocks@,
        balance_uids(chunk_rows(pre, chunk)),
    )
    &&& recorded(
        pre.safe_heights@,
        post.safe_heights@,
        BH_TABLE_NAME@,
        safe_height(min_height(chunk)),
    )
    &&& post == (Db {
        assets: post.assets,
        last_asset_uid: post.last_asset_uid,
        addresses: post.addresses,
        last_address_uid: post.last_address_uid,
        balances: post.balances,
        last_balance_uid: post.last_balance_uid,
        max_uids: post.max_uids,
        last_max_uid_uid: post.last_max_uid_uid,
        safe_heights: post.safe_heights,
        ..pre
    })
}

/// After a chunk was written, every new row that has the greatest key of its
/// asset, address and height stands in the index under that key.
pub open spec fn new_rows_indexed(pre: Db, post: Db) -> bool {
    forall|k: int|
        pre.balances@.len() <= k < post.balances@.len() && leads_group(
            post.balances@,
            post.blocks@,
            #[trigger] post.balances@[k],
        ) ==> indexed(
            post.max_uids@,
            post.balances@[k],
            height_of(post.blocks@, post.balances@[k].block_uid),
        )
}

/// Position of the last of the first `n` rows that shares asset, address and
/// height with `r`; `-1` when none does.
pub open spec fn group_leader(
    balances: Seq<BalanceRow>,
    blocks: Seq<crate::db::BlockRow>,
    r: BalanceRow,
    n: int,
) -> int
    decreases n,
{
    if n <= 0 {
        -1
    } else if crate::db::mappers::balance_history_max_uids_per_height::same_group(
        blocks,
        balances[n - 1],
        r,
    ) {
        n - 1
    } else {
        group_leader(balances, blocks, r, n - 1)
    }
}

proof fn lemma_group_leader(
    balances: Seq<BalanceRow>,
    blocks: Seq<crate::db::BlockRow>,
    r: BalanceRow,
    n: int,
)
    requires
        0 <= n <= balances.len(),
    ensures
        -1 <= group_leader(balances, blocks, r, n) < n,
        group_leader(balances, blocks, r, n) >= 0
            ==> crate::db::mappers::balance_history_max_uids_per_height::same_group(
            blocks,
            balances[group_leader(balances, blocks, r, n)],
            r,
        ),
        forall|i: int|
            group_leader(balances, blocks, r, n) < i < n
                ==> !crate::db::mappers::balance_history_max_uids_per_height::same_group(
                blocks,
                #[trigger] balances[i],
                r,
            ),
    decreases n,
{
    if n > 0 {
        lemma_group_leader(balances, blocks, r, n - 1);
    }
}

/// After a chunk was written, for every asset, address and height that a
/// new row has, the index holds, under that key, the row with the greatest
/// key of all rows of that asset, address and height.
pub proof fn lemma_written_groups_are_indexed(pre: Db, post: Db, k: int)
    requires
        post.wf(),
        new_rows_indexed(pre, post),
        pre.balances@.len() <= k < post.balances@.len(),
    ensures
        ({
            let j = group_leader(
                post.balances@,
                post.blocks@,
                post.balances@[k],
                post.balances@.len() as int,
            );
            &&& k <= j < post.balances@.len()
            &&& crate::db::mappers::balance_history_max_uids_per_height::same_group(
                post.blocks@,
                post.balances@[j],
                post.balances@[k],
            )
            &&& leads_group(post.balances@, post.blocks@, post.balances@[j])
            &&& indexed(
                post.max_uids@,
                post.balances@[j],
                height_of(post.blocks@, post.balances@[j].block_uid),
            )
        }),
{
    let rows = post.balances@;
    let r = rows[k];
    let n = rows.len() as int;
    lemma_group_leader(rows, post.blocks@, r, n);
    let j = group_leader(rows, post.blocks@, r, n);
    assert(crate::db::mappers::balance_history_max_uids_per_height::same_group(
        post.blocks@,
        rows[k],
        r,
    ));
    assert(j >= k);
    assert forall|i: int|
        0 <= i < rows.len()
            && crate::db::mappers::balance_history_max_uids_per_height::same_group(
            post.blocks@,
            #[trigger] rows[i],
            rows[j],
        ) implies rows[i].uid <= rows[j].uid by {
        assert(crate::db::mappers::balance_history_max_uids_per_height::same_group(
            post.blocks@,
            rows[i],
            r,
        ));
        if i < j {
            assert(balance_uids(rows)[i] < balance_uids(rows)[j]);
        }
    }
}

/// Writes one chunk to the store.
pub fn save_chunk(db: &mut Db, chunk: &Vec<BalanceHistory>)
    requires
        old(db).wf(),
        has_room(*old(db), chunk@.len() as int),
    ensures
        final(db).wf(),
        chunk_saved(*old(db), chunk_view(chunk@), *final(db)),
        new_rows_indexed(*old(db), *final(db)),
{
    let ghost cv = chunk_view(chunk@);
    let assets_map = crate::db::mappers::unique_assets::merge_bulk(db, chunk);
    let address_map = crate::db::mappers::unique_address::merge_bulk(db, chunk);
    proof {
        assert forall|i: int| 0 <= i < chunk@.len() implies address_map@.contains_key(
            #[trigger] chunk@[i].address@,
        ) by {
            assert(addresses_of(cv)[i] == chunk@[i].address@);
        }
        lemma_inserted_rows_len(
            db.blocks@,
            cv,
            assets_map@,
            address_map@,
            db.last_balance_uid,
        );
    }
    let ghost mid = *db;
    let bh_uids = save_bulk(db, chunk, &assets_map, &address_map);
    fill_from_balance_history(db, &bh_uids);
    let h = least_height(chunk);
    crate::db::mappers::safe_heights::save(db, BH_TABLE_NAME, h);
    proof {
        let rows = chunk_rows(*old(db), cv);
        assert(db.balances@ == old(db).balances@ + rows);
        assert forall|k: int|
            old(db).balances@.len() <= k < db.balances@.len() && leads_group(
                db.balances@,
                db.blocks@,
                #[trigger] db.balances@[k],
            ) implies indexed(
            db.max_uids@,
            db.balances@[k],
            height_of(db.blocks@, db.balances@[k].block_uid),
        ) by {
            let r = db.balances@[k];
            assert(r == rows[k - old(db).balances@.len()]);
            assert(balance_uids(rows)[k - old(db).balances@.len()] == r.uid);
            assert(bh_uids@.contains(r.uid));
            assert(leads_selected(db.balances@, db.blocks@, bh_uids@, r));
        }
    }
}

/// The balance analyzer: the entries that wait to be written.
#[derive(Debug)]
pub struct Analyzer {
    pub chunk: Vec<BalanceHistory>,
}

/// Whether the pending entries are written after an update of this kind.
pub open spec fn flushes(block_type: BlockType, pending: int) -> bool {
    block_type == BlockType::MicroBlock || pending > CHUNK_SIZE
}

/// Decides whether the pending entries are written now.
pub fn should_flush(block_type: BlockType, pending: usize) -> (b: bool)
    ensures
        b == flushes(block_type, pending as int),
{
    block_type == BlockType::MicroBlock || pending > CHUNK_SIZE
}

/// What one update does to the pending entries and the store: the entries
/// of the update join the pending ones; then all of them are written, or all
/// of them go on waiting.
pub open spec fn sent(
    pre: Seq<BalanceHistoryView>,
    pre_db: Db,
    block: BlockchainUpdateInfo,
    post: Seq<BalanceHistoryView>,
    post_db: Db,
) -> bool {
    let pending = pre + update_entries(block);
    if flushes(block.block_type, pending.len() as int) {
        &&& chunk_saved(pre_db, pending, post_db)
        &&& new_rows_indexed(pre_db, post_db)
        &&& post.len() == 0
    } else {
        &&& post_db == pre_db
        &&& post == pending
    }
}

impl Analyzer {
    pub fn new() -> (r: Self)
        ensures
            r.chunk@.len() == 0,
    {
        Analyzer { chunk: Vec::new() }
    }

    /// Takes the balances of one update. The pending entries are written at
    /// once when the update is a microblock, or when more than `CHUNK_SIZE`
    /// of them wait; otherwise they go on waiting.
    pub fn send(&mut self, db: &mut Db, block: &BlockchainUpdateInfo)
        requires
            old(db).wf(),
            block.uid is Some,
            block.height is Some,
            has_room(*old(db), (old(self).chunk@.len() + update_entries(*block).len()) as int),
        ensures
            final(db).wf(),
            sent(
                chunk_view(old(self).chunk@),
                *old(db),
                *block,
                chunk_view(final(self).chunk@),
                *final(db),
            ),
    {
        process(block, &mut self.chunk);
        assert(chunk_view(self.chunk@).len() == self.chunk@.len());
        assert(chunk_view(old(self).chunk@).len() == old(self).chunk@.len());
        if should_flush(block.block_type, self.chunk.len()) {
            save_chunk(db, &self.chunk);
            self.chunk.clear();
        }
    }

    /// Writes the pending entries, whatever their number.
    pub fn flush(&mut self, db: &mut Db)
        requires
            old(db).wf(),
            has_room(*old(db), old(self).chunk@.len() as int),
        ensures
            final(db).wf(),
            chunk_saved(*old(db), chunk_view(old(self).chunk@), *final(db)),
            new_rows_indexed(*old(db), *final(db)),
            final(self).chunk@.len() == 0,
    {
        save_chunk(db, &self.chunk);
        self.chunk.clear();
    }
}

} // verus!
