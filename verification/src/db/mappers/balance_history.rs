//! The balance history: one row per balance that an update reported.

use crate::db::{
    balance_uids, block_uids, has_block, lemma_ascending_push, lemma_contains_after_push,
    BalanceRow, BlockRow, Db,
};
use crate::waves::bu::balance_updates::{chunk_view, BalanceHistory, BalanceHistoryView};
use vstd::hash_map::StringHashMap;
use vstd::prelude::*;

verus! {

/// A row of the history with the texts and the height that it stands for.
#[derive(Clone, Debug)]
pub struct RowBalanceHistory {
    pub block_uid: i64,
    pub address_id: i64,
    pub asset_id: i64,
    pub amount: i64,
    pub block_height: u32,
}

/// The rows that a chunk adds to the history: one for each entry whose block
/// is in the ledger, in the order of the chunk, keyed from `last` on.
pub open spec fn inserted_rows(
    blocks: Seq<BlockRow>,
    chunk: Seq<BalanceHistoryView>,
    asset_ids: Map<Seq<char>, i64>,
    address_ids: Map<Seq<char>, i64>,
    last: i64,
) -> Seq<BalanceRow>
    decreases chunk.len(),
{
    if chunk.len() == 0 {
        Seq::empty()
    } else {
        let rest = inserted_rows(blocks, chunk.drop_last(), asset_ids, address_ids, last);
        let b = chunk.last();
        if block_uids(blocks).contains(b.block_uid) {
            rest.push(
                BalanceRow {
                    uid: (last + rest.len() + 1) as i64,
                    block_uid: b.block_uid,
                    address_id: address_ids[b.address],
                    asset_id: asset_ids[b.asset_id],
                    amount: b.amount,
                },
            )
        } else {
            rest
        }
    }
}

pub proof fn lemma_inserted_rows_len(
    blocks: Seq<BlockRow>,
    chunk: Seq<BalanceHistoryView>,
    asset_ids: Map<Seq<char>, i64>,
    address_ids: Map<Seq<char>, i64>,
    last: i64,
)
    ensures
        inserted_rows(blocks, chunk, asset_ids, address_ids, last).len() <= chunk.len(),
    decreases chunk.len(),
{
    if chunk.len() > 0 {
        lemma_inserted_rows_len(blocks, chunk.drop_last(), asset_ids, address_ids, last);
    }
}

/// Writes a chunk to the history. An entry whose block is no longer in the
/// ledger is dropped. Returns the keys of the new rows, in order.
pub fn save_bulk(
    db: &mut Db,
    balances: &Vec<BalanceHistory>,
    asset_ids: &StringHashMap<i64>,
    address_ids: &StringHashMap<i64>,
) -> (bh_uids: Vec<i64>)
    requires
        old(db).wf(),
        old(db).last_balance_uid + balances@.len() <= i64::MAX,
        forall|i: int|
            0 <= i < balances@.len() ==> asset_ids@.contains_key(#[trigger] balances@[i].asset_id@),
        forall|i: int|
            0 <= i < balances@.len() ==> address_ids@.contains_key(
                #[trigger] balances@[i].address@,
            ),
    ensures
        final(db).wf(),
        final(db).balances@ == old(db).balances@ + inserted_rows(
            old(db).blocks@,
            chunk_view(balances@),
            asset_ids@,
            address_ids@,
            old(db).last_balance_uid,
        ),
        bh_uids@ == balance_uids(
            inserted_rows(
                old(db).blocks@,
                chunk_view(balances@),
                asset_ids@,
                address_ids@,
                old(db).last_balance_uid,
            ),
        ),
        final(db).last_balance_uid == old(db).last_balance_uid + bh_uids@.len(),
        *final(db) == (Db {
            balances: final(db).balances,
            last_balance_uid: final(db).last_balance_uid,
            ..*old(db)
        }),
{
    let mut bh_uids: Vec<i64> = Vec::new();
    let ghost chunk = chunk_view(balances@);
    let ghost last0 = db.last_balance_uid;
    let mut i: usize = 0;
    proof {
        assert(chunk.subrange(0, 0) =~= Seq::<BalanceHistoryView>::empty());
        assert(db.balances@ + Seq::<BalanceRow>::empty() =~= db.balances@);
    }
    while i < balances.len()
        invariant
            i <= balances@.len(),
            chunk == chunk_view(balances@),
            last0 == old(db).last_balance_uid,
            last0 + balances@.len() <= i64::MAX,
            forall|i: int|
                0 <= i < balances@.len() ==> asset_ids@.contains_key(
                    #[trigger] balances@[i].asset_id@,
                ),
            forall|i: int|
                0 <= i < balances@.len() ==> address_ids@.contains_key(
                    #[trigger] balances@[i].address@,
                ),
            db.wf(),
            bh_uids@.len() <= i,
            db.balances@ == old(db).balances@ + inserted_rows(
                old(db).blocks@,
                chunk.subrange(0, i as int),
                asset_ids@,
                address_ids@,
                last0,
            ),
            bh_uids@ == balance_uids(
                inserted_rows(
                    old(db).blocks@,
                    chunk.subrange(0, i as int),
                    asset_ids@,
                    address_ids@,
                    last0,
                ),
            ),
            db.last_balance_uid == last0 + bh_uids@.len(),
            *db == (Db {
                balances: db.balances,
                last_balance_uid: db.last_balance_uid,
                ..*old(db)
            }),
        decreases balances@.len() - i,
    {
        let b = &balances[i];
        proof {
            assert(chunk.subrange(0, i + 1).drop_last() =~= chunk.subrange(0, i as int));
            assert(chunk.subrange(0, i + 1).last() == b@);
            assert(balances@[i as int].asset_id@ == b.asset_id@);
            assert(balances@[i as int].address@ == b.address@);
        }
        if has_block(&db.blocks, b.block_uid) {
            let address_id = *address_ids.get(b.address.as_str()).unwrap();
            let asset_id = *asset_ids.get(b.asset_id.as_str()).unwrap();
            let uid = db.last_balance_uid + 1;
            let row = BalanceRow {
                uid,
                block_uid: b.block_uid,
                address_id,
                asset_id,
                amount: b.amount,
            };
            let ghost before = db.balances@;
            let ghost rest = inserted_rows(
                old(db).blocks@,
                chunk.subrange(0, i as int),
                asset_ids@,
                address_ids@,
                last0,
            );
            proof {
                assert forall|a: int| 0 <= a < before.len() implies balance_uids(before)[a]
                    < uid by {
                    assert(balance_uids(before)[a] <= db.last_balance_uid);
                }
                lemma_ascending_push(balance_uids(before), uid, uid);
                lemma_contains_after_push(balance_uids(before), uid);
            }
            db.balances.push(row);
            db.last_balance_uid = uid;
            bh_uids.push(uid);
            proof {
                assert(balance_uids(db.balances@) =~= balance_uids(before).push(uid));
                assert(db.balances@ =~= old(db).balances@ + rest.push(row));
                assert(balance_uids(rest.push(row)) =~= balance_uids(rest).push(uid));
                assert(db.balances@[before.len() as int] == row);
            }
        }
        i = i + 1;
    }
    assert(chunk.subrange(0, i as int) =~= chunk);
    bh_uids
}

} // verus!
