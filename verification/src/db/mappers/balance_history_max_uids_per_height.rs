//! The index of the latest balance per asset, address and height.

use crate::db::{
    ascending, balance_uids, block_uids, max_uid_uids, same_key, BalanceRow, BlockRow, Db,
    MaxUidRow,
};
use vstd::prelude::*;

verus! {

/// Height of the block with this key.
pub open spec fn height_of(blocks: Seq<BlockRow>, block_uid: i64) -> i32 {
    blocks[block_uids(blocks).index_of(block_uid)].height
}

/// Two balance rows of one asset and address whose blocks are at one height.
pub open spec fn same_group(blocks: Seq<BlockRow>, a: BalanceRow, b: BalanceRow) -> bool {
    a.asset_id == b.asset_id && a.address_id == b.address_id && height_of(blocks, a.block_uid)
        == height_of(blocks, b.block_uid)
}

/// The row is among the selected ones, and none of the selected rows of its
/// group has a greater key.
pub open spec fn leads_selected(
    balances: Seq<BalanceRow>,
    blocks: Seq<BlockRow>,
    selected: Seq<i64>,
    r: BalanceRow,
) -> bool {
    &&& selected.contains(r.uid)
    &&& forall|k: int|
        0 <= k < balances.len() && selected.contains((#[trigger] balances[k]).uid) && same_group(
            blocks,
            balances[k],
            r,
        ) ==> balances[k].uid <= r.uid
}

/// The row has the greatest key of all rows of its group.
pub open spec fn leads_group(balances: Seq<BalanceRow>, blocks: Seq<BlockRow>, r: BalanceRow) -> bool {
    forall|k: int|
        0 <= k < balances.len() && same_group(blocks, #[trigger] balances[k], r) ==> balances[k].uid
            <= r.uid
}

pub open spec fn has_key(m: MaxUidRow, asset_id: i64, height: i32, address_id: i64) -> bool {
    m.asset_id == asset_id && m.height == height && m.address_id == address_id
}

/// Position of the index row for an asset, height and address; `-1` when
/// there is none.
pub open spec fn key_position(
    index: Seq<MaxUidRow>,
    asset_id: i64,
    height: i32,
    address_id: i64,
) -> int
    decreases index.len(),
{
    if index.len() == 0 {
        -1
    } else if has_key(index.last(), asset_id, height, address_id) {
        index.len() - 1
    } else {
        key_position(index.drop_last(), asset_id, height, address_id)
    }
}

pub proof fn lemma_key_position(index: Seq<MaxUidRow>, asset_id: i64, height: i32, address_id: i64)
    ensures
        -1 <= key_position(index, asset_id, height, address_id) < index.len(),
        key_position(index, asset_id, height, address_id) >= 0 ==> has_key(
            index[key_position(index, asset_id, height, address_id)],
            asset_id,
            height,
            address_id,
        ),
        key_position(index, asset_id, height, address_id) == -1 ==> forall|j: int|
            0 <= j < index.len() ==> !has_key(#[trigger] index[j], asset_id, height, address_id),
    decreases index.len(),
{
    if index.len() > 0 && !has_key(index.last(), asset_id, height, address_id) {
        lemma_key_position(index.drop_last(), asset_id, height, address_id);
        if key_position(index, asset_id, height, address_id) == -1 {
            assert forall|j: int| 0 <= j < index.len() implies !has_key(
                #[trigger] index[j],
                asset_id,
                height,
                address_id,
            ) by {
                if j < index.len() - 1 {
                    assert(index.drop_last()[j] == index[j]);
                }
            }
        }
    }
}

/// The index after one balance row was entered at a height: the row for its
/// key takes its key and amount; without such a row a new one is appended.
pub open spec fn upserted(index: Seq<MaxUidRow>, last: i64, r: BalanceRow, height: i32) -> Seq<
    MaxUidRow,
> {
    let k = key_position(index, r.asset_id, height, r.address_id);
    if k >= 0 {
        index.update(k, MaxUidRow { balance_history_uid: r.uid, amount: r.amount, ..index[k] })
    } else {
        index.push(
            MaxUidRow {
                uid: (last + 1) as i64,
                balance_history_uid: r.uid,
                asset_id: r.asset_id,
                address_id: r.address_id,
                block_uid: r.block_uid,
                height,
                amount: r.amount,
            },
        )
    }
}

/// The last key of the index's sequence after the same.
pub open spec fn upserted_last(index: Seq<MaxUidRow>, last: i64, r: BalanceRow, height: i32) -> i64 {
    if key_position(index, r.asset_id, height, r.address_id) >= 0 {
        last
    } else {
        (last + 1) as i64
    }
}

/// The index, with the last key of its sequence, after the leading selected
/// rows among the first `n` rows of the history were entered in key order.
pub open spec fn filled(
    index: Seq<MaxUidRow>,
    last: i64,
    balances: Seq<BalanceRow>,
    n: int,
    blocks: Seq<BlockRow>,
    selected: Seq<i64>,
) -> (Seq<MaxUidRow>, i64)
    decreases n,
{
    if n <= 0 {
        (index, last)
    } else {
        let before = filled(index, last, balances, n - 1, blocks, selected);
        let r = balances[n - 1];
        if leads_selected(balances, blocks, selected, r) {
            let h = height_of(blocks, r.block_uid);
            (upserted(before.0, before.1, r, h), upserted_last(before.0, before.1, r, h))
        } else {
            before
        }
    }
}

/// The index holds the balance row under its key at this height.
pub open spec fn indexed(index: Seq<MaxUidRow>, r: BalanceRow, height: i32) -> bool {
    exists|j: int|
        0 <= j < index.len() && has_key(#[trigger] index[j], r.asset_id, height, r.address_id)
            && index[j].balance_history_uid == r.uid && index[j].amount == r.amount
}

/// Keys in order stand at one position each.
pub proof fn lemma_ascending_index_of(uids: Seq<i64>, last: i64, k: int)
    requires
        ascending(uids, last),
        0 <= k < uids.len(),
    ensures
        uids.index_of(uids[k]) == k,
        uids.contains(uids[k]),
{
    let i = uids.index_of(uids[k]);
    assert(0 <= i < uids.len() && uids[i] == uids[k]);
    if i < k {
        assert(uids[i] < uids[k]);
    }
    if k < i {
        assert(uids[k] < uids[i]);
    }
}

/// The height of the block with a key that the ledger holds.
pub(crate) fn block_height(blocks: &Vec<BlockRow>, block_uid: i64, last: Ghost<i64>) -> (h: i32)
    requires
        ascending(block_uids(blocks@), last@),
        block_uids(blocks@).contains(block_uid),
    ensures
        h == height_of(blocks@, block_uid),
{
    let mut i: usize = 0;
    while i < blocks.len()
        invariant
            i <= blocks@.len(),
            ascending(block_uids(blocks@), last@),
            block_uids(blocks@).contains(block_uid),
            forall|k: int| 0 <= k < i ==> block_uids(blocks@)[k] != block_uid,
        decreases blocks@.len() - i,
    {
        if blocks[i].uid == block_uid {
            proof {
                assert(block_uids(blocks@)[i as int] == block_uid);
                lemma_ascending_index_of(block_uids(blocks@), last@, i as int);
            }
            return blocks[i].height;
        }
        i = i + 1;
    }
    proof {
        let k = choose|k: int| 0 <= k < block_uids(blocks@).len() && block_uids(blocks@)[k] == block_uid;
        assert(false);
    }
    0
}

fn contains_uid(uids: &Vec<i64>, uid: i64) -> (b: bool)
    ensures
        b == uids@.contains(uid),
{
    let mut i: usize = 0;
    while i < uids.len()
        invariant
            i <= uids@.len(),
            forall|k: int| 0 <= k < i ==> uids@[k] != uid,
        decreases uids@.len() - i,
    {
        if uids[i] == uid {
            return true;
        }
        i = i + 1;
    }
    false
}

fn find_key(index: &Vec<MaxUidRow>, asset_id: i64, height: i32, address_id: i64) -> (r: Option<
    usize,
>)
    ensures
        match r {
            Some(k) => k as int == key_position(index@, asset_id, height, address_id) && k
                < index@.len(),
            None => key_position(index@, asset_id, height, address_id) == -1,
        },
{
    let mut i: usize = index.len();
    assert(index@.subrange(0, i as int) =~= index@);
    while i > 0
        invariant
            i <= index@.len(),
            key_position(index@, asset_id, height, address_id) == key_position(
                index@.subrange(0, i as int),
                asset_id,
                height,
                address_id,
            ),
        decreases i,
    {
        let m = &index[i - 1];
        if m.asset_id == asset_id && m.height == height && m.address_id == address_id {
            return Some(i - 1);
        }
        assert(index@.subrange(0, i as int).drop_last() =~= index@.subrange(0, i - 1));
        i = i - 1;
    }
    None
}

/// Whether the row at position `i` leads the selected rows of its group.
fn leads(db: &Db, bh_uids: &Vec<i64>, i: usize) -> (b: bool)
    requires
        db.wf(),
        i < db.balances@.len(),
    ensures
        b == leads_selected(db.balances@, db.blocks@, bh_uids@, db.balances@[i as int]),
{
    let r = db.balances[i];
    if !contains_uid(bh_uids, r.uid) {
        return false;
    }
    let h = block_height(&db.blocks, r.block_uid, Ghost(db.last_block_uid));
    let mut k: usize = 0;
    while k < db.balances.len()
        invariant
            k <= db.balances@.len(),
            db.wf(),
            i < db.balances@.len(),
            r == db.balances@[i as int],
            h == height_of(db.blocks@, r.block_uid),
            bh_uids@.contains(r.uid),
            forall|j: int|
                0 <= j < k && bh_uids@.contains((#[trigger] db.balances@[j]).uid) && same_group(
                    db.blocks@,
                    db.balances@[j],
                    r,
                ) ==> db.balances@[j].uid <= r.uid,
        decreases db.balances@.len() - k,
    {
        let other = db.balances[k];
        if other.uid > r.uid && other.asset_id == r.asset_id && other.address_id == r.address_id
            && contains_uid(bh_uids, other.uid) {
            let oh = block_height(&db.blocks, other.block_uid, Ghost(db.last_block_uid));
            if oh == h {
                return false;
            }
        }
        k = k + 1;
    }
    true
}

proof fn lemma_upsert(index: Seq<MaxUidRow>, last: i64, balances: Seq<BalanceRow>, r: BalanceRow, h: i32)
    requires
        ascending(max_uid_uids(index), last),
        last < i64::MAX,
        forall|i: int, j: int| 0 <= i < j < index.len() ==> !same_key(index[i], index[j]),
        forall|i: int|
            0 <= i < index.len() ==> balance_uids(balances).contains(
                (#[trigger] index[i]).balance_history_uid,
            ),
        balance_uids(balances).contains(r.uid),
    ensures
        ({
            let post = upserted(index, last, r, h);
            let post_last = upserted_last(index, last, r, h);
            &&& ascending(max_uid_uids(post), post_last)
            &&& forall|i: int, j: int| 0 <= i < j < post.len() ==> !same_key(post[i], post[j])
            &&& forall|i: int|
                0 <= i < post.len() ==> balance_uids(balances).contains(
                    (#[trigger] post[i]).balance_history_uid,
                )
            &&& indexed(post, r, h)
            &&& forall|o: BalanceRow, oh: i32|
                indexed(index, o, oh) && !(o.asset_id == r.asset_id && oh == h && o.address_id
                    == r.address_id) ==> #[trigger] indexed(post, o, oh)
        }),
{
    let post = upserted(index, last, r, h);
    let k = key_position(index, r.asset_id, h, r.address_id);
    lemma_key_position(index, r.asset_id, h, r.address_id);
    if k >= 0 {
        assert(max_uid_uids(post) =~= max_uid_uids(index));
        assert(has_key(post[k], r.asset_id, h, r.address_id));
        assert forall|i: int, j: int| 0 <= i < j < post.len() implies !same_key(
            post[i],
            post[j],
        ) by {
            assert(!same_key(index[i], index[j]));
        }
        assert forall|o: BalanceRow, oh: i32|
            indexed(index, o, oh) && !(o.asset_id == r.asset_id && oh == h && o.address_id
                == r.address_id) implies #[trigger] indexed(post, o, oh) by {
            let j = choose|j: int|
                0 <= j < index.len() && has_key(#[trigger] index[j], o.asset_id, oh, o.address_id)
                    && index[j].balance_history_uid == o.uid && index[j].amount == o.amount;
            assert(j != k);
            assert(post[j] == index[j]);
            assert(has_key(post[j], o.asset_id, oh, o.address_id));
        }
    } else {
        let row = post[index.len() as int];
        assert(max_uid_uids(post) =~= max_uid_uids(index).push(row.uid));
        assert(has_key(post[index.len() as int], r.asset_id, h, r.address_id));
        assert forall|i: int, j: int| 0 <= i < j < post.len() implies !same_key(
            post[i],
            post[j],
        ) by {
            if j == index.len() {
                assert(!has_key(index[i], r.asset_id, h, r.address_id));
            } else {
                assert(!same_key(index[i], index[j]));
            }
        }
        assert forall|o: BalanceRow, oh: i32|
            indexed(index, o, oh) && !(o.asset_id == r.asset_id && oh == h && o.address_id
                == r.address_id) implies #[trigger] indexed(post, o, oh) by {
            let j = choose|j: int|
                0 <= j < index.len() && has_key(#[trigger] index[j], o.asset_id, oh, o.address_id)
                    && index[j].balance_history_uid == o.uid && index[j].amount == o.amount;
            assert(post[j] == index[j]);
            assert(has_key(post[j], o.asset_id, oh, o.address_id));
        }
    }
}

/// Enters into the index the rows of the history with the given keys: of
/// those that share asset, address and height, the one with the greatest
/// key. Afterwards the index holds each such row under its key.
pub fn fill_from_balance_history(db: &mut Db, bh_uids: &Vec<i64>)
    requires
        old(db).wf(),
        old(db).last_max_uid_uid + old(db).balances@.len() <= i64::MAX,
    ensures
        final(db).wf(),
        (final(db).max_uids@, final(db).last_max_uid_uid) == filled(
            old(db).max_uids@,
            old(db).last_max_uid_uid,
            old(db).balances@,
            old(db).balances@.len() as int,
            old(db).blocks@,
            bh_uids@,
        ),
        forall|k: int|
            0 <= k < old(db).balances@.len() && leads_selected(
                old(db).balances@,
                old(db).blocks@,
                bh_uids@,
                #[trigger] old(db).balances@[k],
            ) ==> indexed(
                final(db).max_uids@,
                old(db).balances@[k],
                height_of(old(db).blocks@, old(db).balances@[k].block_uid),
            ),
        *final(db) == (Db {
            max_uids: final(db).max_uids,
            last_max_uid_uid: final(db).last_max_uid_uid,
            ..*old(db)
        }),
{
    if bh_uids.len() == 0 {
        proof {
            lemma_filled_nothing(
                db.max_uids@,
                db.last_max_uid_uid,
                db.balances@,
                db.balances@.len() as int,
                db.blocks@,
                bh_uids@,
            );
        }
        return ;
    }
    let n = db.balances.len();
    let mut i: usize = 0;
    while i < n
        invariant
            i <= n,
            n == db.balances@.len(),
            old(db).wf(),
            old(db).last_max_uid_uid + n <= i64::MAX,
            db.wf(),
            db.last_max_uid_uid <= old(db).last_max_uid_uid + i,
            (db.max_uids@, db.last_max_uid_uid) == filled(
                old(db).max_uids@,
                old(db).last_max_uid_uid,
                old(db).balances@,
                i as int,
                old(db).blocks@,
                bh_uids@,
            ),
            forall|k: int|
                0 <= k < i && leads_selected(
                    old(db).balances@,
                    old(db).blocks@,
                    bh_uids@,
                    #[trigger] old(db).balances@[k],
                ) ==> indexed(
                    db.max_uids@,
                    old(db).balances@[k],
                    height_of(old(db).blocks@, old(db).balances@[k].block_uid),
                ),
            *db == (Db {
                max_uids: db.max_uids,
                last_max_uid_uid: db.last_max_uid_uid,
                ..*old(db)
            }),
        decreases n - i,
    {
        if leads(db, bh_uids, i) {
            let r = db.balances[i];
            let h = block_height(&db.blocks, r.block_uid, Ghost(db.last_block_uid));
            proof {
                assert(balance_uids(db.balances@)[i as int] == r.uid);
                lemma_ascending_index_of(balance_uids(db.balances@), db.last_balance_uid, i as int);
                lemma_upsert(db.max_uids@, db.last_max_uid_uid, db.balances@, r, h);
                assert forall|k: int|
                    0 <= k < i && leads_selected(
                        old(db).balances@,
                        old(db).blocks@,
                        bh_uids@,
                        #[trigger] old(db).balances@[k],
                    ) implies !(old(db).balances@[k].asset_id == r.asset_id && height_of(
                    old(db).blocks@,
                    old(db).balances@[k].block_uid,
                ) == h && old(db).balances@[k].address_id == r.address_id) by {
                    let o = old(db).balances@[k];
                    if o.asset_id == r.asset_id && height_of(old(db).blocks@, o.block_uid) == h
                        && o.address_id == r.address_id {
                        assert(same_group(old(db).blocks@, o, r));
                        assert(same_group(old(db).blocks@, r, o));
                        assert(db.balances@[i as int].uid <= o.uid);
                        assert(balance_uids(db.balances@)[k] < balance_uids(db.balances@)[i as int]);
                    }
                }
            }
            match find_key(&db.max_uids, r.asset_id, h, r.address_id) {
                Some(k) => {
                    let mut row = db.max_uids[k];
                    row.balance_history_uid = r.uid;
                    row.amount = r.amount;
                    db.max_uids.set(k, row);
                },
                None => {
                    let uid = db.last_max_uid_uid + 1;
                    db.max_uids.push(
                        MaxUidRow {
                            uid,
                            balance_history_uid: r.uid,
                            asset_id: r.asset_id,
                            address_id: r.address_id,
                            block_uid: r.block_uid,
                            height: h,
                            amount: r.amount,
                        },
                    );
                    db.last_max_uid_uid = uid;
                },
            }
        }
        i = i + 1;
    }
}

/// With nothing selected the index stays as it is.
pub proof fn lemma_filled_nothing(
    index: Seq<MaxUidRow>,
    last: i64,
    balances: Seq<BalanceRow>,
    n: int,
    blocks: Seq<BlockRow>,
    selected: Seq<i64>,
)
    requires
        selected.len() == 0,
    ensures
        filled(index, last, balances, n, blocks, selected) == (index, last),
    decreases n,
{
    if n > 0 {
        lemma_filled_nothing(index, last, balances, n - 1, blocks, selected);
    }
}

} // verus!
