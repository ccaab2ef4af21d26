//! The worker on distribution tasks: for an asset and a height it freezes
//! the ranked list of the asset's holders.

use crate::api::error::AppError;
use crate::db::mappers::blocks_microblocks::{get_last_height, last_index_where, BlockFilter};
use crate::db::mappers::distribution_task::{
    find_task, moved, next_task, next_task_index, set_state_at, AssetDistributionTask,
};
use crate::db::{ranked, Db, MaxUidRow, Snapshot, SnapshotRow, TaskRow, TaskState};
use crate::text::owned;
use vstd::prelude::*;

verus! {

/// An index row that counts for a distribution: of the asset, at or below
/// the height.
pub open spec fn qualifies(m: MaxUidRow, asset_uid: i64, height: i32) -> bool {
    m.asset_id == asset_uid && m.height <= height
}

/// `a` is at least as late as `b`: it points to a later balance row, or to
/// the same one from a later index row.
pub open spec fn outranks(a: MaxUidRow, b: MaxUidRow) -> bool {
    a.balance_history_uid > b.balance_history_uid || (a.balance_history_uid
        == b.balance_history_uid && a.uid >= b.uid)
}

/// Among the first `n` rows of the index, row `j` is the latest that counts
/// for its address.
pub open spec fn is_latest_of_address(
    index: Seq<MaxUidRow>,
    n: int,
    asset_uid: i64,
    height: i32,
    j: int,
) -> bool {
    &&& 0 <= j < n
    &&& qualifies(index[j], asset_uid, height)
    &&& forall|k: int|
        0 <= k < n && qualifies(#[trigger] index[k], asset_uid, height) && index[k].address_id
            == index[j].address_id ==> outranks(index[j], index[k])
}

/// Among the first `n` rows of the index, row `j` has the greatest key of
/// those that count for its address.
pub open spec fn is_greatest_of_address(
    index: Seq<MaxUidRow>,
    n: int,
    asset_uid: i64,
    height: i32,
    j: int,
) -> bool {
    &&& 0 <= j < n
    &&& qualifies(index[j], asset_uid, height)
    &&& forall|k: int|
        0 <= k < n && qualifies(#[trigger] index[k], asset_uid, height) && index[k].address_id
            == index[j].address_id ==> index[k].uid <= index[j].uid
}

/// The snapshot row of the address whose latest row is `j` and whose row
/// with the greatest key is `g`; the rank is left open.
pub open spec fn row_of(index: Seq<MaxUidRow>, j: int, g: int) -> SnapshotRow {
    SnapshotRow {
        uid: 0,
        address_id: index[j].address_id,
        max_uid: index[g].uid,
        max_bh_uid: index[j].balance_history_uid,
        amount: index[j].amount,
        height: index[j].height,
    }
}

/// The row, but for its rank, shows a holder: an address with a positive
/// amount in its latest row that counts.
pub open spec fn is_holder_row(
    index: Seq<MaxUidRow>,
    asset_uid: i64,
    height: i32,
    r: SnapshotRow,
) -> bool {
    &&& r.amount > 0
    &&& exists|j: int, g: int|
        #![trigger row_of(index, j, g)]
        is_latest_of_address(index, index.len() as int, asset_uid, height, j)
            && is_greatest_of_address(index, index.len() as int, asset_uid, height, g)
            && index[g].address_id == index[j].address_id && (SnapshotRow { uid: 0, ..r })
            == row_of(index, j, g)
}

/// Order of a distribution: greater amounts first, equal amounts by address.
pub open spec fn precedes(a: SnapshotRow, b: SnapshotRow) -> bool {
    a.amount > b.amount || (a.amount == b.amount && a.address_id < b.address_id)
}

pub open spec fn has_address(rows: Seq<SnapshotRow>, address_id: i64) -> bool {
    exists|k: int| 0 <= k < rows.len() && (#[trigger] rows[k]).address_id == address_id
}

/// The distribution of an asset at a height: one row per address whose
/// latest balance at or below the height is positive, greater amounts
/// first, ranked from one on without gaps.
pub open spec fn is_distribution(
    index: Seq<MaxUidRow>,
    asset_uid: i64,
    height: i32,
    rows: Seq<SnapshotRow>,
) -> bool {
    &&& ranked(rows)
    &&& forall|k: int, l: int| 0 <= k < l < rows.len() ==> precedes(rows[k], rows[l])
    &&& forall|k: int|
        0 <= k < rows.len() ==> is_holder_row(index, asset_uid, height, #[trigger] rows[k])
    &&& forall|j: int|
        is_latest_of_address(index, index.len() as int, asset_uid, height, j) && index[j].amount
            > 0 ==> has_address(rows, (#[trigger] index[j]).address_id)
}

struct Holder {
    address_id: i64,
    latest: usize,
    greatest: usize,
}

spec fn holder_ok(index: Seq<MaxUidRow>, n: int, asset_uid: i64, height: i32, h: Holder) -> bool {
    &&& is_latest_of_address(index, n, asset_uid, height, h.latest as int)
    &&& is_greatest_of_address(index, n, asset_uid, height, h.greatest as int)
    &&& index[h.latest as int].address_id == h.address_id
    &&& index[h.greatest as int].address_id == h.address_id
}

spec fn holds_address(acc: Seq<Holder>, address_id: i64) -> bool {
    exists|p: int| 0 <= p < acc.len() && (#[trigger] acc[p]).address_id == address_id
}

fn find_holder(acc: &Vec<Holder>, address_id: i64) -> (r: Option<usize>)
    ensures
        match r {
            Some(p) => p < acc@.len() && acc@[p as int].address_id == address_id,
            None => !holds_address(acc@, address_id),
        },
{
    let mut p: usize = 0;
    while p < acc.len()
        invariant
            p <= acc@.len(),
            forall|q: int| 0 <= q < p ==> (#[trigger] acc@[q]).address_id != address_id,
        decreases acc@.len() - p,
    {
        if acc[p].address_id == address_id {
            return Some(p);
        }
        p = p + 1;
    }
    None
}

/// One holder per address that counts, each with its latest row and its row
/// with the greatest key.
fn collect_holders(index: &Vec<MaxUidRow>, asset_uid: i64, height: i32, last: Ghost<i64>) -> (acc:
    Vec<Holder>)
    requires
        crate::db::ascending(crate::db::max_uid_uids(index@), last@),
    ensures
        acc@.len() <= index@.len(),
        forall|p: int|
            0 <= p < acc@.len() ==> holder_ok(
                index@,
                index@.len() as int,
                asset_uid,
                height,
                #[trigger] acc@[p],
            ),
        forall|p: int, q: int|
            0 <= p < q < acc@.len() ==> acc@[p].address_id != acc@[q].address_id,
        forall|k: int|
            0 <= k < index@.len() && qualifies(#[trigger] index@[k], asset_uid, height)
                ==> holds_address(acc@, index@[k].address_id),
{
    let mut acc: Vec<Holder> = Vec::new();
    let mut i: usize = 0;
    while i < index.len()
        invariant
            i <= index@.len(),
            acc@.len() <= i,
            crate::db::ascending(crate::db::max_uid_uids(index@), last@),
            forall|p: int|
                0 <= p < acc@.len() ==> holder_ok(
                    index@,
                    i as int,
                    asset_uid,
                    height,
                    #[trigger] acc@[p],
                ),
            forall|p: int, q: int|
                0 <= p < q < acc@.len() ==> acc@[p].address_id != acc@[q].address_id,
            forall|k: int|
                0 <= k < i && qualifies(#[trigger] index@[k], asset_uid, height) ==> holds_address(
                    acc@,
                    index@[k].address_id,
                ),
        decreases index@.len() - i,
    {
        let m = index[i];
        let ghost before = acc@;
        if m.asset_id == asset_uid && m.height <= height {
            match find_holder(&acc, m.address_id) {
                Some(p) => {
                    let old_latest = acc[p].latest;
                    let latest = if m.balance_history_uid >= index[old_latest].balance_history_uid {
                        i
                    } else {
                        old_latest
                    };
                    let h = Holder { address_id: m.address_id, latest, greatest: i };
                    proof {
                        assert(holder_ok(index@, i as int, asset_uid, height, before[p as int]));
                        assert forall|k: int|
                            0 <= k < i + 1 && qualifies(#[trigger] index@[k], asset_uid, height)
                                && index@[k].address_id == m.address_id implies index@[k].uid
                            <= m.uid by {
                            if k < i {
                                assert(crate::db::max_uid_uids(index@)[k] < crate::db::max_uid_uids(
                                    index@,
                                )[i as int]);
                            }
                        }
                        assert forall|k: int|
                            0 <= k < i + 1 && qualifies(#[trigger] index@[k], asset_uid, height)
                                && index@[k].address_id == m.address_id implies outranks(
                            index@[latest as int],
                            index@[k],
                        ) by {
                            if k < i {
                                assert(outranks(index@[old_latest as int], index@[k]));
                                assert(crate::db::max_uid_uids(index@)[k] < crate::db::max_uid_uids(
                                    index@,
                                )[i as int]);
                            } else {
                                assert(crate::db::max_uid_uids(index@)[old_latest as int]
                                    < crate::db::max_uid_uids(index@)[i as int]);
                            }
                        }
                        assert(holder_ok(index@, i + 1, asset_uid, height, h));
                    }
                    acc.set(p, h);
                    proof {
                        assert forall|q: int| 0 <= q < acc@.len() implies holder_ok(
                            index@,
                            i + 1,
                            asset_uid,
                            height,
                            #[trigger] acc@[q],
                        ) by {
                            if q != p {
                                assert(acc@[q] == before[q]);
                                assert(holder_ok(index@, i as int, asset_uid, height, before[q]));
                                assert(before[q].address_id != before[p as int].address_id);
                            }
                        }
                        assert forall|k: int|
                            0 <= k < i + 1 && qualifies(
                                #[trigger] index@[k],
                                asset_uid,
                                height,
                            ) implies holds_address(acc@, index@[k].address_id) by {
                            if k < i {
                                assert(holds_address(before, index@[k].address_id));
                                let q = choose|q: int|
                                    0 <= q < before.len() && (#[trigger] before[q]).address_id
                                        == index@[k].address_id;
                                assert(acc@[q].address_id == index@[k].address_id);
                            } else {
                                assert(acc@[p as int].address_id == m.address_id);
                            }
                        }
                    }
                },
                None => {
                    let h = Holder { address_id: m.address_id, latest: i, greatest: i };
                    proof {
                        assert forall|k: int|
                            0 <= k < i + 1 && qualifies(#[trigger] index@[k], asset_uid, height)
                                && index@[k].address_id == m.address_id implies k == i by {
                            if k < i {
                                assert(holds_address(before, index@[k].address_id));
                            }
                        }
                        assert(holder_ok(index@, i + 1, asset_uid, height, h));
                    }
                    acc.push(h);
                    proof {
                        assert forall|q: int| 0 <= q < acc@.len() implies holder_ok(
                            index@,
                            i + 1,
                            asset_uid,
                            height,
                            #[trigger] acc@[q],
                        ) by {
                            if q < before.len() {
                                assert(acc@[q] == before[q]);
                                assert(holder_ok(index@, i as int, asset_uid, height, before[q]));
                                assert(before[q].address_id != m.address_id);
                            }
                        }
                        assert forall|k: int|
                            0 <= k < i + 1 && qualifies(
                                #[trigger] index@[k],
                                asset_uid,
                                height,
                            ) implies holds_address(acc@, index@[k].address_id) by {
                            if k < i {
                                assert(holds_address(before, index@[k].address_id));
                                let q = choose|q: int|
                                    0 <= q < before.len() && (#[trigger] before[q]).address_id
                                        == index@[k].address_id;
                                assert(acc@[q].address_id == index@[k].address_id);
                            } else {
                                assert(acc@[before.len() as int].address_id == m.address_id);
                            }
                        }
                    }
                },
            }
        }
        i = i + 1;
    }
    acc
}

/// Keys in order are at least as great as their positions, so there are no
/// more of them than the last key says.
pub proof fn lemma_ascending_len(uids: Seq<i64>, last: i64, n: int)
    requires
        crate::db::ascending(uids, last),
        0 <= n <= uids.len(),
    ensures
        n <= last,
        n > 0 ==> uids[n - 1] >= n,
    decreases n,
{
    if n > 1 {
        lemma_ascending_len(uids, last, n - 1);
        assert(uids[n - 2] < uids[n - 1]);
    } else if n == 1 {
        assert(0 < uids[0] <= last);
    }
}

spec fn unranked(r: SnapshotRow) -> SnapshotRow {
    SnapshotRow { uid: 0, ..r }
}

/// The row shows one of the first `n` holders, with a positive amount.
spec fn from_holders(index: Seq<MaxUidRow>, acc: Seq<Holder>, n: int, r: SnapshotRow) -> bool {
    &&& r.amount > 0
    &&& exists|p: int|
        0 <= p < n && unranked(r) == row_of(
            index,
            (#[trigger] acc[p]).latest as int,
            acc[p].greatest as int,
        )
}

/// The holders with a positive amount, greater amounts first.
fn sort_holders(
    index: &Vec<MaxUidRow>,
    acc: &Vec<Holder>,
    asset_uid: Ghost<i64>,
    height: Ghost<i32>,
) -> (rows: Vec<SnapshotRow>)
    requires
        forall|p: int|
            0 <= p < acc@.len() ==> holder_ok(
                index@,
                index@.len() as int,
                asset_uid@,
                height@,
                #[trigger] acc@[p],
            ),
        forall|p: int, q: int|
            0 <= p < q < acc@.len() ==> acc@[p].address_id != acc@[q].address_id,
    ensures
        rows@.len() <= acc@.len(),
        forall|k: int, l: int| 0 <= k < l < rows@.len() ==> precedes(rows@[k], rows@[l]),
        forall|k: int|
            0 <= k < rows@.len() ==> from_holders(
                index@,
                acc@,
                acc@.len() as int,
                #[trigger] rows@[k],
            ),
        forall|p: int|
            0 <= p < acc@.len() && index@[(#[trigger] acc@[p]).latest as int].amount > 0
                ==> has_address(rows@, acc@[p].address_id),
{
    let mut rows: Vec<SnapshotRow> = Vec::new();
    let mut p: usize = 0;
    while p < acc.len()
        invariant
            p <= acc@.len(),
            rows@.len() <= p,
            forall|p: int|
                0 <= p < acc@.len() ==> holder_ok(
                    index@,
                    index@.len() as int,
                    asset_uid@,
                    height@,
                    #[trigger] acc@[p],
                ),
            forall|p: int, q: int|
                0 <= p < q < acc@.len() ==> acc@[p].address_id != acc@[q].address_id,
            forall|k: int, l: int| 0 <= k < l < rows@.len() ==> precedes(rows@[k], rows@[l]),
            forall|k: int|
                0 <= k < rows@.len() ==> from_holders(index@, acc@, p as int, #[trigger] rows@[k]),
            forall|q: int|
                0 <= q < p && index@[(#[trigger] acc@[q]).latest as int].amount > 0 ==> has_address(
                    rows@,
                    acc@[q].address_id,
                ),
        decreases acc@.len() - p,
    {
        let h = &acc[p];
        assert(holder_ok(index@, index@.len() as int, asset_uid@, height@, *h));
        let latest = index[h.latest];
        let row = SnapshotRow {
            uid: 0,
            address_id: h.address_id,
            max_uid: index[h.greatest].uid,
            max_bh_uid: latest.balance_history_uid,
            amount: latest.amount,
            height: latest.height,
        };
        assert(row == row_of(index@, h.latest as int, h.greatest as int));
        let ghost before = rows@;
        if latest.amount > 0 {
            proof {
                assert forall|k: int| 0 <= k < before.len() implies (#[trigger] before[k]).address_id
                    != row.address_id by {
                    assert(from_holders(index@, acc@, p as int, before[k]));
                    let q = choose|q: int|
                        0 <= q < p && unranked(before[k]) == row_of(
                            index@,
                            (#[trigger] acc@[q]).latest as int,
                            acc@[q].greatest as int,
                        );
                    assert(holder_ok(index@, index@.len() as int, asset_uid@, height@, acc@[q]));
                    assert(acc@[q].address_id != acc@[p as int].address_id);
                }
            }
            let mut at: usize = 0;
            while at < rows.len() && (rows[at].amount > row.amount || (rows[at].amount == row.amount
                && rows[at].address_id < row.address_id))
                invariant
                    at <= rows@.len(),
                    rows@ == before,
                    forall|k: int| 0 <= k < at ==> precedes(#[trigger] rows@[k], row),
                decreases rows@.len() - at,
            {
                at = at + 1;
            }
            rows.insert(at, row);
            proof {
                assert forall|k: int, l: int| 0 <= k < l < rows@.len() implies precedes(
                    rows@[k],
                    rows@[l],
                ) by {
                    if l < at {
                        assert(rows@[k] == before[k] && rows@[l] == before[l]);
                    } else if l == at {
                        assert(rows@[k] == before[k]);
                    } else if k == at {
                        assert(rows@[l] == before[l - 1]);
                        assert(before[at as int].address_id != row.address_id);
                        assert(!precedes(before[at as int], row));
                        if l - 1 > at {
                            assert(precedes(before[at as int], before[l - 1]));
                        }
                    } else if k < at {
                        assert(rows@[k] == before[k] && rows@[l] == before[l - 1]);
                    } else {
                        assert(rows@[k] == before[k - 1] && rows@[l] == before[l - 1]);
                    }
                }
                assert forall|k: int| 0 <= k < rows@.len() implies from_holders(
                    index@,
                    acc@,
                    p + 1,
                    #[trigger] rows@[k],
                ) by {
                    if k == at {
                        assert(unranked(row) == row_of(
                            index@,
                            acc@[p as int].latest as int,
                            acc@[p as int].greatest as int,
                        ));
                    } else {
                        let o = if k < at {
                            before[k]
                        } else {
                            before[k - 1]
                        };
                        assert(rows@[k] == o);
                        assert(from_holders(index@, acc@, p as int, o));
                        let q = choose|q: int|
                            0 <= q < p && unranked(o) == row_of(
                                index@,
                                (#[trigger] acc@[q]).latest as int,
                                acc@[q].greatest as int,
                            );
                        assert(0 <= q < p + 1);
                    }
                }
                assert forall|q: int|
                    0 <= q < p + 1 && index@[(#[trigger] acc@[q]).latest as int].amount
                        > 0 implies has_address(rows@, acc@[q].address_id) by {
                    if q < p {
                        assert(has_address(before, acc@[q].address_id));
                        let k = choose|k: int|
                            0 <= k < before.len() && (#[trigger] before[k]).address_id
                                == acc@[q].address_id;
                        if k < at {
                            assert(rows@[k] == before[k]);
                        } else {
                            assert(rows@[k + 1] == before[k]);
                        }
                    } else {
                        assert(rows@[at as int] == row);
                    }
                }
            }
        } else {
            proof {
                assert forall|k: int| 0 <= k < rows@.len() implies from_holders(
                    index@,
                    acc@,
                    p + 1,
                    #[trigger] rows@[k],
                ) by {
                    assert(from_holders(index@, acc@, p as int, rows@[k]));
                    let q = choose|q: int|
                        0 <= q < p && unranked(rows@[k]) == row_of(
                            index@,
                            (#[trigger] acc@[q]).latest as int,
                            acc@[q].greatest as int,
                        );
                    assert(0 <= q < p + 1);
                }
            }
        }
        p = p + 1;
    }
    rows
}

/// Computes the distribution of an asset at a height from the index.
pub fn distribution_rows(db: &Db, asset_uid: i64, height: i32) -> (rows: Vec<SnapshotRow>)
    requires
        db.wf(),
    ensures
        is_distribution(db.max_uids@, asset_uid, height, rows@),
{
    let acc = collect_holders(&db.max_uids, asset_uid, height, Ghost(db.last_max_uid_uid));
    let mut rows = sort_holders(&db.max_uids, &acc, Ghost(asset_uid), Ghost(height));
    let ghost sorted = rows@;
    let ghost index = db.max_uids@;
    let n = rows.len();
    let mut k: usize = 0;
    proof {
        lemma_ascending_len(crate::db::max_uid_uids(index), db.last_max_uid_uid, index.len() as int);
    }
    while k < n
        invariant
            k <= n,
            n == rows@.len(),
            n == sorted.len(),
            n <= i64::MAX,
            forall|i: int| 0 <= i < n ==> unranked(#[trigger] rows@[i]) == unranked(sorted[i]),
            forall|i: int| 0 <= i < k ==> (#[trigger] rows@[i]).uid == i + 1,
        decreases n - k,
    {
        let mut row = rows[k];
        row.uid = (k as i64) + 1;
        rows.set(k, row);
        k = k + 1;
    }
    proof {
        assert forall|a: int, b: int| 0 <= a < b < rows@.len() implies precedes(
            rows@[a],
            rows@[b],
        ) by {
            assert(precedes(sorted[a], sorted[b]));
            assert(unranked(rows@[a]) == unranked(sorted[a]));
            assert(unranked(rows@[b]) == unranked(sorted[b]));
        }
        assert forall|i: int| 0 <= i < rows@.len() implies is_holder_row(
            index,
            asset_uid,
            height,
            #[trigger] rows@[i],
        ) by {
            assert(from_holders(index, acc@, acc@.len() as int, sorted[i]));
            assert(unranked(rows@[i]) == unranked(sorted[i]));
            let p = choose|p: int|
                0 <= p < acc@.len() && unranked(sorted[i]) == row_of(
                    index,
                    (#[trigger] acc@[p]).latest as int,
                    acc@[p].greatest as int,
                );
            assert(holder_ok(index, index.len() as int, asset_uid, height, acc@[p]));
            let j = acc@[p].latest as int;
            let g = acc@[p].greatest as int;
            assert(unranked(rows@[i]) == row_of(index, j, g));
        }
        assert forall|j: int|
            is_latest_of_address(index, index.len() as int, asset_uid, height, j) && index[j].amount
                > 0 implies has_address(rows@, (#[trigger] index[j]).address_id) by {
            assert(holds_address(acc@, index[j].address_id));
            let p = choose|p: int|
                0 <= p < acc@.len() && (#[trigger] acc@[p]).address_id == index[j].address_id;
            assert(holder_ok(index, index.len() as int, asset_uid, height, acc@[p]));
            let l = acc@[p].latest as int;
            assert(outranks(index[j], index[l]));
            assert(outranks(index[l], index[j]));
            if j != l {
                if j < l {
                    assert(crate::db::max_uid_uids(index)[j] < crate::db::max_uid_uids(index)[l]);
                } else {
                    assert(crate::db::max_uid_uids(index)[l] < crate::db::max_uid_uids(index)[j]);
                }
            }
            assert(has_address(sorted, acc@[p].address_id));
            let k = choose|k: int|
                0 <= k < sorted.len() && (#[trigger] sorted[k]).address_id == acc@[p].address_id;
            assert(unranked(rows@[k]) == unranked(sorted[k]));
            assert(rows@[k].address_id == index[j].address_id);
        }
    }
    rows
}

/// Whether the store holds a snapshot under the key of a task.
pub open spec fn has_snapshot(snapshots: Seq<Snapshot>, task_uid: i64) -> bool {
    exists|i: int| 0 <= i < snapshots.len() && (#[trigger] snapshots[i]).task_uid == task_uid
}

fn find_snapshot(db: &Db, task_uid: i64) -> (r: Option<usize>)
    ensures
        match r {
            Some(i) => i < db.snapshots@.len() && db.snapshots@[i as int].task_uid == task_uid,
            None => !has_snapshot(db.snapshots@, task_uid),
        },
{
    let mut i: usize = 0;
    while i < db.snapshots.len()
        invariant
            i <= db.snapshots@.len(),
            forall|k: int| 0 <= k < i ==> (#[trigger] db.snapshots@[k]).task_uid != task_uid,
        decreases db.snapshots@.len() - i,
    {
        if db.snapshots[i].task_uid == task_uid {
            return Some(i);
        }
        i = i + 1;
    }
    None
}

/// Brings the task with this key to a state; no task with the key, no change.
fn set_task_state(db: &mut Db, uid: i64, state: TaskState, message: Option<&str>)
    requires
        old(db).wf(),
    ensures
        final(db).wf(),
        moved(
            old(db).tasks@,
            final(db).tasks@,
            |t: TaskRow| t.uid == uid,
            state,
            match message {
                Some(m) => Some(m@),
                None => None,
            },
        ),
        *final(db) == (Db { tasks: final(db).tasks, ..*old(db) }),
{
    match find_task(db, uid) {
        Some(i) => {
            set_state_at(db, i, state, message);
        },
        None => {},
    }
}

/// Marks a task as failed, with the reason.
pub fn set_task_error(db: &mut Db, uid: &i64, error: &str)
    requires
        old(db).wf(),
    ensures
        final(db).wf(),
        moved(
            old(db).tasks@,
            final(db).tasks@,
            |t: TaskRow| t.uid == *uid,
            TaskState::Error,
            Some(error@),
        ),
        *final(db) == (Db { tasks: final(db).tasks, ..*old(db) }),
{
    set_task_state(db, *uid, TaskState::Error, Some(error));
}

/// Marks a task as done.
pub fn set_task_done(db: &mut Db, uid: &i64)
    requires
        old(db).wf(),
    ensures
        final(db).wf(),
        moved(old(db).tasks@, final(db).tasks@, |t: TaskRow| t.uid == *uid, TaskState::Done, None),
        *final(db) == (Db { tasks: final(db).tasks, ..*old(db) }),
{
    set_task_state(db, *uid, TaskState::Done, None);
}

/// Marks a task as being worked on.
pub fn set_task_progress(db: &mut Db, uid: &i64)
    requires
        old(db).wf(),
    ensures
        final(db).wf(),
        moved(
            old(db).tasks@,
            final(db).tasks@,
            |t: TaskRow| t.uid == *uid,
            TaskState::Progress,
            None,
        ),
        *final(db) == (Db { tasks: final(db).tasks, ..*old(db) }),
{
    set_task_state(db, *uid, TaskState::Progress, None);
}

/// What working on a task leaves behind. A height above the ledger's fails
/// the task. A task that has a snapshot already is refused and nothing
/// changes. Otherwise the distribution is frozen under the task's key and the
/// task is done.
pub open spec fn task_processed(
    pre: Db,
    task: AssetDistributionTask,
    max_height: i32,
    post: Db,
    r: Result<u8, AppError>,
) -> bool {
    if task.height > max_height {
        &&& r == Ok::<u8, AppError>(1)
        &&& moved(
            pre.tasks@,
            post.tasks@,
            |t: TaskRow| t.uid == task.uid,
            TaskState::Error,
            Some("invalid height"@),
        )
        &&& post == (Db { tasks: post.tasks, ..pre })
    } else if has_snapshot(pre.snapshots@, task.uid) {
        &&& r is Err
        &&& r->Err_0 is DbError
        &&& post == pre
    } else {
        &&& r == Ok::<u8, AppError>(1)
        &&& moved(pre.tasks@, post.tasks@, |t: TaskRow| t.uid == task.uid, TaskState::Done, None)
        &&& post.snapshots@.len() == pre.snapshots@.len() + 1
        &&& post.snapshots@.drop_last() == pre.snapshots@
        &&& post.snapshots@.last().task_uid == task.uid
        &&& post.snapshots@.last().height == task.height
        &&& is_distribution(
            pre.max_uids@,
            task.asset_uid,
            task.height,
            post.snapshots@.last().rows@,
        )
        &&& post == (Db { tasks: post.tasks, snapshots: post.snapshots, ..pre })
    }
}

/// Why a task cannot be worked on: its height is above that of the ledger.
pub fn height_error(task_height: i32, max_height: i32) -> (r: Option<&'static str>)
    ensures
        task_height > max_height ==> r is Some && r->0@ == "invalid height"@,
        task_height <= max_height ==> r is None,
{
    if task_height > max_height {
        Some("invalid height")
    } else {
        None
    }
}

/// Works on one task.
pub fn process_task(db: &mut Db, task: &AssetDistributionTask, max_height: &i32) -> (r: Result<
    u8,
    AppError,
>)
    requires
        old(db).wf(),
    ensures
        final(db).wf(),
        task_processed(*old(db), *task, *max_height, *final(db), r),
{
    match height_error(task.height, *max_height) {
        Some(reason) => {
            set_task_error(db, &task.uid, reason);
            return Ok(1);
        },
        None => {},
    }
    match find_snapshot(db, task.uid) {
        Some(_) => {
            return Err(AppError::DbError(owned("relation already exists")));
        },
        None => {},
    }
    let rows = distribution_rows(db, task.asset_uid, task.height);
    db.snapshots.push(Snapshot { task_uid: task.uid, height: task.height, rows });
    proof {
        assert(db.snapshots@.drop_last() =~= old(db).snapshots@);
        assert forall|i: int, j: int| 0 <= i < j < db.snapshots@.len() implies db.snapshots@[i].task_uid
            != db.snapshots@[j].task_uid by {
            assert(db.snapshots@[i] == old(db).snapshots@[i]);
            if j < old(db).snapshots@.len() {
                assert(db.snapshots@[j] == old(db).snapshots@[j]);
            }
        }
        assert forall|i: int| 0 <= i < db.snapshots@.len() implies ranked(
            (#[trigger] db.snapshots@[i]).rows@,
        ) by {
            if i < old(db).snapshots@.len() {
                assert(db.snapshots@[i] == old(db).snapshots@[i]);
            }
        }
    }
    set_task_done(db, &task.uid);
    Ok(1)
}

/// The height of the latest solidified block, `0` without one.
pub open spec fn tip_height(db: Db) -> i32 {
    let i = last_index_where(db.blocks@, BlockFilter::DurableBlock);
    if i >= 0 {
        db.blocks@[i].height
    } else {
        0
    }
}

/// Takes up the next task, if one waits: marks it as in progress and works
/// on it. Returns the number of tasks taken up.
pub fn refresh(db: &mut Db) -> (r: Result<u8, AppError>)
    requires
        old(db).wf(),
    ensures
        final(db).wf(),
        ({
            let i = next_task_index(old(db).tasks@, old(db).assets@);
            if i == -1 {
                r == Ok::<u8, AppError>(0) && *final(db) == *old(db)
            } else {
                exists|mid: Db, task: AssetDistributionTask|
                    {
                        &&& #[trigger] task_processed(mid, task, tip_height(*old(db)), *final(db), r)
                        &&& moved(
                            old(db).tasks@,
                            mid.tasks@,
                            |t: TaskRow| t.uid == old(db).tasks@[i].uid,
                            TaskState::Progress,
                            None,
                        )
                        &&& mid == (Db { tasks: mid.tasks, ..*old(db) })
                        &&& task.uid == old(db).tasks@[i].uid
                        &&& task.asset_id == old(db).tasks@[i].asset_id
                        &&& task.height == old(db).tasks@[i].height
                        &&& task.asset_uid == crate::db::mappers::unique_address::dictionary(
                            old(db).assets@,
                            old(db).last_asset_uid,
                        ).uid_of(old(db).tasks@[i].asset_id@)
                    }
            }
        }),
{
    let max_height = match get_last_height(db) {
        Some(h) => h,
        None => 0,
    };
    match next_task(db) {
        Some(t) => {
            set_task_progress(db, &t.uid);
            let ghost mid = *db;
            let r = process_task(db, &t, &max_height);
            proof {
                assert(task_processed(mid, t, tip_height(*old(db)), *db, r));
            }
            r
        },
        None => Ok(0),
    }
}

/// A distribution has one row per address: no address stands in two rows.
pub proof fn lemma_distribution_has_one_row_per_address(
    index: Seq<MaxUidRow>,
    last: i64,
    asset_uid: i64,
    height: i32,
    rows: Seq<SnapshotRow>,
)
    requires
        crate::db::ascending(crate::db::max_uid_uids(index), last),
        is_distribution(index, asset_uid, height, rows),
    ensures
        forall|k: int, l: int|
            0 <= k < l < rows.len() ==> rows[k].address_id != rows[l].address_id,
{
    assert forall|k: int, l: int| 0 <= k < l < rows.len() implies rows[k].address_id
        != rows[l].address_id by {
        if rows[k].address_id == rows[l].address_id {
            assert(is_holder_row(index, asset_uid, height, rows[k]));
            assert(is_holder_row(index, asset_uid, height, rows[l]));
            let (j1, g1) = choose|j: int, g: int|
                #![trigger row_of(index, j, g)]
                is_latest_of_address(index, index.len() as int, asset_uid, height, j)
                    && is_greatest_of_address(index, index.len() as int, asset_uid, height, g)
                    && index[g].address_id == index[j].address_id && (SnapshotRow {
                    uid: 0,
                    ..rows[k]
                }) == row_of(index, j, g);
            let (j2, g2) = choose|j: int, g: int|
                #![trigger row_of(index, j, g)]
                is_latest_of_address(index, index.len() as int, asset_uid, height, j)
                    && is_greatest_of_address(index, index.len() as int, asset_uid, height, g)
                    && index[g].address_id == index[j].address_id && (SnapshotRow {
                    uid: 0,
                    ..rows[l]
                }) == row_of(index, j, g);
            assert(index[j1].address_id == index[j2].address_id);
            assert(outranks(index[j1], index[j2]));
            assert(outranks(index[j2], index[j1]));
            if j1 < j2 {
                assert(crate::db::max_uid_uids(index)[j1] < crate::db::max_uid_uids(index)[j2]);
            }
            if j2 < j1 {
                assert(crate::db::max_uid_uids(index)[j2] < crate::db::max_uid_uids(index)[j1]);
            }
            assert(j1 == j2);
            assert(rows[k].amount == rows[l].amount);
            assert(precedes(rows[k], rows[l]));
        }
    }
}

} // verus!
