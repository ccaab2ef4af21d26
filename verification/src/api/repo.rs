//! Reads of the store for the query surface.

use crate::api::error::AppError;
use crate::api::server::DEFAULT_LIMIT;
use crate::api::{
    AssetDistributionItem, AssetDistributionItemView, BalanceEntry, BalanceQuery,
    BalanceResponseItem, BalanceResponseItemView, PG_MAX_BIGINT,
};
use crate::db::mappers::balance_history_max_uids_per_height::{
    lemma_ascending_index_of,
};
use crate::db::mappers::blocks_microblocks::{
    last_index_where, last_matching, shown_height, stored_height, to_shown_height,
    to_stored_height, to_whole_seconds, whole_seconds, BlockFilter,
};
use crate::db::mappers::unique_address::{dictionary, find_text, lemma_index_of_unique};
use crate::db::mappers::distribution_task::{create, find_by_asset_height, has_task};
use crate::db::{
    block_uids, dict_texts, dict_uids, BalanceRow, BlockRow, Db, DictRow, Snapshot, SnapshotRow,
    TaskRow, TaskState,
};
use crate::text::{owned, parse_u32, parse_u32_spec};
use vstd::hash_map::StringHashMap;
use vstd::prelude::*;

verus! {

/// What a request says about the moment that it asks for.
#[derive(Clone, Copy, Debug, PartialEq, Eq, Structural)]
pub enum UidsQuery {
    Nothing,
    ByHeight(u32),
    ByTimestamp(i64),
}

impl UidsQuery {
    pub fn is_none(&self) -> (b: bool)
        ensures
            b == (*self == UidsQuery::Nothing),
    {
        match self {
            UidsQuery::Nothing => true,
            _ => false,
        }
    }
}

/// The moment that a text names: whole seconds since the epoch, counted
/// without leap seconds, and the milliseconds into that second. `None` for a
/// text that is no date and time with an offset.
pub uninterp spec fn utc_time(text: Seq<char>) -> Option<(i64, u32)>;

/// `str::parse::<chrono::DateTime<chrono::Utc>>`, with `timestamp` and
/// `timestamp_subsec_millis` of what it gives: a function of the text alone.
#[verifier::external_body]
pub(crate) fn parse_utc_time(text: &str) -> (r: Option<(i64, u32)>)
    ensures
        r == utc_time(text@),
{
    match text.parse::<chrono::DateTime<chrono::Utc>>() {
        Ok(t) => Some((t.timestamp(), t.timestamp_subsec_millis())),
        Err(_) => None,
    }
}

/// A parameter as the request gives it.
pub open spec fn param(params: Map<Seq<char>, String>, name: Seq<char>) -> Option<Seq<char>> {
    if params.contains_key(name) {
        Some(params[name]@)
    } else {
        None
    }
}

/// How the parameters of a request are read: a height decides if there is
/// one, else a time stamp, else nothing is asked. `Err(true)` stands for a
/// height that is no number, `Err(false)` for a time stamp that is no time.
pub open spec fn uids_query(height: Option<Seq<char>>, timestamp: Option<Seq<char>>) -> Result<
    UidsQuery,
    bool,
> {
    match height {
        Some(v) => match parse_u32_spec(v) {
            Some(h) => Ok(UidsQuery::ByHeight(h)),
            None => Err(true),
        },
        None => match timestamp {
            Some(t) => match utc_time(t) {
                Some(time) => Ok(UidsQuery::ByTimestamp(time.0)),
                None => Err(false),
            },
            None => Ok(UidsQuery::Nothing),
        },
    }
}

/// The key that stands for the moment asked for: of the last record, in key
/// order, at or below the height, or at or before the time; the greatest key
/// there can be when nothing is asked or no record is that early.
pub open spec fn resolved_uid(blocks: Seq<BlockRow>, q: UidsQuery) -> i64 {
    match q {
        UidsQuery::Nothing => PG_MAX_BIGINT,
        UidsQuery::ByHeight(h) => {
            let i = last_index_where(blocks, BlockFilter::HeightAtMost(stored_height(h)));
            if i >= 0 {
                blocks[i].uid
            } else {
                PG_MAX_BIGINT
            }
        },
        UidsQuery::ByTimestamp(t) => {
            let i = last_index_where(blocks, BlockFilter::SecondsAtMost(t));
            if i >= 0 {
                blocks[i].uid
            } else {
                PG_MAX_BIGINT
            }
        },
    }
}

/// Reads the moment that a request asks for.
pub fn read_uids_query(params: &StringHashMap<String>) -> (r: Result<UidsQuery, AppError>)
    ensures
        match uids_query(param(params@, "height"@), param(params@, "timestamp"@)) {
            Ok(q) => r == Ok::<UidsQuery, AppError>(q),
            Err(height) => r is Err && r->Err_0 is InvalidQueryString && r->Err_0.message() == if height {
                "invalid parameter height"@
            } else {
                "invalid timestamp"@
            },
        },
{
    match params.get("height") {
        Some(v) => match parse_u32(v.as_str()) {
            Some(h) => Ok(UidsQuery::ByHeight(h)),
            None => Err(AppError::InvalidQueryString(owned("invalid parameter height"))),
        },
        None => match params.get("timestamp") {
            Some(t) => match parse_utc_time(t.as_str()) {
                Some(time) => Ok(UidsQuery::ByTimestamp(time.0)),
                None => Err(AppError::InvalidQueryString(owned("invalid timestamp"))),
            },
            None => Ok(UidsQuery::Nothing),
        },
    }
}

/// Finds the key for a moment.
pub fn resolve_uid(db: &Db, q: UidsQuery) -> (uid: i64)
    ensures
        uid == resolved_uid(db.blocks@, q),
{
    let found = match q {
        UidsQuery::Nothing => None,
        UidsQuery::ByHeight(h) => last_matching(
            &db.blocks,
            &BlockFilter::HeightAtMost(to_stored_height(h)),
        ),
        UidsQuery::ByTimestamp(t) => last_matching(&db.blocks, &BlockFilter::SecondsAtMost(t)),
    };
    match found {
        Some(i) => db.blocks[i].uid,
        None => PG_MAX_BIGINT,
    }
}

/// The key up to which a request wants balances: from its `height`, else
/// from its `timestamp`, else the latest.
pub fn get_uids_from_req(db: &Db, params: &StringHashMap<String>) -> (r: Result<i64, AppError>)
    ensures
        match uids_query(param(params@, "height"@), param(params@, "timestamp"@)) {
            Ok(q) => r == Ok::<i64, AppError>(resolved_uid(db.blocks@, q)),
            Err(height) => r is Err && r->Err_0 is InvalidQueryString && r->Err_0.message() == if height {
                "invalid parameter height"@
            } else {
                "invalid timestamp"@
            },
        },
{
    match read_uids_query(params) {
        Ok(q) => Ok(resolve_uid(db, q)),
        Err(e) => Err(e),
    }
}

/// With nothing asked the key is the greatest there can be; with a height at
/// or above that of the last record it is the key of the last record.
pub proof fn lemma_resolved_uid_at_the_ends(blocks: Seq<BlockRow>, h: u32)
    ensures
        resolved_uid(blocks, UidsQuery::Nothing) == PG_MAX_BIGINT,
        blocks.len() > 0 && blocks.last().height <= stored_height(h) ==> resolved_uid(
            blocks,
            UidsQuery::ByHeight(h),
        ) == blocks.last().uid,
{
}

/// The key of a text in a dictionary, if the dictionary knows the text.
pub fn lookup(rows: &Vec<DictRow>, t: &String, last: i64) -> (r: Option<i64>)
    requires
        crate::db::dict_wf(rows@, last),
    ensures
        r == if dict_texts(rows@).contains(t@) {
            Some(dictionary(rows@, last).uid_of(t@))
        } else {
            None
        },
{
    match find_text(rows, t) {
        Some(k) => {
            proof {
                assert(dict_texts(rows@)[k as int] == t@);
                lemma_index_of_unique(dict_texts(rows@), k as int);
                assert(dict_uids(rows@)[k as int] == rows@[k as int].uid);
            }
            Some(rows[k].uid)
        },
        None => None,
    }
}

/// A balance row of the address and asset, of a block with a key up to `uid`.
pub open spec fn in_scope(b: BalanceRow, uid: i64, address_id: i64, asset_id: i64) -> bool {
    b.block_uid <= uid && b.address_id == address_id && b.asset_id == asset_id
}

/// `a` states a later balance than `b`: after a later block, or after the
/// same block and written later.
pub open spec fn later(a: BalanceRow, b: BalanceRow) -> bool {
    a.block_uid > b.block_uid || (a.block_uid == b.block_uid && a.uid > b.uid)
}

/// Position of the balance that holds at `uid`: of the rows in scope the one
/// after the latest block, and of several after that block the one written
/// last; `-1` when no row is in scope.
pub open spec fn balance_position(
    balances: Seq<BalanceRow>,
    uid: i64,
    address_id: i64,
    asset_id: i64,
) -> int
    decreases balances.len(),
{
    if balances.len() == 0 {
        -1
    } else {
        let p = balance_position(balances.drop_last(), uid, address_id, asset_id);
        let r = balances.last();
        if in_scope(r, uid, address_id, asset_id) && (p < 0 || !later(balances[p], r)) {
            balances.len() - 1
        } else {
            p
        }
    }
}

/// `balance_position` names a row in scope than which no row in scope is
/// later; `-1` stands for no row in scope at all.
pub proof fn lemma_balance_position(
    balances: Seq<BalanceRow>,
    last: i64,
    uid: i64,
    address_id: i64,
    asset_id: i64,
)
    requires
        crate::db::ascending(crate::db::balance_uids(balances), last),
    ensures
        ({
            let p = balance_position(balances, uid, address_id, asset_id);
            &&& -1 <= p < balances.len()
            &&& p >= 0 ==> in_scope(balances[p], uid, address_id, asset_id)
            &&& forall|k: int|
                0 <= k < balances.len() && in_scope(
                    #[trigger] balances[k],
                    uid,
                    address_id,
                    asset_id,
                ) ==> p >= 0 && !later(balances[k], balances[p])
        }),
    decreases balances.len(),
{
    if balances.len() > 0 {
        let rest = balances.drop_last();
        assert(crate::db::balance_uids(rest) =~= crate::db::balance_uids(balances).drop_last());
        lemma_balance_position(rest, last, uid, address_id, asset_id);
        let q = balance_position(rest, uid, address_id, asset_id);
        let p = balance_position(balances, uid, address_id, asset_id);
        let r = balances.last();
        assert forall|k: int|
            0 <= k < balances.len() && in_scope(
                #[trigger] balances[k],
                uid,
                address_id,
                asset_id,
            ) implies p >= 0 && !later(balances[k], balances[p]) by {
            if k < balances.len() - 1 {
                assert(rest[k] == balances[k]);
                assert(!later(rest[k], rest[q]));
                assert(crate::db::balance_uids(balances)[k] < crate::db::balance_uids(
                    balances,
                )[balances.len() - 1]);
            }
        }
    }
}

/// The balance of an address in an asset at `uid`, as it is shown: nothing
/// when a dictionary lacks the address or the asset, or no row is in scope.
pub open spec fn balance_item(db: Db, uid: i64, address: Seq<char>, asset: Seq<char>) -> Option<
    BalanceResponseItemView,
> {
    if !dict_texts(db.addresses@).contains(address) || !dict_texts(db.assets@).contains(asset) {
        None
    } else {
        let p = balance_position(
            db.balances@,
            uid,
            dictionary(db.addresses@, db.last_address_uid).uid_of(address),
            dictionary(db.assets@, db.last_asset_uid).uid_of(asset),
        );
        if p < 0 {
            None
        } else {
            let b = db.balances@[p];
            let k = block_uids(db.blocks@).index_of(b.block_uid);
            Some(
                BalanceResponseItemView {
                    address,
                    asset_id: asset,
                    amount: b.amount,
                    block_height: db.blocks@[k].height,
                    block_timestamp: whole_seconds(db.blocks@[k].time_stamp) as i64,
                },
            )
        }
    }
}

fn find_balance(balances: &Vec<BalanceRow>, uid: i64, address_id: i64, asset_id: i64) -> (r: Option<
    usize,
>)
    ensures
        match r {
            Some(p) => p as int == balance_position(balances@, uid, address_id, asset_id) && p
                < balances@.len(),
            None => balance_position(balances@, uid, address_id, asset_id) == -1,
        },
{
    let mut best: Option<usize> = None;
    let mut i: usize = 0;
    assert(balances@.subrange(0, 0) =~= Seq::<BalanceRow>::empty());
    while i < balances.len()
        invariant
            i <= balances@.len(),
            match best {
                Some(p) => p as int == balance_position(
                    balances@.subrange(0, i as int),
                    uid,
                    address_id,
                    asset_id,
                ) && p < i,
                None => balance_position(balances@.subrange(0, i as int), uid, address_id, asset_id)
                    == -1,
            },
        decreases balances@.len() - i,
    {
        let r = balances[i];
        proof {
            assert(balances@.subrange(0, i + 1).drop_last() =~= balances@.subrange(0, i as int));
            assert(balances@.subrange(0, i + 1).last() == r);
        }
        if r.block_uid <= uid && r.address_id == address_id && r.asset_id == asset_id {
            match best {
                Some(p) => {
                    let o = balances[p];
                    assert(balances@.subrange(0, i + 1)[p as int] == o);
                    if !(o.block_uid > r.block_uid || (o.block_uid == r.block_uid && o.uid
                        > r.uid)) {
                        best = Some(i);
                    }
                },
                None => {
                    best = Some(i);
                },
            }
        }
        i = i + 1;
    }
    assert(balances@.subrange(0, i as int) =~= balances@);
    best
}

fn block_position(blocks: &Vec<BlockRow>, block_uid: i64, last: Ghost<i64>) -> (k: usize)
    requires
        crate::db::ascending(block_uids(blocks@), last@),
        block_uids(blocks@).contains(block_uid),
    ensures
        k as int == block_uids(blocks@).index_of(block_uid),
        k < blocks@.len(),
{
    let mut i: usize = 0;
    while i < blocks.len()
        invariant
            i <= blocks@.len(),
            crate::db::ascending(block_uids(blocks@), last@),
            block_uids(blocks@).contains(block_uid),
            forall|k: int| 0 <= k < i ==> block_uids(blocks@)[k] != block_uid,
        decreases blocks@.len() - i,
    {
        if blocks[i].uid == block_uid {
            proof {
                assert(block_uids(blocks@)[i as int] == block_uid);
                lemma_ascending_index_of(block_uids(blocks@), last@, i as int);
            }
            return i;
        }
        i = i + 1;
    }
    proof {
        let k = choose|k: int|
            0 <= k < block_uids(blocks@).len() && block_uids(blocks@)[k] == block_uid;
        assert(false);
    }
    0
}

/// The balance of one address in one asset at `uid`.
pub fn balance_query(db: &Db, uid: &i64, e: &BalanceEntry) -> (r: Option<BalanceResponseItem>)
    requires
        db.wf(),
    ensures
        match r {
            Some(item) => balance_item(*db, *uid, e.address@, e.asset_id@) == Some(item@),
            None => balance_item(*db, *uid, e.address@, e.asset_id@) is None,
        },
{
    let address_id = match lookup(&db.addresses, &e.address, db.last_address_uid) {
        Some(a) => a,
        None => {
            return None;
        },
    };
    let asset_id = match lookup(&db.assets, &e.asset_id, db.last_asset_uid) {
        Some(a) => a,
        None => {
            return None;
        },
    };
    match find_balance(&db.balances, *uid, address_id, asset_id) {
        Some(p) => {
            let b = db.balances[p];
            let k = block_position(&db.blocks, b.block_uid, Ghost(db.last_block_uid));
            Some(
                BalanceResponseItem {
                    address: e.address.clone(),
                    asset_id: e.asset_id.clone(),
                    amount: b.amount,
                    block_height: db.blocks[k].height,
                    block_timestamp: to_whole_seconds(db.blocks[k].time_stamp),
                },
            )
        },
        None => None,
    }
}

pub open spec fn items_view(items: Seq<BalanceResponseItem>) -> Seq<BalanceResponseItemView> {
    items.map_values(|i: BalanceResponseItem| i@)
}

pub open spec fn pairs_view(pairs: Seq<BalanceEntry>) -> Seq<(Seq<char>, Seq<char>)> {
    pairs.map_values(|e: BalanceEntry| (e.address@, e.asset_id@))
}

/// The balances at `uid` of some pairs of address and asset, in the order of
/// the pairs; a pair without a balance gives none.
pub open spec fn balance_items(db: Db, uid: i64, pairs: Seq<(Seq<char>, Seq<char>)>) -> Seq<
    BalanceResponseItemView,
>
    decreases pairs.len(),
{
    if pairs.len() == 0 {
        Seq::empty()
    } else {
        let rest = balance_items(db, uid, pairs.drop_last());
        match balance_item(db, uid, pairs.last().0, pairs.last().1) {
            Some(i) => rest.push(i),
            None => rest,
        }
    }
}

fn balances_of(db: &Db, uid: &i64, pairs: &Vec<BalanceEntry>) -> (r: Vec<BalanceResponseItem>)
    requires
        db.wf(),
    ensures
        items_view(r@) == balance_items(*db, *uid, pairs_view(pairs@)),
{
    let mut out: Vec<BalanceResponseItem> = Vec::new();
    let ghost pv = pairs_view(pairs@);
    let mut i: usize = 0;
    proof {
        assert(pv.subrange(0, 0) =~= Seq::<(Seq<char>, Seq<char>)>::empty());
        assert(items_view(out@) =~= Seq::<BalanceResponseItemView>::empty());
    }
    while i < pairs.len()
        invariant
            i <= pairs@.len(),
            db.wf(),
            pv == pairs_view(pairs@),
            items_view(out@) == balance_items(*db, *uid, pv.subrange(0, i as int)),
        decreases pairs@.len() - i,
    {
        proof {
            assert(pv.subrange(0, i + 1).drop_last() =~= pv.subrange(0, i as int));
            assert(pv.subrange(0, i + 1).last() == (pairs@[i as int].address@, pairs@[i as int].asset_id@));
        }
        match balance_query(db, uid, &pairs[i]) {
            Some(item) => {
                let ghost before = out@;
                out.push(item);
                assert(items_view(out@) =~= items_view(before).push(item@));
            },
            None => {},
        }
        i = i + 1;
    }
    assert(pv.subrange(0, i as int) =~= pv);
    out
}

/// The balances at `uid` of the pairs of a query.
pub fn get_balances_by_pairs(db: &Db, uid: &i64, req: &BalanceQuery) -> (r: Vec<BalanceResponseItem>)
    requires
        db.wf(),
    ensures
        items_view(r@) == balance_items(*db, *uid, pairs_view(req.address_asset_pairs@)),
{
    balances_of(db, uid, &req.address_asset_pairs)
}

/// The keys of the assets that an address has rows for and that the
/// dictionary knows, each once, in the order of their first rows.
pub open spec fn touched_assets(balances: Seq<BalanceRow>, address_id: i64, assets: Seq<DictRow>) -> Seq<
    i64,
>
    decreases balances.len(),
{
    if balances.len() == 0 {
        Seq::empty()
    } else {
        let rest = touched_assets(balances.drop_last(), address_id, assets);
        let r = balances.last();
        if r.address_id == address_id && dict_uids(assets).contains(r.asset_id) && !rest.contains(
            r.asset_id,
        ) {
            rest.push(r.asset_id)
        } else {
            rest
        }
    }
}

/// The text that a dictionary has for a key.
pub open spec fn text_of_uid(rows: Seq<DictRow>, uid: i64) -> Seq<char> {
    rows[dict_uids(rows).index_of(uid)].text@
}

/// The pairs of an address with each asset that it has rows for.
pub open spec fn address_pairs(db: Db, address: Seq<char>) -> Seq<(Seq<char>, Seq<char>)> {
    if !dict_texts(db.addresses@).contains(address) {
        Seq::empty()
    } else {
        touched_assets(
            db.balances@,
            dictionary(db.addresses@, db.last_address_uid).uid_of(address),
            db.assets@,
        ).map_values(|a: i64| (address, text_of_uid(db.assets@, a)))
    }
}

fn find_uid(rows: &Vec<DictRow>, uid: i64, last: Ghost<i64>) -> (r: Option<usize>)
    requires
        crate::db::ascending(dict_uids(rows@), last@),
    ensures
        match r {
            Some(k) => k as int == dict_uids(rows@).index_of(uid) && k < rows@.len()
                && dict_uids(rows@).contains(uid),
            None => !dict_uids(rows@).contains(uid),
        },
{
    let mut i: usize = 0;
    while i < rows.len()
        invariant
            i <= rows@.len(),
            crate::db::ascending(dict_uids(rows@), last@),
            forall|k: int| 0 <= k < i ==> dict_uids(rows@)[k] != uid,
        decreases rows@.len() - i,
    {
        if rows[i].uid == uid {
            proof {
                assert(dict_uids(rows@)[i as int] == uid);
                lemma_ascending_index_of(dict_uids(rows@), last@, i as int);
            }
            return Some(i);
        }
        i = i + 1;
    }
    None
}

fn contains_id(ids: &Vec<i64>, id: i64) -> (b: bool)
    ensures
        b == ids@.contains(id),
{
    let mut i: usize = 0;
    while i < ids.len()
        invariant
            i <= ids@.len(),
            forall|k: int| 0 <= k < i ==> ids@[k] != id,
        decreases ids@.len() - i,
    {
        if ids[i] == id {
            return true;
        }
        i = i + 1;
    }
    false
}

/// The assets that an address has ever had a balance in, each paired with
/// the address.
pub fn distinct_assets_by_address(db: &Db, address: &String) -> (r: Vec<BalanceEntry>)
    requires
        db.wf(),
    ensures
        pairs_view(r@) == address_pairs(*db, address@),
{
    let mut out: Vec<BalanceEntry> = Vec::new();
    let address_id = match lookup(&db.addresses, address, db.last_address_uid) {
        Some(a) => a,
        None => {
            assert(pairs_view(out@) =~= Seq::<(Seq<char>, Seq<char>)>::empty());
            return out;
        },
    };
    let mut ids: Vec<i64> = Vec::new();
    let mut i: usize = 0;
    let ghost pair = |a: i64| (address@, text_of_uid(db.assets@, a));
    proof {
        assert(db.balances@.subrange(0, 0) =~= Seq::<BalanceRow>::empty());
        assert(pairs_view(out@) =~= ids@.map_values(pair));
    }
    while i < db.balances.len()
        invariant
            i <= db.balances@.len(),
            db.wf(),
            pair == |a: i64| (address@, text_of_uid(db.assets@, a)),
            ids@ == touched_assets(db.balances@.subrange(0, i as int), address_id, db.assets@),
            pairs_view(out@) == ids@.map_values(pair),
        decreases db.balances@.len() - i,
    {
        let r = db.balances[i];
        proof {
            assert(db.balances@.subrange(0, i + 1).drop_last() =~= db.balances@.subrange(
                0,
                i as int,
            ));
            assert(db.balances@.subrange(0, i + 1).last() == r);
        }
        if r.address_id == address_id && !contains_id(&ids, r.asset_id) {
            match find_uid(&db.assets, r.asset_id, Ghost(db.last_asset_uid)) {
                Some(k) => {
                    let ghost ids0 = ids@;
                    let ghost out0 = out@;
                    ids.push(r.asset_id);
                    out.push(
                        BalanceEntry { address: address.clone(), asset_id: db.assets[k].text.clone() },
                    );
                    proof {
                        assert(pairs_view(out@) =~= pairs_view(out0).push(
                            (address@, db.assets@[k as int].text@),
                        ));
                        assert(ids@.map_values(pair) =~= ids0.map_values(pair).push(
                            pair(r.asset_id),
                        ));
                    }
                },
                None => {},
            }
        }
        i = i + 1;
    }
    assert(db.balances@.subrange(0, i as int) =~= db.balances@);
    out
}

/// The balances at `uid` of an address in every asset that it has rows for.
pub fn all_assets_by_address(db: &Db, address: &String, uid: &i64) -> (r: Vec<BalanceResponseItem>)
    requires
        db.wf(),
    ensures
        items_view(r@) == balance_items(*db, *uid, address_pairs(*db, address@)),
{
    let assets = distinct_assets_by_address(db, address);
    balances_of(db, uid, &assets)
}

/// The height of the latest solidified record; `0` without one.
pub fn last_solidified_height(db: &Db) -> (h: u32)
    ensures
        h == ({
            let i = last_index_where(db.blocks@, BlockFilter::Solidified);
            if i >= 0 {
                shown_height(db.blocks@[i].height)
            } else {
                0
            }
        }),
{
    match last_matching(&db.blocks, &BlockFilter::Solidified) {
        Some(i) => to_shown_height(db.blocks[i].height),
        None => 0,
    }
}

/// A distribution as a request finds it.
pub enum AssetDistribution {
    /// The page, whether more follows, and the rank to go on from.
    Exist((Vec<AssetDistributionItem>, bool, i64)),
    NoData,
    InProgress,
}

/// A task as a request sees it.
#[derive(Debug)]
pub struct AssetDistributionTask {
    pub uid: i64,
    pub asset_id: String,
    pub height: i32,
    pub task_state: String,
    pub error_message: String,
}

pub open spec fn state_text(s: TaskState) -> Seq<char> {
    match s {
        TaskState::New => "new"@,
        TaskState::Progress => "progress"@,
        TaskState::Done => "done"@,
        TaskState::Error => "error"@,
    }
}

/// The task for an asset and a height, if the queue has one.
pub open spec fn task_for(tasks: Seq<TaskRow>, asset_id: Seq<char>, height: i32) -> TaskRow {
    tasks[choose|i: int|
        0 <= i < tasks.len() && (#[trigger] tasks[i]).asset_id@ == asset_id && tasks[i].height
            == height]
}

/// The task for an asset and a height.
pub fn asset_distribution_task_by_asset_id_height(db: &Db, asset_id: &String, height: &i32) -> (r:
    Option<AssetDistributionTask>)
    requires
        db.wf(),
    ensures
        match r {
            Some(t) => {
                let row = task_for(db.tasks@, asset_id@, *height);
                &&& has_task(db.tasks@, asset_id@, *height)
                &&& t.uid == row.uid
                &&& t.asset_id == row.asset_id
                &&& t.height == row.height
                &&& t.task_state@ == state_text(row.state)
                &&& t.error_message@ == match row.error_message {
                    Some(m) => m@,
                    None => Seq::empty(),
                }
            },
            None => !has_task(db.tasks@, asset_id@, *height),
        },
{
    match find_by_asset_height(db, asset_id, *height) {
        Some(i) => {
            let row = &db.tasks[i];
            proof {
                let j = choose|j: int|
                    0 <= j < db.tasks@.len() && (#[trigger] db.tasks@[j]).asset_id@ == asset_id@
                        && db.tasks@[j].height == *height;
                assert(j == i) by {
                    if j < i {
                        assert(!(db.tasks@[j].asset_id@ == db.tasks@[i as int].asset_id@
                            && db.tasks@[j].height == db.tasks@[i as int].height));
                    }
                    if i < j {
                        assert(!(db.tasks@[i as int].asset_id@ == db.tasks@[j].asset_id@
                            && db.tasks@[i as int].height == db.tasks@[j].height));
                    }
                }
            }
            let task_state = match row.state {
                TaskState::New => owned("new"),
                TaskState::Progress => owned("progress"),
                TaskState::Done => owned("done"),
                TaskState::Error => owned("error"),
            };
            let error_message = match &row.error_message {
                Some(m) => m.clone(),
                None => String::new(),
            };
            Some(
                AssetDistributionTask {
                    uid: row.uid,
                    asset_id: row.asset_id.clone(),
                    height: row.height,
                    task_state,
                    error_message,
                },
            )
        },
        None => None,
    }
}

/// Status of a request that made something.
pub const CREATED: u16 = 201;

/// Status of a request that was taken, with nothing new to show.
pub const ACCEPTED: u16 = 202;

/// Queues a distribution task. A task that is queued already stays as it
/// is, and the request is accepted; a new one is created.
pub fn create_asset_distribution_task(db: &mut Db, asset_id: &String, height: &i32) -> (status: u16)
    requires
        old(db).wf(),
        old(db).last_task_uid < i64::MAX,
    ensures
        final(db).wf(),
        has_task(final(db).tasks@, asset_id@, *height),
        if has_task(old(db).tasks@, asset_id@, *height) {
            status == ACCEPTED && *final(db) == *old(db)
        } else {
            &&& status == CREATED
            &&& final(db).tasks@ == old(db).tasks@.push(
                TaskRow {
                    uid: (old(db).last_task_uid + 1) as i64,
                    asset_id: *asset_id,
                    height: *height,
                    state: TaskState::New,
                    error_message: None,
                },
            )
            &&& *final(db) == (Db {
                tasks: final(db).tasks,
                last_task_uid: (old(db).last_task_uid + 1) as i64,
                ..*old(db)
            })
        },
{
    match asset_distribution_task_by_asset_id_height(db, asset_id, height) {
        Some(_) => ACCEPTED,
        None => match create(db, asset_id, height) {
            Some(_) => {
                assert(db.tasks@[old(db).tasks@.len() as int].asset_id@ == asset_id@);
                CREATED
            },
            None => ACCEPTED,
        },
    }
}

/// A row of a snapshot that a page after `after` can show: of a later rank,
/// for an address that the dictionary knows.
pub open spec fn on_page(r: SnapshotRow, addresses: Seq<DictRow>, after: i64) -> bool {
    r.uid > after && dict_uids(addresses).contains(r.address_id)
}

/// The rows that follow rank `after`, in rank order.
pub open spec fn page_source(rows: Seq<SnapshotRow>, addresses: Seq<DictRow>, after: i64) -> Seq<
    SnapshotRow,
> {
    rows.filter(|r: SnapshotRow| on_page(r, addresses, after))
}

/// The rows of one page: the first hundred of the source.
pub open spec fn page_rows(source: Seq<SnapshotRow>) -> Seq<SnapshotRow> {
    if source.len() > DEFAULT_LIMIT {
        source.subrange(0, DEFAULT_LIMIT as int)
    } else {
        source
    }
}

/// Whether more rows follow the page.
pub open spec fn page_has_next(source: Seq<SnapshotRow>) -> bool {
    source.len() > DEFAULT_LIMIT
}

/// The rank to go on from: one below the first row after the page; without
/// such a row the rank of the page's last row; `0` for an empty page.
pub open spec fn page_last_uid(source: Seq<SnapshotRow>) -> int {
    if source.len() > DEFAULT_LIMIT {
        source[DEFAULT_LIMIT as int].uid - 1
    } else if source.len() == 0 {
        0
    } else {
        source.last().uid as int
    }
}

pub open spec fn item_of(r: SnapshotRow, addresses: Seq<DictRow>) -> AssetDistributionItemView {
    AssetDistributionItemView {
        uid: r.uid,
        address: text_of_uid(addresses, r.address_id),
        amount: r.amount,
        height: r.height,
    }
}

pub open spec fn distribution_items_view(items: Seq<AssetDistributionItem>) -> Seq<
    AssetDistributionItemView,
> {
    items.map_values(|i: AssetDistributionItem| i@)
}

/// The snapshot of a task.
pub open spec fn snapshot_of(snapshots: Seq<Snapshot>, task_uid: i64) -> Snapshot {
    snapshots[choose|i: int|
        0 <= i < snapshots.len() && (#[trigger] snapshots[i]).task_uid == task_uid]
}

/// What a request for a page of a distribution finds.
pub open spec fn distribution_found(
    db: Db,
    asset_id: Seq<char>,
    height: i32,
    after_uid: Option<i64>,
    r: Result<AssetDistribution, AppError>,
) -> bool {
    if !has_task(db.tasks@, asset_id, height) {
        r is Ok && r->Ok_0 is NoData
    } else {
        let task = task_for(db.tasks@, asset_id, height);
        if task.state != TaskState::Done {
            r is Ok && r->Ok_0 is InProgress
        } else if !crate::db::mappers::asset_distribution::has_snapshot(db.snapshots@, task.uid) {
            r is Err && r->Err_0 is DbError
        } else {
            let after = match after_uid {
                Some(a) => a,
                None => 0,
            };
            let source = page_source(
                snapshot_of(db.snapshots@, task.uid).rows@,
                db.addresses@,
                after,
            );
            &&& r is Ok
            &&& r->Ok_0 is Exist
            &&& distribution_items_view(r->Ok_0->Exist_0.0@) == page_rows(source).map_values(
                |row: SnapshotRow| item_of(row, db.addresses@),
            )
            &&& r->Ok_0->Exist_0.1 == page_has_next(source)
            &&& r->Ok_0->Exist_0.2 == page_last_uid(source)
        }
    }
}

/// Makes a page of the rows that were read for it, one more than a page
/// holds at most: a row beyond the page is taken off and says that more
/// follows; the rank to go on from is one below that row's, else that of the
/// last row, `0` without rows.
pub fn paginate(rows: Vec<AssetDistributionItem>) -> (r: (Vec<AssetDistributionItem>, bool, i64))
    requires
        rows@.len() > DEFAULT_LIMIT ==> rows@.last().uid > i64::MIN,
    ensures
        rows@.len() == 0 ==> r.0@.len() == 0 && !r.1 && r.2 == 0,
        0 < rows@.len() <= DEFAULT_LIMIT ==> r.0@ == rows@ && !r.1 && r.2 == rows@.last().uid,
        rows@.len() > DEFAULT_LIMIT ==> r.0@ == rows@.drop_last() && r.1 && r.2
            == rows@.last().uid - 1,
{
    let mut rows = rows;
    if rows.len() == 0 {
        return (rows, false, 0);
    }
    if rows.len() > 100 {
        let last = rows.pop().unwrap();
        (rows, true, last.uid - 1)
    } else {
        let last_uid = rows[rows.len() - 1].uid;
        (rows, false, last_uid)
    }
}

/// One page of the distribution of an asset at a height: the holders after
/// rank `after_uid`, a hundred at most.
pub fn asset_distribution(db: &Db, asset_id: &String, height: &i32, after_uid: Option<i64>) -> (r:
    Result<AssetDistribution, AppError>)
    requires
        db.wf(),
    ensures
        distribution_found(*db, asset_id@, *height, after_uid, r),
{
    let i = match find_by_asset_height(db, asset_id, *height) {
        Some(i) => i,
        None => {
            return Ok(AssetDistribution::NoData);
        },
    };
    proof {
        let j = choose|j: int|
            0 <= j < db.tasks@.len() && (#[trigger] db.tasks@[j]).asset_id@ == asset_id@
                && db.tasks@[j].height == *height;
        assert(j == i) by {
            if j < i {
                assert(!(db.tasks@[j].asset_id@ == db.tasks@[i as int].asset_id@
                    && db.tasks@[j].height == db.tasks@[i as int].height));
            }
            if i < j {
                assert(!(db.tasks@[i as int].asset_id@ == db.tasks@[j].asset_id@
                    && db.tasks@[i as int].height == db.tasks@[j].height));
            }
        }
    }
    let task = &db.tasks[i];
    if task.state != TaskState::Done {
        return Ok(AssetDistribution::InProgress);
    }
    let mut s: usize = 0;
    while s < db.snapshots.len() && db.snapshots[s].task_uid != task.uid
        invariant
            s <= db.snapshots@.len(),
            forall|k: int| 0 <= k < s ==> (#[trigger] db.snapshots@[k]).task_uid != task.uid,
        decreases db.snapshots@.len() - s,
    {
        s = s + 1;
    }
    if s == db.snapshots.len() {
        return Err(AppError::DbError(owned("relation does not exist")));
    }
    proof {
        let j = choose|j: int|
            0 <= j < db.snapshots@.len() && (#[trigger] db.snapshots@[j]).task_uid == task.uid;
        assert(j == s) by {
            if j < s {
                assert(db.snapshots@[j].task_uid != db.snapshots@[s as int].task_uid);
            }
            if s < j {
                assert(db.snapshots@[s as int].task_uid != db.snapshots@[j].task_uid);
            }
        }
    }
    let rows = &db.snapshots[s].rows;
    let after = match after_uid {
        Some(a) => a,
        None => 0,
    };
    let ghost keep = |r: SnapshotRow| on_page(r, db.addresses@, after);
    let mut source: Vec<SnapshotRow> = Vec::new();
    let mut k: usize = 0;
    proof {
        reveal(Seq::filter);
        assert(rows@.subrange(0, 0) =~= Seq::<SnapshotRow>::empty());
    }
    while k < rows.len()
        invariant
            k <= rows@.len(),
            db.wf(),
            keep == |r: SnapshotRow| on_page(r, db.addresses@, after),
            source@ == rows@.subrange(0, k as int).filter(keep),
            forall|a: int| 0 <= a < source@.len() ==> on_page(#[trigger] source@[a], db.addresses@, after),
        decreases rows@.len() - k,
    {
        let row = rows[k];
        proof {
            rows@.subrange(0, k as int).lemma_filter_push(row, keep);
            assert(rows@.subrange(0, k as int).push(row) =~= rows@.subrange(0, k + 1));
        }
        if row.uid > after {
            match find_uid(&db.addresses, row.address_id, Ghost(db.last_address_uid)) {
                Some(_) => {
                    source.push(row);
                },
                None => {},
            }
        }
        k = k + 1;
    }
    assert(rows@.subrange(0, k as int) =~= rows@);
    let n = if source.len() > 101 {
        101
    } else {
        source.len()
    };
    let mut items: Vec<AssetDistributionItem> = Vec::new();
    let mut a: usize = 0;
    while a < n
        invariant
            a <= n,
            n <= source@.len(),
            db.wf(),
            forall|a: int| 0 <= a < source@.len() ==> on_page(#[trigger] source@[a], db.addresses@, after),
            items@.len() == a,
            forall|b: int| 0 <= b < a ==> (#[trigger] items@[b])@ == item_of(source@[b], db.addresses@),
        decreases n - a,
    {
        let row = source[a];
        assert(on_page(source@[a as int], db.addresses@, after));
        match find_uid(&db.addresses, row.address_id, Ghost(db.last_address_uid)) {
            Some(p) => {
                items.push(
                    AssetDistributionItem {
                        uid: row.uid,
                        address: db.addresses[p].text.clone(),
                        amount: row.amount,
                        height: row.height,
                    },
                );
            },
            None => {
                assert(false);
            },
        }
        a = a + 1;
    }
    proof {
        if n > 100 {
            assert(on_page(source@[n - 1], db.addresses@, after));
            assert(items@[n - 1]@ == item_of(source@[n - 1], db.addresses@));
        }
    }
    let ghost read = items@;
    let (items, has_next, last_uid) = paginate(items);
    proof {
        if source@.len() > 100 {
            assert(read.len() == 101);
            assert(items@ == read.drop_last());
            assert(read[100]@ == item_of(source@[100], db.addresses@));
        } else if source@.len() > 0 {
            assert(read[read.len() - 1]@ == item_of(
                source@[source@.len() - 1],
                db.addresses@,
            ));
        }
        assert forall|b: int| 0 <= b < items@.len() implies (#[trigger] items@[b])@ == item_of(
            source@[b],
            db.addresses@,
        ) by {
            assert(items@[b] == read[b]);
        }
        assert(distribution_items_view(items@) =~= page_rows(source@).map_values(
            |row: SnapshotRow| item_of(row, db.addresses@),
        ));
    }
    Ok(AssetDistribution::Exist((items, has_next, last_uid)))
}

/// Milliseconds of one day.
pub const DAY_MILLIS: i64 = 86_400_000;

/// The first second of the calendar day that a time stamp in milliseconds
/// falls on.
pub open spec fn day_stamp(time_stamp: i64) -> i64 {
    ((time_stamp as int / DAY_MILLIS as int) * 86_400) as i64
}

pub fn to_day_stamp(time_stamp: i64) -> (r: i64)
    ensures
        r == day_stamp(time_stamp),
{
    let day: i64 = if time_stamp >= 0 {
        ((time_stamp as u64) / 86_400_000) as i64
    } else {
        -((((-(time_stamp + 1)) as u64) / 86_400_000) as i64) - 1
    };
    assert(day == time_stamp as int / DAY_MILLIS as int);
    day * 86_400
}

/// The time stamp of the block with this key.
pub open spec fn time_of(blocks: Seq<BlockRow>, block_uid: i64) -> i64 {
    blocks[block_uids(blocks).index_of(block_uid)].time_stamp
}

/// Position of the item of a day; `-1` when the day has none.
pub open spec fn stamp_position(items: Seq<crate::api::BalanceResponseAggItem>, stamp: i64) -> int
    decreases items.len(),
{
    if items.len() == 0 {
        -1
    } else if items.last().date_stamp == stamp {
        items.len() - 1
    } else {
        stamp_position(items.drop_last(), stamp)
    }
}

/// The items after one more balance of a day was noted: the first balance
/// of a day opens its item, every later one is its last so far.
pub open spec fn noted(items: Seq<crate::api::BalanceResponseAggItem>, stamp: i64, amount: i64) -> Seq<
    crate::api::BalanceResponseAggItem,
> {
    let k = stamp_position(items, stamp);
    if k >= 0 {
        items.update(k, crate::api::BalanceResponseAggItem { amount_end: amount, ..items[k] })
    } else {
        items.push(
            crate::api::BalanceResponseAggItem {
                date_stamp: stamp,
                amount_begin: amount,
                amount_end: amount,
            },
        )
    }
}

/// First and last balance of each calendar day on which a block between
/// `date_from` and `date_to` changed the balance, found by walking the
/// history in key order.
pub open spec fn aggregated(
    balances: Seq<BalanceRow>,
    blocks: Seq<BlockRow>,
    address_id: i64,
    asset_id: i64,
    date_from: i64,
    date_to: i64,
) -> Seq<crate::api::BalanceResponseAggItem>
    decreases balances.len(),
{
    if balances.len() == 0 {
        Seq::empty()
    } else {
        let rest = aggregated(balances.drop_last(), blocks, address_id, asset_id, date_from, date_to);
        let r = balances.last();
        let ts = time_of(blocks, r.block_uid);
        if r.address_id == address_id && r.asset_id == asset_id && date_from <= ts <= date_to {
            noted(rest, day_stamp(ts), r.amount)
        } else {
            rest
        }
    }
}

/// First and last balance of each calendar day among some balances, given
/// with the time stamps of their blocks in the order in which they were
/// written.
pub open spec fn aggregated_rows(rows: Seq<(i64, i64)>) -> Seq<crate::api::BalanceResponseAggItem>
    decreases rows.len(),
{
    if rows.len() == 0 {
        Seq::empty()
    } else {
        noted(aggregated_rows(rows.drop_last()), day_stamp(rows.last().0), rows.last().1)
    }
}

/// Gathers balances, each with the time stamp of its block, by calendar day.
pub fn aggregate_rows(rows: &Vec<(i64, i64)>) -> (r: Vec<crate::api::BalanceResponseAggItem>)
    ensures
        r@ == aggregated_rows(rows@),
{
    let mut out: Vec<crate::api::BalanceResponseAggItem> = Vec::new();
    let mut i: usize = 0;
    assert(rows@.subrange(0, 0) =~= Seq::<(i64, i64)>::empty());
    while i < rows.len()
        invariant
            i <= rows@.len(),
            out@ == aggregated_rows(rows@.subrange(0, i as int)),
        decreases rows@.len() - i,
    {
        proof {
            assert(rows@.subrange(0, i + 1).drop_last() =~= rows@.subrange(0, i as int));
            assert(rows@.subrange(0, i + 1).last() == rows@[i as int]);
        }
        note(&mut out, to_day_stamp(rows[i].0), rows[i].1);
        i = i + 1;
    }
    assert(rows@.subrange(0, i as int) =~= rows@);
    out
}

fn note(items: &mut Vec<crate::api::BalanceResponseAggItem>, stamp: i64, amount: i64)
    ensures
        final(items)@ == noted(old(items)@, stamp, amount),
{
    match find_stamp(items, stamp) {
        Some(p) => {
            let mut item = items[p];
            item.amount_end = amount;
            items.set(p, item);
        },
        None => {
            items.push(
                crate::api::BalanceResponseAggItem {
                    date_stamp: stamp,
                    amount_begin: amount,
                    amount_end: amount,
                },
            );
        },
    }
}

fn find_stamp(items: &Vec<crate::api::BalanceResponseAggItem>, stamp: i64) -> (r: Option<usize>)
    ensures
        match r {
            Some(k) => k as int == stamp_position(items@, stamp) && k < items@.len(),
            None => stamp_position(items@, stamp) == -1,
        },
{
    let mut i: usize = items.len();
    assert(items@.subrange(0, i as int) =~= items@);
    while i > 0
        invariant
            i <= items@.len(),
            stamp_position(items@, stamp) == stamp_position(items@.subrange(0, i as int), stamp),
        decreases i,
    {
        if items[i - 1].date_stamp == stamp {
            return Some(i - 1);
        }
        assert(items@.subrange(0, i as int).drop_last() =~= items@.subrange(0, i - 1));
        i = i - 1;
    }
    None
}

/// The balance of an address in an asset day by day, over the days between
/// two time stamps in milliseconds. An address or an asset that the
/// dictionaries lack has no days.
pub fn balance_history_aggregated(
    db: &Db,
    address: &String,
    asset_id: &String,
    date_from: i64,
    date_to: i64,
) -> (r: Vec<crate::api::BalanceResponseAggItem>)
    requires
        db.wf(),
    ensures
        r@ == if dict_texts(db.addresses@).contains(address@) && dict_texts(db.assets@).contains(
            asset_id@,
        ) {
            aggregated(
                db.balances@,
                db.blocks@,
                dictionary(db.addresses@, db.last_address_uid).uid_of(address@),
                dictionary(db.assets@, db.last_asset_uid).uid_of(asset_id@),
                date_from,
                date_to,
            )
        } else {
            Seq::empty()
        },
{
    let mut out: Vec<crate::api::BalanceResponseAggItem> = Vec::new();
    let address_uid = match lookup(&db.addresses, address, db.last_address_uid) {
        Some(a) => a,
        None => {
            return out;
        },
    };
    let asset_uid = match lookup(&db.assets, asset_id, db.last_asset_uid) {
        Some(a) => a,
        None => {
            return out;
        },
    };
    let mut i: usize = 0;
    assert(db.balances@.subrange(0, 0) =~= Seq::<BalanceRow>::empty());
    while i < db.balances.len()
        invariant
            i <= db.balances@.len(),
            db.wf(),
            out@ == aggregated(
                db.balances@.subrange(0, i as int),
                db.blocks@,
                address_uid,
                asset_uid,
                date_from,
                date_to,
            ),
        decreases db.balances@.len() - i,
    {
        let r = db.balances[i];
        proof {
            assert(db.balances@.subrange(0, i + 1).drop_last() =~= db.balances@.subrange(
                0,
                i as int,
            ));
            assert(db.balances@.subrange(0, i + 1).last() == r);
        }
        let k = block_position(&db.blocks, r.block_uid, Ghost(db.last_block_uid));
        let ts = db.blocks[k].time_stamp;
        if r.address_id == address_uid && r.asset_id == asset_uid && date_from <= ts && ts
            <= date_to {
            note(&mut out, to_day_stamp(ts), r.amount);
        }
        i = i + 1;
    }
    assert(db.balances@.subrange(0, i as int) =~= db.balances@);
    out
}

} // verus!
