//! The operations that the service offers, from request to reply.

use crate::api::error::AppError;
use crate::api::repo::{
    address_pairs, aggregated, all_assets_by_address, asset_distribution,
    balance_history_aggregated, balance_items, create_asset_distribution_task,
    distribution_items_view, get_balances_by_pairs, get_uids_from_req, item_of, items_view,
    last_solidified_height, page_has_next, page_last_uid, page_rows, page_source, pairs_view,
    param, parse_utc_time, resolved_uid, snapshot_of, task_for, uids_query, utc_time,
    AssetDistribution, ACCEPTED, CREATED,
};
use crate::api::{
    AssetDistributionItem, BalanceQuery, BalanceResponseAggItem, BalanceResponseItem,
    PG_MAX_BIGINT,
};
use crate::db::mappers::asset_distribution::has_snapshot;
use crate::db::mappers::blocks_microblocks::{
    last_index_where, shown_height, stored_height, to_stored_height, BlockFilter,
};
use crate::db::mappers::distribution_task::has_task;
use crate::db::mappers::unique_address::dictionary;
use crate::db::{dict_texts, Db, SnapshotRow, TaskRow, TaskState};
use crate::text::{decimal, i64_to_string, owned, parse_i64, parse_i64_spec, push_i64};
use vstd::hash_map::StringHashMap;
use vstd::prelude::*;
use vstd::string::*;

verus! {

/// Greatest number of pairs in one query for balances.
pub const BALANCE_HISTORY_PAIRS_LIMIT: i32 = 100;

/// Prefix of the service in the codes of its errors.
pub const ERROR_CODES_PREFIX: u16 = 95;

/// Number of holders on one page of a distribution.
pub const DEFAULT_LIMIT: i64 = 100;

/// Distance that the height of a new distribution task keeps from the
/// height of the ledger.
pub const DISTRIBUTION_HEIGHT_GAP: u32 = 21;

pub const OK: u16 = 200;

pub const NO_CONTENT: u16 = 204;

pub const BAD_REQUEST: u16 = 400;

pub const INTERNAL_SERVER_ERROR: u16 = 500;

pub const GATEWAY_TIMEOUT: u16 = 504;

#[derive(Debug)]
pub struct PageInfo {
    pub last_cursor: Option<String>,
    pub has_next_page: bool,
}

/// Items of a reply with the place to go on from.
#[derive(Debug)]
pub struct List<T> {
    pub items: Vec<T>,
    pub page_info: PageInfo,
}

/// A complete list: no cursor, nothing follows.
pub open spec fn is_whole<T>(l: List<T>) -> bool {
    l.page_info.last_cursor is None && !l.page_info.has_next_page
}

/// A list that is complete as it stands.
pub fn whole<T>(items: Vec<T>) -> (l: List<T>)
    ensures
        l.items == items,
        is_whole(l),
{
    List { items, page_info: PageInfo { last_cursor: None, has_next_page: false } }
}

/// The refusal of parameters that name no moment.
pub open spec fn is_bad_moment(e: AppError, height: bool) -> bool {
    e is InvalidQueryString && e.message() == if height {
        "invalid parameter height"@
    } else {
        "invalid timestamp"@
    }
}

pub open spec fn pairs_limit_message() -> Seq<char> {
    "balance/address pairs limited to "@ + decimal(BALANCE_HISTORY_PAIRS_LIMIT as int)
}

/// Refuses more pairs than the limit.
pub fn check_pairs_limit(pairs: usize) -> (r: Result<(), AppError>)
    ensures
        pairs <= BALANCE_HISTORY_PAIRS_LIMIT ==> r is Ok,
        pairs > BALANCE_HISTORY_PAIRS_LIMIT ==> r is Err && r->Err_0 is ValidationErrorCustom
            && r->Err_0.message() == pairs_limit_message(),
{
    if pairs > 100 {
        let mut m = owned("balance/address pairs limited to ");
        push_i64(&mut m, BALANCE_HISTORY_PAIRS_LIMIT as i64);
        Err(AppError::ValidationErrorCustom(m))
    } else {
        Ok(())
    }
}

/// Balances of pairs of address and asset at the moment that the parameters
/// name. More pairs than the limit are refused.
pub fn bh_handler_by_pairs(db: &Db, req: BalanceQuery, get_params: &StringHashMap<String>) -> (r:
    Result<List<BalanceResponseItem>, AppError>)
    requires
        db.wf(),
    ensures
        match uids_query(param(get_params@, "height"@), param(get_params@, "timestamp"@)) {
            Err(height) => r is Err && is_bad_moment(r->Err_0, height),
            Ok(q) => if req.address_asset_pairs@.len() > BALANCE_HISTORY_PAIRS_LIMIT {
                r is Err && r->Err_0 is ValidationErrorCustom && r->Err_0.message()
                    == pairs_limit_message()
            } else {
                r is Ok && is_whole(r->Ok_0) && items_view(r->Ok_0.items@) == balance_items(
                    *db,
                    resolved_uid(db.blocks@, q),
                    pairs_view(req.address_asset_pairs@),
                )
            },
        },
{
    let uid = match get_uids_from_req(db, get_params) {
        Ok(uid) => uid,
        Err(e) => {
            return Err(e);
        },
    };
    match check_pairs_limit(req.address_asset_pairs.len()) {
        Ok(()) => Ok(whole(get_balances_by_pairs(db, &uid, &req))),
        Err(e) => Err(e),
    }
}

/// Balances of one address in all its assets at the moment that the
/// parameters name.
pub fn bh_handler_address(address: String, db: &Db, get_params: &StringHashMap<String>) -> (r:
    Result<List<BalanceResponseItem>, AppError>)
    requires
        db.wf(),
    ensures
        match uids_query(param(get_params@, "height"@), param(get_params@, "timestamp"@)) {
            Err(height) => r is Err && is_bad_moment(r->Err_0, height),
            Ok(q) => r is Ok && is_whole(r->Ok_0) && items_view(r->Ok_0.items@) == balance_items(
                *db,
                resolved_uid(db.blocks@, q),
                address_pairs(*db, address@),
            ),
        },
{
    let uid = match get_uids_from_req(db, get_params) {
        Ok(uid) => uid,
        Err(e) => {
            return Err(e);
        },
    };
    Ok(whole(all_assets_by_address(db, &address, &uid)))
}

/// Milliseconds since the epoch of the first second of the day of a moment,
/// or of its last second, with the moment's own milliseconds.
pub open spec fn day_bound(time: (i64, u32), end: bool) -> int {
    ((time.0 as int / 86_400) * 86_400 + if end {
        86_399int
    } else {
        0int
    }) * 1000 + time.1
}

/// The bound that a parameter sets on the days asked for: the default
/// without the parameter; nothing when the parameter names no moment or the
/// bound is out of range.
pub open spec fn date_bound(text: Option<Seq<char>>, end: bool) -> Option<i64> {
    match text {
        None => Some(
            if end {
                PG_MAX_BIGINT
            } else {
                0
            },
        ),
        Some(t) => match utc_time(t) {
            Some(time) => if i64::MIN <= day_bound(time, end) <= i64::MAX {
                Some(day_bound(time, end) as i64)
            } else {
                None
            },
            None => None,
        },
    }
}

/// The bound of a day in milliseconds, where it fits.
pub fn to_day_bound(time: (i64, u32), end: bool) -> (r: Option<i64>)
    ensures
        r == if i64::MIN <= day_bound(time, end) <= i64::MAX {
            Some(day_bound(time, end) as i64)
        } else {
            None::<i64>
        },
{
    let secs = time.0 as i128;
    let rem: i128 = if secs >= 0 {
        ((secs as u128) % 86_400) as i128
    } else {
        86_399 - ((((-(secs + 1)) as u128) % 86_400) as i128)
    };
    assert(rem == secs as int % 86_400);
    let start: i128 = secs - rem;
    assert(start == (secs as int / 86_400) * 86_400);
    let at: i128 = if end {
        start + 86_399
    } else {
        start
    };
    let millis: i128 = at * 1000 + (time.1 as i128);
    if millis < -9223372036854775808 || millis > 9223372036854775807 {
        None
    } else {
        Some(millis as i64)
    }
}

/// Reads the bound that a parameter sets on the days asked for.
pub fn read_date_bound(get_params: &StringHashMap<String>, name: &str, end: bool) -> (r: Option<i64>)
    ensures
        r == date_bound(param(get_params@, name@), end),
{
    match get_params.get(name) {
        Some(text) => match parse_utc_time(text.as_str()) {
            Some(time) => to_day_bound(time, end),
            None => None,
        },
        None => Some(
            if end {
                PG_MAX_BIGINT
            } else {
                0
            },
        ),
    }
}

/// Reads the days that a request asks for: from the start of the day of
/// `date_from` to the end of the day of `date_to`; without them from the
/// epoch, and without end.
pub fn read_date_range(get_params: &StringHashMap<String>) -> (r: Result<(i64, i64), AppError>)
    ensures
        match date_bound(param(get_params@, "date_from"@), false) {
            None => r is Err && r->Err_0 is InvalidQueryString && r->Err_0.message()
                == "date_from "@,
            Some(from) => match date_bound(param(get_params@, "date_to"@), true) {
                None => r is Err && r->Err_0 is InvalidQueryString && r->Err_0.message()
                    == "date_to "@,
                Some(to) => r == Ok::<(i64, i64), AppError>((from, to)),
            },
        },
{
    let date_from = match read_date_bound(get_params, "date_from", false) {
        Some(d) => d,
        None => {
            return Err(AppError::InvalidQueryString(owned("date_from ")));
        },
    };
    let date_to = match read_date_bound(get_params, "date_to", true) {
        Some(d) => d,
        None => {
            return Err(AppError::InvalidQueryString(owned("date_to ")));
        },
    };
    Ok((date_from, date_to))
}

/// The balance of an address in an asset day by day. `date_from` counts from
/// the start of its day, `date_to` to the end of its day; without them all
/// days count.
pub fn bh_balance_aggregates(
    address: String,
    asset_id: String,
    db: &Db,
    get_params: &StringHashMap<String>,
) -> (r: Result<List<BalanceResponseAggItem>, AppError>)
    requires
        db.wf(),
    ensures
        match date_bound(param(get_params@, "date_from"@), false) {
            None => r is Err && r->Err_0 is InvalidQueryString && r->Err_0.message()
                == "date_from "@,
            Some(from) => match date_bound(param(get_params@, "date_to"@), true) {
                None => r is Err && r->Err_0 is InvalidQueryString && r->Err_0.message()
                    == "date_to "@,
                Some(to) => r is Ok && is_whole(r->Ok_0) && r->Ok_0.items@ == if dict_texts(
                    db.addresses@,
                ).contains(address@) && dict_texts(db.assets@).contains(asset_id@) {
                    aggregated(
                        db.balances@,
                        db.blocks@,
                        dictionary(db.addresses@, db.last_address_uid).uid_of(address@),
                        dictionary(db.assets@, db.last_asset_uid).uid_of(asset_id@),
                        from,
                        to,
                    )
                } else {
                    Seq::empty()
                },
            },
        },
{
    match read_date_range(get_params) {
        Ok((date_from, date_to)) => Ok(
            whole(balance_history_aggregated(db, &address, &asset_id, date_from, date_to)),
        ),
        Err(e) => Err(e),
    }
}

/// The rank after which a page starts, as the parameter `after` gives it; a
/// parameter that is no number counts as none.
pub open spec fn after_rank(params: Map<Seq<char>, String>) -> Option<i64> {
    match param(params, "after"@) {
        Some(a) => parse_i64_spec(a),
        None => None,
    }
}

/// Reads the rank after which a page starts.
pub fn read_after_rank(get_params: &StringHashMap<String>) -> (r: Option<i64>)
    ensures
        r == after_rank(get_params@),
{
    match get_params.get("after") {
        Some(a) => parse_i64(a.as_str()),
        None => None,
    }
}

/// The reply to what a request for a distribution found: the page with its
/// cursor; nothing yet while the task is not done; no content without a task.
pub fn distribution_reply_of(d: AssetDistribution) -> (r: (List<AssetDistributionItem>, u16))
    ensures
        match d {
            AssetDistribution::Exist((rows, has_next_page, last_uid)) => {
                &&& r.1 == OK
                &&& r.0.items == rows
                &&& r.0.page_info.has_next_page == has_next_page
                &&& r.0.page_info.last_cursor is Some
                &&& r.0.page_info.last_cursor->0@ == decimal(last_uid as int)
            },
            AssetDistribution::InProgress => r.1 == ACCEPTED && r.0.items@.len() == 0 && is_whole(
                r.0,
            ),
            AssetDistribution::NoData => r.1 == NO_CONTENT && r.0.items@.len() == 0 && is_whole(r.0),
        },
{
    match d {
        AssetDistribution::Exist((rows, has_next_page, last_uid)) => (
            List {
                items: rows,
                page_info: PageInfo { last_cursor: Some(i64_to_string(last_uid)), has_next_page },
            },
            OK,
        ),
        AssetDistribution::InProgress => (whole(Vec::new()), ACCEPTED),
        AssetDistribution::NoData => (whole(Vec::new()), NO_CONTENT),
    }
}

/// The reply to a request for a page of a distribution: no content without
/// a task, accepted while the task is not done, else the page with its
/// cursor.
pub open spec fn distribution_reply(
    db: Db,
    asset_id: Seq<char>,
    height: i32,
    after_uid: Option<i64>,
    r: Result<(List<AssetDistributionItem>, u16), AppError>,
) -> bool {
    if !has_task(db.tasks@, asset_id, height) {
        r is Ok && r->Ok_0.1 == NO_CONTENT && r->Ok_0.0.items@.len() == 0 && is_whole(r->Ok_0.0)
    } else {
        let task = task_for(db.tasks@, asset_id, height);
        if task.state != TaskState::Done {
            r is Ok && r->Ok_0.1 == ACCEPTED && r->Ok_0.0.items@.len() == 0 && is_whole(r->Ok_0.0)
        } else if !has_snapshot(db.snapshots@, task.uid) {
            r is Err && r->Err_0 is DbError
        } else {
            let after = match after_uid {
                Some(a) => a,
                None => 0,
            };
            let source = page_source(
                snapshot_of(db.snapshots@, task.uid).rows@,
                db.addresses@,
                after,
            );
            &&& r is Ok
            &&& r->Ok_0.1 == OK
            &&& distribution_items_view(r->Ok_0.0.items@) == page_rows(source).map_values(
                |row: SnapshotRow| item_of(row, db.addresses@),
            )
            &&& r->Ok_0.0.page_info.has_next_page == page_has_next(source)
            &&& r->Ok_0.0.page_info.last_cursor is Some
            &&& r->Ok_0.0.page_info.last_cursor->0@ == decimal(page_last_uid(source))
        }
    }
}

/// One page of the distribution of an asset at a height.
pub fn bh_handler_asset_distribution(
    asset_id: String,
    height: u32,
    db: &Db,
    get_params: &StringHashMap<String>,
) -> (r: Result<(List<AssetDistributionItem>, u16), AppError>)
    requires
        db.wf(),
    ensures
        distribution_reply(*db, asset_id@, stored_height(height), after_rank(get_params@), r),
{
    let after_uid = read_after_rank(get_params);
    let h = to_stored_height(height);
    match asset_distribution(db, &asset_id, &h, after_uid) {
        Ok(d) => Ok(distribution_reply_of(d)),
        Err(e) => Err(e),
    }
}

/// The height of the latest solidified record as the service shows it.
pub open spec fn shown_tip(db: Db) -> u32 {
    let i = last_index_where(db.blocks@, BlockFilter::Solidified);
    if i >= 0 {
        shown_height(db.blocks@[i].height)
    } else {
        0
    }
}

/// Whether a distribution task may be created at a height: the height keeps
/// the gap from the height of the ledger.
pub open spec fn admitted(height: u32, tip: u32) -> bool {
    height + DISTRIBUTION_HEIGHT_GAP <= tip
}

pub open spec fn too_recent_message(tip: u32) -> Seq<char> {
    "height to big to create asset distribution. max height at the moment is "@ + decimal(
        tip - DISTRIBUTION_HEIGHT_GAP,
    )
}

/// A task is admitted at the height that keeps exactly the gap from the
/// height of the ledger, and refused one above.
pub proof fn lemma_admission_boundary(tip: u32)
    requires
        tip >= DISTRIBUTION_HEIGHT_GAP,
    ensures
        admitted((tip - DISTRIBUTION_HEIGHT_GAP) as u32, tip),
        !admitted((tip - DISTRIBUTION_HEIGHT_GAP + 1) as u32, tip),
{
}

/// Refuses a height that is too close to that of the ledger.
pub fn check_admission(height: u32, last_height: u32) -> (r: Result<(), AppError>)
    ensures
        admitted(height, last_height) ==> r is Ok,
        !admitted(height, last_height) ==> r is Err && r->Err_0 is ValidationErrorCustom
            && r->Err_0.message() == too_recent_message(last_height),
{
    if (height as u64) + (DISTRIBUTION_HEIGHT_GAP as u64) > last_height as u64 {
        let mut m = owned(
            "height to big to create asset distribution. max height at the moment is ",
        );
        push_i64(&mut m, (last_height as i64) - (DISTRIBUTION_HEIGHT_GAP as i64));
        Err(AppError::ValidationErrorCustom(m))
    } else {
        Ok(())
    }
}

/// Creates a distribution task for an asset at a height. A height too close
/// to that of the ledger is refused and nothing changes. A task that exists
/// already stays as it is.
pub fn bh_handler_asset_distribution_task(asset_id: String, height: u32, db: &mut Db) -> (r: Result<
    u16,
    AppError,
>)
    requires
        old(db).wf(),
        old(db).last_task_uid < i64::MAX,
    ensures
        final(db).wf(),
        if !admitted(height, shown_tip(*old(db))) {
            &&& r is Err
            &&& r->Err_0 is ValidationErrorCustom
            &&& r->Err_0.message() == too_recent_message(shown_tip(*old(db)))
            &&& *final(db) == *old(db)
        } else if has_task(old(db).tasks@, asset_id@, stored_height(height)) {
            r == Ok::<u16, AppError>(ACCEPTED) && *final(db) == *old(db)
        } else {
            &&& r == Ok::<u16, AppError>(CREATED)
            &&& final(db).tasks@ == old(db).tasks@.push(
                TaskRow {
                    uid: (old(db).last_task_uid + 1) as i64,
                    asset_id,
                    height: stored_height(height),
                    state: TaskState::New,
                    error_message: None,
                },
            )
            &&& *final(db) == (Db {
                tasks: final(db).tasks,
                last_task_uid: (old(db).last_task_uid + 1) as i64,
                ..*old(db)
            })
        },
{
    let last_height = last_solidified_height(db);
    match check_admission(height, last_height) {
        Ok(()) => {
            let h = to_stored_height(height);
            Ok(create_asset_distribution_task(db, &asset_id, &h))
        },
        Err(e) => Err(e),
    }
}

/// What the service answers to an error.
#[derive(Debug)]
pub enum ErrorReply {
    /// A parameter was refused; the details pair names with reasons.
    InvalidParameter(Option<Vec<(String, String)>>),
    /// The store took too long.
    Timeout,
    Internal,
}

impl ErrorReply {
    pub fn status(&self) -> (s: u16)
        ensures
            s == match *self {
                ErrorReply::InvalidParameter(_) => BAD_REQUEST,
                ErrorReply::Timeout => GATEWAY_TIMEOUT,
                ErrorReply::Internal => INTERNAL_SERVER_ERROR,
            },
    {
        match self {
            ErrorReply::InvalidParameter(_) => BAD_REQUEST,
            ErrorReply::Timeout => GATEWAY_TIMEOUT,
            ErrorReply::Internal => INTERNAL_SERVER_ERROR,
        }
    }
}

/// The answer to an error: a refused value is reported under `height`, a
/// refused parameter with its details, a query that cannot be read without
/// details, a statement that the store gave up as a timeout, every other
/// failure of the store as an internal error.
pub fn error_reply(err: AppError) -> (r: ErrorReply)
    ensures
        match err {
            AppError::ValidationErrorCustom(e) => {
                &&& r is InvalidParameter
                &&& r->InvalidParameter_0 is Some
                &&& r->InvalidParameter_0->0@.len() == 1
                &&& r->InvalidParameter_0->0@[0].0@ == "height"@
                &&& r->InvalidParameter_0->0@[0].1 == e
            },
            AppError::ValidationError(_, details) => r is InvalidParameter && r->InvalidParameter_0
                == details,
            AppError::DbError(m) => if m@ == "canceling statement due to statement timeout"@ {
                r is Timeout
            } else {
                r is Internal
            },
            AppError::InvalidQueryString(_) => r is InvalidParameter && r->InvalidParameter_0
                is None,
        },
{
    match err {
        AppError::ValidationErrorCustom(e) => {
            let mut d: Vec<(String, String)> = Vec::new();
            d.push((owned("height"), e));
            ErrorReply::InvalidParameter(Some(d))
        },
        AppError::ValidationError(_, details) => ErrorReply::InvalidParameter(details),
        AppError::DbError(m) => {
            if m == owned("canceling statement due to statement timeout") {
                ErrorReply::Timeout
            } else {
                ErrorReply::Internal
            }
        },
        AppError::InvalidQueryString(_) => ErrorReply::InvalidParameter(None),
    }
}

} // verus!
