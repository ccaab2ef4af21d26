//! Safe heights: for each named table the height up to which it is durable.

use crate::consumer::SAFE_HEIGHT_OFFSET;
use crate::db::mappers::blocks_microblocks::{stored_height, to_stored_height};
use crate::db::mappers::unique_address::lemma_index_of_unique;
use crate::db::{Db, SafeHeightRow};
use crate::text::owned;
use vstd::prelude::*;
use vstd::string::*;

verus! {

/// The height that is safe once rows at `height` were written.
pub open spec fn safe_height(height: u32) -> i32 {
    if height >= SAFE_HEIGHT_OFFSET {
        stored_height((height - SAFE_HEIGHT_OFFSET) as u32)
    } else {
        0
    }
}

pub fn to_safe_height(height: u32) -> (h: i32)
    ensures
        h == safe_height(height),
{
    if height >= SAFE_HEIGHT_OFFSET {
        to_stored_height(height - SAFE_HEIGHT_OFFSET)
    } else {
        0
    }
}

pub open spec fn table_names(rows: Seq<SafeHeightRow>) -> Seq<Seq<char>> {
    rows.map_values(|r: SafeHeightRow| r.table_name@)
}

/// The safe heights after `height` was recorded for a table: a table not yet
/// named gets a row; a named one moves up, never down.
pub open spec fn recorded(
    rows: Seq<SafeHeightRow>,
    post: Seq<SafeHeightRow>,
    name: Seq<char>,
    h: i32,
) -> bool {
    if table_names(rows).contains(name) {
        let k = table_names(rows).index_of(name);
        &&& post.len() == rows.len()
        &&& forall|i: int| 0 <= i < rows.len() && i != k ==> post[i] == rows[i]
        &&& post[k].table_name == rows[k].table_name
        &&& post[k].height == if h > rows[k].height {
            h
        } else {
            rows[k].height
        }
    } else {
        &&& post.len() == rows.len() + 1
        &&& post.drop_last() == rows
        &&& post.last().table_name@ == name
        &&& post.last().height == h
    }
}

/// Records that rows at `height` were written to the named table: its safe
/// height becomes `height` less the offset, unless it is already as high.
pub fn save(db: &mut Db, table_name: &str, height: u32)
    requires
        old(db).wf(),
    ensures
        final(db).wf(),
        recorded(old(db).safe_heights@, final(db).safe_heights@, table_name@, safe_height(height)),
        *final(db) == (Db { safe_heights: final(db).safe_heights, ..*old(db) }),
{
    let h = to_safe_height(height);
    let name = owned(table_name);
    let n = db.safe_heights.len();
    let mut i: usize = 0;
    while i < n
        invariant
            i <= n,
            n == db.safe_heights@.len(),
            name@ == table_name@,
            h == safe_height(height),
            *db == *old(db),
            db.wf(),
            forall|k: int| 0 <= k < i ==> table_names(db.safe_heights@)[k] != name@,
        decreases n - i,
    {
        if db.safe_heights[i].table_name == name {
            proof {
                assert(table_names(db.safe_heights@)[i as int] == name@);
                assert(table_names(db.safe_heights@).contains(name@));
                lemma_index_of_unique(table_names(db.safe_heights@), i as int);
            }
            if h > db.safe_heights[i].height {
                let ghost before = db.safe_heights@;
                let mut row = db.safe_heights.remove(i);
                row.height = h;
                db.safe_heights.insert(i, row);
                proof {
                    assert(db.safe_heights@ =~= before.update(
                        i as int,
                        SafeHeightRow { table_name: before[i as int].table_name, height: h },
                    ));
                    assert(table_names(db.safe_heights@) =~= table_names(before));
                }
            }
            return ;
        }
        i = i + 1;
    }
    let ghost before = db.safe_heights@;
    db.safe_heights.push(SafeHeightRow { table_name: name, height: h });
    proof {
        assert(db.safe_heights@.drop_last() =~= before);
        let names = table_names(db.safe_heights@);
        assert(names =~= table_names(before).push(name@));
        assert forall|a: int, b: int| 0 <= a < b < names.len() implies names[a] != names[b] by {
            assert(names[a] == table_names(before)[a]);
            if b < before.len() {
                assert(names[b] == table_names(before)[b]);
            }
        }
    }
}

/// The safe height of a named table.
pub fn get(db: &Db, table_name: &str) -> (r: Option<i32>)
    requires
        db.wf(),
    ensures
        r == if table_names(db.safe_heights@).contains(table_name@) {
            Some(db.safe_heights@[table_names(db.safe_heights@).index_of(table_name@)].height)
        } else {
            None
        },
{
    let name = owned(table_name);
    let n = db.safe_heights.len();
    let mut i: usize = 0;
    while i < n
        invariant
            i <= n,
            n == db.safe_heights@.len(),
            name@ == table_name@,
            db.wf(),
            forall|k: int| 0 <= k < i ==> table_names(db.safe_heights@)[k] != name@,
        decreases n - i,
    {
        if db.safe_heights[i].table_name == name {
            proof {
                assert(table_names(db.safe_heights@)[i as int] == name@);
                lemma_index_of_unique(table_names(db.safe_heights@), i as int);
            }
            return Some(db.safe_heights[i].height);
        }
        i = i + 1;
    }
    None
}

} // verus!
