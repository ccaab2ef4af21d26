//! The parts of SQL statements that depend on the rows at hand: lists of
//! placeholders, of values and of keys, and the names of snapshot tables.

use crate::text::{decimal, nat_digits, owned, push_i64, push_u64};
use crate::waves::bu::balance_updates::{chunk_view, BalanceHistory, BalanceHistoryView};
use vstd::hash_map::StringHashMap;
use vstd::prelude::*;
use vstd::string::*;

verus! {

/// Greatest number of rows in one statement.
pub const BULK_CHUNK_SIZE: usize = 5000;

/// `($1),($2),` and so on up to `($n)`, without a comma at the end.
pub open spec fn placeholders_text(n: nat) -> Seq<char>
    decreases n,
{
    if n == 0 {
        Seq::empty()
    } else if n == 1 {
        "($"@ + nat_digits(1) + ")"@
    } else {
        placeholders_text((n - 1) as nat) + ",($"@ + nat_digits(n) + ")"@
    }
}

/// One placeholder per text that is merged into a dictionary.
pub fn placeholders(n: usize) -> (r: String)
    ensures
        r@ == placeholders_text(n as nat),
{
    let mut r = String::new();
    let mut i: usize = 0;
    while i < n
        invariant
            i <= n,
            r@ == placeholders_text(i as nat),
        decreases n - i,
    {
        let ghost before = r@;
        if i > 0 {
            r.append(",($");
        } else {
            r.append("($");
        }
        push_u64(&mut r, (i as u64) + 1);
        r.append(")");
        proof {
            if i > 0 {
                assert(r@ =~= before + ",($"@ + nat_digits((i + 1) as nat) + ")"@);
            } else {
                assert(before =~= Seq::<char>::empty());
                assert(r@ =~= "($"@ + nat_digits(1) + ")"@);
            }
        }
        i = i + 1;
    }
    r
}

/// Three placeholders per block, numbered through: ` ($1,$2,$3), ($4,$5,$6)`.
pub open spec fn block_placeholders_text(n: nat) -> Seq<char>
    decreases n,
{
    if n == 0 {
        Seq::empty()
    } else {
        let one = " ($"@ + nat_digits((3 * (n - 1) + 1) as nat) + ",$"@ + nat_digits(
            (3 * (n - 1) + 2) as nat,
        ) + ",$"@ + nat_digits((3 * (n - 1) + 3) as nat) + ")"@;
        if n == 1 {
            one
        } else {
            block_placeholders_text((n - 1) as nat) + ","@ + one
        }
    }
}

/// The placeholders for a number of blocks that are saved at once.
pub fn block_placeholders(n: usize) -> (r: String)
    requires
        n <= 0x1000_0000,
    ensures
        r@ == block_placeholders_text(n as nat),
{
    let mut r = String::new();
    let mut i: usize = 0;
    while i < n
        invariant
            i <= n <= 0x1000_0000,
            r@ == block_placeholders_text(i as nat),
        decreases n - i,
    {
        let ghost before = r@;
        if i > 0 {
            r.append(",");
        }
        r.append(" ($");
        push_u64(&mut r, 3 * (i as u64) + 1);
        r.append(",$");
        push_u64(&mut r, 3 * (i as u64) + 2);
        r.append(",$");
        push_u64(&mut r, 3 * (i as u64) + 3);
        r.append(")");
        proof {
            let one = " ($"@ + nat_digits((3 * i + 1) as nat) + ",$"@ + nat_digits(
                (3 * i + 2) as nat,
            ) + ",$"@ + nat_digits((3 * i + 3) as nat) + ")"@;
            if i > 0 {
                assert(r@ =~= before + ","@ + one);
            } else {
                assert(before =~= Seq::<char>::empty());
                assert(r@ =~= one);
            }
        }
        i = i + 1;
    }
    r
}

/// The keys, separated by commas.
pub open spec fn uid_list_text(ids: Seq<i64>) -> Seq<char>
    decreases ids.len(),
{
    if ids.len() == 0 {
        Seq::empty()
    } else if ids.len() == 1 {
        decimal(ids[0] as int)
    } else {
        uid_list_text(ids.drop_last()) + ","@ + decimal(ids.last() as int)
    }
}

/// The list of keys from which the index is filled.
pub fn uid_list(ids: &Vec<i64>) -> (r: String)
    ensures
        r@ == uid_list_text(ids@),
{
    let mut r = String::new();
    let mut i: usize = 0;
    assert(ids@.subrange(0, 0) =~= Seq::<i64>::empty());
    while i < ids.len()
        invariant
            i <= ids@.len(),
            r@ == uid_list_text(ids@.subrange(0, i as int)),
        decreases ids@.len() - i,
    {
        let ghost before = r@;
        if i > 0 {
            r.append(",");
        }
        push_i64(&mut r, ids[i]);
        proof {
            let next = ids@.subrange(0, i + 1);
            assert(next.drop_last() =~= ids@.subrange(0, i as int));
            assert(next.last() == ids@[i as int]);
            if i > 0 {
                assert(r@ =~= before + ","@ + decimal(ids@[i as int] as int));
            } else {
                assert(before =~= Seq::<char>::empty());
                assert(next[0] == ids@[0]);
                assert(r@ =~= decimal(ids@[0] as int));
            }
        }
        i = i + 1;
    }
    assert(ids@.subrange(0, i as int) =~= ids@);
    r
}

/// One entry as a row of values: its place in the statement, the key of its
/// block, the amount, the key of the address and the key of the asset.
pub open spec fn value_row(
    place: nat,
    b: BalanceHistoryView,
    asset_ids: Map<Seq<char>, i64>,
    address_ids: Map<Seq<char>, i64>,
) -> Seq<char> {
    " ("@ + nat_digits(place) + ","@ + decimal(b.block_uid as int) + ","@ + decimal(
        b.amount as int,
    ) + ","@ + decimal(address_ids[b.address] as int) + ","@ + decimal(
        asset_ids[b.asset_id] as int,
    ) + ")"@
}

/// The rows of values of some entries, numbered from one, separated by commas.
pub open spec fn value_rows_text(
    chunk: Seq<BalanceHistoryView>,
    asset_ids: Map<Seq<char>, i64>,
    address_ids: Map<Seq<char>, i64>,
) -> Seq<char>
    decreases chunk.len(),
{
    if chunk.len() == 0 {
        Seq::empty()
    } else if chunk.len() == 1 {
        value_row(1, chunk[0], asset_ids, address_ids)
    } else {
        value_rows_text(chunk.drop_last(), asset_ids, address_ids) + ","@ + value_row(
            chunk.len(),
            chunk.last(),
            asset_ids,
            address_ids,
        )
    }
}

/// The rows of values for the entries from position `from` up to `to`.
pub fn value_rows(
    balances: &Vec<BalanceHistory>,
    from: usize,
    to: usize,
    asset_ids: &StringHashMap<i64>,
    address_ids: &StringHashMap<i64>,
) -> (r: String)
    requires
        from <= to <= balances@.len(),
        forall|i: int|
            from <= i < to ==> asset_ids@.contains_key(#[trigger] balances@[i].asset_id@),
        forall|i: int| from <= i < to ==> address_ids@.contains_key(#[trigger] balances@[i].address@),
    ensures
        r@ == value_rows_text(
            chunk_view(balances@).subrange(from as int, to as int),
            asset_ids@,
            address_ids@,
        ),
{
    let mut r = String::new();
    let ghost cv = chunk_view(balances@);
    let mut i: usize = from;
    assert(cv.subrange(from as int, from as int) =~= Seq::<BalanceHistoryView>::empty());
    while i < to
        invariant
            from <= i <= to <= balances@.len(),
            cv == chunk_view(balances@),
            forall|i: int|
                from <= i < to ==> asset_ids@.contains_key(#[trigger] balances@[i].asset_id@),
            forall|i: int|
                from <= i < to ==> address_ids@.contains_key(#[trigger] balances@[i].address@),
            r@ == value_rows_text(cv.subrange(from as int, i as int), asset_ids@, address_ids@),
        decreases to - i,
    {
        let ghost before = r@;
        let b = &balances[i];
        assert(balances@[i as int].asset_id@ == b.asset_id@);
        assert(balances@[i as int].address@ == b.address@);
        let address_id = *address_ids.get(b.address.as_str()).unwrap();
        let asset_id = *asset_ids.get(b.asset_id.as_str()).unwrap();
        if i > from {
            r.append(",");
        }
        r.append(" (");
        push_u64(&mut r, ((i - from) as u64) + 1);
        r.append(",");
        push_i64(&mut r, b.block_uid);
        r.append(",");
        push_i64(&mut r, b.amount);
        r.append(",");
        push_i64(&mut r, address_id);
        r.append(",");
        push_i64(&mut r, asset_id);
        r.append(")");
        proof {
            let next = cv.subrange(from as int, i + 1);
            assert(next.drop_last() =~= cv.subrange(from as int, i as int));
            assert(next.last() == b@);
            let row = value_row((i - from + 1) as nat, b@, asset_ids@, address_ids@);
            if i > from {
                assert(r@ =~= before + ","@ + row);
            } else {
                assert(before =~= Seq::<char>::empty());
                assert(next[0] == b@);
                assert(r@ =~= row);
            }
        }
        i = i + 1;
    }
    r
}

/// The name of the table that holds the snapshot of a task.
pub open spec fn snapshot_table_text(schema: Seq<char>, task_uid: i64, height: i32) -> Seq<char> {
    schema + ".task_uid_"@ + decimal(task_uid as int) + "_"@ + decimal(height as int)
}

pub fn snapshot_table(schema: &str, task_uid: i64, height: i32) -> (r: String)
    ensures
        r@ == snapshot_table_text(schema@, task_uid, height),
{
    let mut r = owned(schema);
    r.append(".task_uid_");
    push_i64(&mut r, task_uid);
    r.append("_");
    push_i64(&mut r, height as i64);
    assert(r@ =~= snapshot_table_text(schema@, task_uid, height));
    r
}

/// The characters by which the balance history is partitioned: the capital
/// letters, then the digits.
pub open spec fn partition_keys() -> Seq<char> {
    seq![
        'A', 'B', 'C', 'D', 'E', 'F', 'G', 'H', 'I', 'J', 'K', 'L', 'M', 'N', 'O', 'P', 'Q', 'R',
        'S', 'T', 'U', 'V', 'W', 'X', 'Y', 'Z', '0', '1', '2', '3', '4', '5', '6', '7', '8', '9',
    ]
}

/// The name under which an asset partition goes, and the value that it
/// holds: the native asset goes by its name and holds `#`; every other
/// partition goes by the first character of its assets: the digits, then the
/// capital letters.
pub open spec fn asset_partition(i: int) -> (Seq<char>, Seq<char>) {
    if i == 0 {
        ("WAVES"@, "#"@)
    } else if i <= 10 {
        (seq![partition_keys()[25 + i]], seq![partition_keys()[25 + i]])
    } else {
        (seq![partition_keys()[i - 11]], seq![partition_keys()[i - 11]])
    }
}

/// The statement that makes the partition of an address character.
pub open spec fn address_partition_text(adr: char) -> Seq<char> {
    "CREATE TABLE balance_history_address_"@ + seq![adr]
        + " PARTITION OF balance_history FOR VALUES IN('"@ + seq![adr]
        + "') partition by LIST (part_asset_id);"@
}

/// The statement that makes an asset partition under an address partition.
pub open spec fn asset_partition_text(adr: char, asset: Seq<char>, value: Seq<char>) -> Seq<char> {
    "CREATE TABLE balance_history_address_"@ + seq![adr] + "_asset_"@ + asset
        + " PARTITION OF balance_history_address_"@ + seq![adr] + " FOR VALUES IN('"@ + value
        + "');"@
}

/// The statement at a position of the list: for each address character its
/// own partition, then its 37 asset partitions.
pub open spec fn partition_statement(k: int) -> Seq<char> {
    let adr = partition_keys()[k / 38];
    if k % 38 == 0 {
        address_partition_text(adr)
    } else {
        asset_partition_text(adr, asset_partition(k % 38 - 1).0, asset_partition(k % 38 - 1).1)
    }
}

fn partition_key(i: usize) -> (c: char)
    requires
        i < 36,
    ensures
        c == partition_keys()[i as int],
{
    let keys: [char; 36] = [
        'A', 'B', 'C', 'D', 'E', 'F', 'G', 'H', 'I', 'J', 'K', 'L', 'M', 'N', 'O', 'P', 'Q', 'R',
        'S', 'T', 'U', 'V', 'W', 'X', 'Y', 'Z', '0', '1', '2', '3', '4', '5', '6', '7', '8', '9',
    ];
    keys[i]
}

/// The statements that partition the balance history by the first
/// characters of address and asset.
pub fn partition_statements() -> (r: Vec<String>)
    ensures
        r@.len() == 36 * 38,
        forall|k: int| 0 <= k < r@.len() ==> (#[trigger] r@[k])@ == partition_statement(k),
{
    let mut r: Vec<String> = Vec::new();
    let mut a: usize = 0;
    while a < 36
        invariant
            a <= 36,
            r@.len() == a * 38,
            forall|k: int| 0 <= k < r@.len() ==> (#[trigger] r@[k])@ == partition_statement(k),
        decreases 36 - a,
    {
        let adr = partition_key(a);
        let mut line = String::new();
        line.append("CREATE TABLE balance_history_address_");
        line.push(adr);
        line.append(" PARTITION OF balance_history FOR VALUES IN('");
        line.push(adr);
        line.append("') partition by LIST (part_asset_id);");
        proof {
            assert(line@ =~= address_partition_text(adr));
            assert((a * 38) as int / 38 == a && (a * 38) as int % 38 == 0);
        }
        r.push(line);
        let mut i: usize = 0;
        while i < 37
            invariant
                a < 36,
                i <= 37,
                adr == partition_keys()[a as int],
                r@.len() == a * 38 + 1 + i,
                forall|k: int| 0 <= k < r@.len() ==> (#[trigger] r@[k])@ == partition_statement(k),
            decreases 37 - i,
        {
            let mut line = String::new();
            line.append("CREATE TABLE balance_history_address_");
            line.push(adr);
            line.append("_asset_");
            if i == 0 {
                line.append("WAVES");
            } else if i <= 10 {
                line.push(partition_key(25 + i));
            } else {
                line.push(partition_key(i - 11));
            }
            line.append(" PARTITION OF balance_history_address_");
            line.push(adr);
            line.append(" FOR VALUES IN('");
            if i == 0 {
                line.append("#");
            } else if i <= 10 {
                line.push(partition_key(25 + i));
            } else {
                line.push(partition_key(i - 11));
            }
            line.append("');");
            proof {
                let k = (a * 38 + 1 + i) as int;
                assert(k / 38 == a && k % 38 == i + 1);
                assert(line@ =~= asset_partition_text(
                    adr,
                    asset_partition(i as int).0,
                    asset_partition(i as int).1,
                ));
            }
            r.push(line);
            i = i + 1;
        }
        a = a + 1;
    }
    r
}

} // verus!
