//! The dictionary of assets. The native asset has a reserved key, under its
//! name and under the empty text.

use crate::db::mappers::unique_address::{
    dictionary, distinct, fresh_texts, intern_all, lemma_concat_contains, lemma_fresh_texts,
    texts_view,
};
use crate::db::{dict_texts, Db, WAVES_ASSET_ID};
use crate::text::owned;
use crate::waves::bu::balance_updates::{chunk_view, BalanceHistory, BalanceHistoryView};
use vstd::hash_map::StringHashMap;
use vstd::prelude::*;
use vstd::string::*;

verus! {

/// The assets of a chunk, in order.
pub open spec fn assets_of(chunk: Seq<BalanceHistoryView>) -> Seq<Seq<char>> {
    chunk.map_values(|b: BalanceHistoryView| b.asset_id)
}

/// A text that names the native asset: the empty text or `WAVES`.
pub open spec fn is_native(t: Seq<char>) -> bool {
    t.len() == 0 || t == "WAVES"@
}

/// The assets of a chunk that the dictionary is asked about: all but the
/// native asset.
pub open spec fn asset_candidates(chunk: Seq<BalanceHistoryView>) -> Seq<Seq<char>> {
    assets_of(chunk).filter(|t: Seq<char>| !is_native(t))
}

fn candidates(bh: &Vec<BalanceHistory>) -> (texts: Vec<String>)
    ensures
        texts_view(texts@) == asset_candidates(chunk_view(bh@)),
        texts@.len() <= bh@.len(),
{
    let waves = owned("WAVES");
    let mut texts: Vec<String> = Vec::new();
    let mut i: usize = 0;
    let ghost assets = assets_of(chunk_view(bh@));
    let ghost wanted = |t: Seq<char>| !is_native(t);
    proof {
        reveal(Seq::filter);
        assert(assets.subrange(0, 0) =~= Seq::<Seq<char>>::empty());
    }
    while i < bh.len()
        invariant
            i <= bh@.len(),
            waves@ == "WAVES"@,
            assets == assets_of(chunk_view(bh@)),
            wanted == |t: Seq<char>| !is_native(t),
            texts@.len() <= i,
            texts_view(texts@) == assets.subrange(0, i as int).filter(wanted),
        decreases bh@.len() - i,
    {
        let b = &bh[i];
        proof {
            assets.subrange(0, i as int).lemma_filter_push(b.asset_id@, wanted);
            assert(assets.subrange(0, i as int).push(b.asset_id@) =~= assets.subrange(0, i + 1));
        }
        if !(b.asset_id.as_str().unicode_len() == 0 || b.asset_id == waves) {
            let ghost before = texts@;
            texts.push(b.asset_id.clone());
            assert(texts_view(texts@) =~= texts_view(before).push(b.asset_id@));
        }
        i = i + 1;
    }
    assert(assets.subrange(0, i as int) =~= assets);
    texts
}

/// The assets of a chunk that the dictionary is asked about, without
/// repetitions, in the order in which they first occur.
pub fn assets_in(bh: &Vec<BalanceHistory>) -> (r: Vec<String>)
    ensures
        texts_view(r@) == fresh_texts(Seq::empty(), asset_candidates(chunk_view(bh@))),
{
    distinct(&candidates(bh))
}

/// Enters both names of the native asset under its reserved key.
pub fn insert_native(map: &mut StringHashMap<i64>)
    ensures
        final(map)@ == old(map)@.insert(Seq::<char>::empty(), WAVES_ASSET_ID).insert(
            "WAVES"@,
            WAVES_ASSET_ID,
        ),
{
    map.insert(String::new(), WAVES_ASSET_ID);
    map.insert(owned("WAVES"), WAVES_ASSET_ID);
}

/// Merges the assets of a chunk into the dictionary and returns each with
/// its key. The empty text and `WAVES` always map to the reserved key.
pub fn merge_bulk(db: &mut Db, bh: &Vec<BalanceHistory>) -> (map: StringHashMap<i64>)
    requires
        old(db).wf(),
        old(db).last_asset_uid + bh@.len() <= i64::MAX,
    ensures
        final(db).wf(),
        dictionary(final(db).assets@, final(db).last_asset_uid) == dictionary(
            old(db).assets@,
            old(db).last_asset_uid,
        ).merged(asset_candidates(chunk_view(bh@))),
        final(db).assets@.subrange(0, old(db).assets@.len() as int) == old(db).assets@,
        map@ == dictionary(old(db).assets@, old(db).last_asset_uid).mapping(
            asset_candidates(chunk_view(bh@)),
        ).insert(Seq::<char>::empty(), WAVES_ASSET_ID).insert("WAVES"@, WAVES_ASSET_ID),
        forall|i: int| 0 <= i < bh@.len() ==> map@.contains_key(#[trigger] bh@[i].asset_id@),
        *final(db) == (Db {
            assets: final(db).assets,
            last_asset_uid: final(db).last_asset_uid,
            ..*old(db)
        }),
{
    let texts = candidates(bh);
    let ghost assets = assets_of(chunk_view(bh@));
    let ghost wanted = |t: Seq<char>| !is_native(t);
    proof {
        let cand = asset_candidates(chunk_view(bh@));
        lemma_fresh_texts(dict_texts(db.assets@), cand);
    }
    let ghost cand = asset_candidates(chunk_view(bh@));
    let ghost known = dict_texts(db.assets@);
    let mut map = intern_all(&mut db.assets, &mut db.last_asset_uid, &texts);
    insert_native(&mut map);
    proof {
        assert(db.assets@[0] == db.assets@.subrange(0, old(db).assets@.len() as int)[0]);
        let fresh = crate::db::mappers::unique_address::fresh_texts(known, cand);
        assert(dict_texts(db.assets@) == known + fresh);
        lemma_concat_contains(known, fresh, Seq::<char>::empty());
        if fresh.contains(Seq::<char>::empty()) {
            assert(cand.contains(Seq::<char>::empty()));
            let k = choose|k: int| 0 <= k < cand.len() && cand[k] == Seq::<char>::empty();
            assets.lemma_filter_pred(wanted, k);
        }
        assert forall|i: int| 0 <= i < bh@.len() implies map@.contains_key(
            #[trigger] bh@[i].asset_id@,
        ) by {
            let t = bh@[i].asset_id@;
            assert(assets[i] == t);
            if !is_native(t) {
                assets.lemma_filter_contains(wanted, i);
                assert(cand.contains(t));
            } else if t.len() == 0 {
                assert(t =~= Seq::<char>::empty());
            }
        }
    }
    map
}

} // verus!
