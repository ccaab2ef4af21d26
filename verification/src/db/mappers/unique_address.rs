//! The dictionary of addresses: each text gets a permanent surrogate key.

use crate::db::{dict_texts, dict_uids, dict_wf, Db, DictRow};
use crate::waves::bu::balance_updates::{chunk_view, BalanceHistory, BalanceHistoryView};
use vstd::hash_map::StringHashMap;
use vstd::prelude::*;

verus! {

/// The texts of `cand` that `known` lacks, each once, in the order in which
/// they first occur.
pub open spec fn fresh_texts(known: Seq<Seq<char>>, cand: Seq<Seq<char>>) -> Seq<Seq<char>>
    decreases cand.len(),
{
    if cand.len() == 0 {
        Seq::empty()
    } else {
        let rest = fresh_texts(known, cand.drop_last());
        let t = cand.last();
        if known.contains(t) || rest.contains(t) {
            rest
        } else {
            rest.push(t)
        }
    }
}

/// A dictionary as texts and keys side by side, with the last key given out.
pub struct Dictionary {
    pub texts: Seq<Seq<char>>,
    pub uids: Seq<i64>,
    pub last: int,
}

pub open spec fn dictionary(rows: Seq<DictRow>, last: i64) -> Dictionary {
    Dictionary { texts: dict_texts(rows), uids: dict_uids(rows), last: last as int }
}

impl Dictionary {
    /// The dictionary after the texts of `cand` were merged in: the known
    /// ones keep their keys, the fresh ones get the next keys in order.
    pub open spec fn merged(self, cand: Seq<Seq<char>>) -> Dictionary {
        let fresh = fresh_texts(self.texts, cand);
        Dictionary {
            texts: self.texts + fresh,
            uids: self.uids + Seq::new(fresh.len(), |j: int| (self.last + 1 + j) as i64),
            last: self.last + fresh.len(),
        }
    }

    /// The key of a text.
    pub open spec fn uid_of(self, t: Seq<char>) -> i64 {
        self.uids[self.texts.index_of(t)]
    }

    /// The mapping that a merge of `cand` hands back: each of its texts with
    /// the key it has afterwards.
    pub open spec fn mapping(self, cand: Seq<Seq<char>>) -> Map<Seq<char>, i64> {
        Map::new(|t: Seq<char>| cand.contains(t), |t: Seq<char>| self.merged(cand).uid_of(t))
    }
}

pub proof fn lemma_concat_contains(a: Seq<Seq<char>>, b: Seq<Seq<char>>, t: Seq<char>)
    ensures
        (a + b).contains(t) <==> a.contains(t) || b.contains(t),
{
    if a.contains(t) {
        let i = choose|i: int| 0 <= i < a.len() && a[i] == t;
        assert((a + b)[i] == t);
    }
    if b.contains(t) {
        let i = choose|i: int| 0 <= i < b.len() && b[i] == t;
        assert((a + b)[a.len() + i] == t);
    }
    if (a + b).contains(t) {
        let i = choose|i: int| 0 <= i < (a + b).len() && (a + b)[i] == t;
        if i < a.len() {
            assert(a[i] == t);
        } else {
            assert(b[i - a.len()] == t);
        }
    }
}

/// In a sequence without duplicates a text stands at one position only.
pub proof fn lemma_index_of_unique(s: Seq<Seq<char>>, k: int)
    requires
        s.no_duplicates(),
        0 <= k < s.len(),
    ensures
        s.index_of(s[k]) == k,
{
    let i = s.index_of(s[k]);
    assert(0 <= i < s.len() && s[i] == s[k]);
}

/// Fresh texts are new, distinct, and taken from the candidates; every
/// candidate is known afterwards.
pub proof fn lemma_fresh_texts(known: Seq<Seq<char>>, cand: Seq<Seq<char>>)
    ensures
        fresh_texts(known, cand).no_duplicates(),
        fresh_texts(known, cand).len() <= cand.len(),
        forall|t: Seq<char>| #[trigger]
            fresh_texts(known, cand).contains(t) ==> cand.contains(t) && !known.contains(t),
        forall|t: Seq<char>|
            cand.contains(t) ==> known.contains(t) || #[trigger] fresh_texts(known, cand).contains(
                t,
            ),
    decreases cand.len(),
{
    if cand.len() > 0 {
        let rest = fresh_texts(known, cand.drop_last());
        let last = cand.last();
        lemma_fresh_texts(known, cand.drop_last());
        let f = fresh_texts(known, cand);
        assert forall|t: Seq<char>| #[trigger] f.contains(t) implies cand.contains(t)
            && !known.contains(t) by {
            let i = choose|i: int| 0 <= i < f.len() && f[i] == t;
            if i < rest.len() {
                assert(rest[i] == t);
                assert(rest.contains(t));
                let j = choose|j: int| 0 <= j < cand.drop_last().len() && cand.drop_last()[j] == t;
                assert(cand[j] == t);
            } else {
                assert(cand[cand.len() - 1] == t);
            }
        }
        assert forall|t: Seq<char>| cand.contains(t) implies known.contains(t)
            || #[trigger] f.contains(t) by {
            let j = choose|j: int| 0 <= j < cand.len() && cand[j] == t;
            if j < cand.len() - 1 {
                assert(cand.drop_last()[j] == t);
                assert(cand.drop_last().contains(t));
                if rest.contains(t) {
                    let i = choose|i: int| 0 <= i < rest.len() && rest[i] == t;
                    assert(f[i] == t);
                }
            } else {
                if !known.contains(t) && !rest.contains(t) {
                    assert(f[rest.len() as int] == t);
                }
            }
        }
        assert(f.no_duplicates()) by {
            if !(known.contains(last) || rest.contains(last)) {
                assert forall|i: int, j: int| 0 <= i < j < f.len() implies f[i] != f[j] by {
                    if j == rest.len() {
                        assert(rest[i] == f[i]);
                        assert(rest.contains(f[i]));
                    } else {
                        assert(rest[i] != rest[j]);
                    }
                }
            }
        }
    }
}

/// Merging one list of texts in two parts, one after the other, gives the
/// dictionary that merging the whole list at once gives, and each text of the
/// first part the key that it gets from the whole.
pub proof fn lemma_merge_bulk_is_partition_independent(
    d: Dictionary,
    a: Seq<Seq<char>>,
    b: Seq<Seq<char>>,
)
    requires
        d.texts.no_duplicates(),
        d.texts.len() == d.uids.len(),
    ensures
        d.merged(a).merged(b) == d.merged(a + b),
        forall|t: Seq<char>| a.contains(t) ==> d.merged(a).uid_of(t) == d.merged(a + b).uid_of(t),
        forall|t: Seq<char>|
            b.contains(t) ==> d.merged(a).merged(b).uid_of(t) == d.merged(a + b).uid_of(t),
    decreases b.len(),
{
    lemma_fresh_split(d.texts, a, b);
    let fa = fresh_texts(d.texts, a);
    let fb = fresh_texts(d.texts + fa, b);
    assert(d.merged(a).merged(b).texts =~= d.merged(a + b).texts);
    assert(d.merged(a).merged(b).uids =~= d.merged(a + b).uids);
    lemma_fresh_texts(d.texts, a);
    lemma_fresh_texts(d.texts, a + b);
    let whole = d.merged(a + b);
    let first = d.merged(a);
    assert(whole.texts =~= first.texts + fb);
    assert(whole.texts.no_duplicates()) by {
        lemma_merged_no_duplicates(d.texts, a + b);
    }
    assert(first.texts.no_duplicates()) by {
        lemma_merged_no_duplicates(d.texts, a);
    }
    assert forall|t: Seq<char>| a.contains(t) implies first.uid_of(t) == whole.uid_of(t) by {
        lemma_concat_contains(d.texts, fa, t);
        assert(first.texts.contains(t));
        let k = choose|k: int| 0 <= k < first.texts.len() && first.texts[k] == t;
        lemma_index_of_unique(first.texts, k);
        assert(whole.texts[k] == t);
        lemma_index_of_unique(whole.texts, k);
        assert(first.uids[k] == whole.uids[k]);
    }
}

/// The fresh texts of a list are those of its first part, then those of its
/// second part that the first did not bring.
pub proof fn lemma_fresh_split(known: Seq<Seq<char>>, a: Seq<Seq<char>>, b: Seq<Seq<char>>)
    ensures
        fresh_texts(known, a + b) == fresh_texts(known, a) + fresh_texts(
            known + fresh_texts(known, a),
            b,
        ),
    decreases b.len(),
{
    let fa = fresh_texts(known, a);
    if b.len() == 0 {
        assert(a + b =~= a);
        assert(fa + Seq::<Seq<char>>::empty() =~= fa);
    } else {
        lemma_fresh_split(known, a, b.drop_last());
        assert((a + b).drop_last() =~= a + b.drop_last());
        let t = b.last();
        let rest_b = fresh_texts(known + fa, b.drop_last());
        let rest = fresh_texts(known, a + b.drop_last());
        assert(rest == fa + rest_b);
        lemma_concat_contains(known, fa, t);
        lemma_concat_contains(fa, rest_b, t);
        if known.contains(t) || rest.contains(t) {
        } else {
            assert((fa + rest_b).push(t) =~= fa + rest_b.push(t));
        }
    }
}

/// A dictionary without duplicates has none after a merge.
pub proof fn lemma_merged_no_duplicates(known: Seq<Seq<char>>, cand: Seq<Seq<char>>)
    requires
        known.no_duplicates(),
    ensures
        (known + fresh_texts(known, cand)).no_duplicates(),
{
    lemma_fresh_texts(known, cand);
    let f = fresh_texts(known, cand);
    let s = known + f;
    assert forall|i: int, j: int| 0 <= i < j < s.len() implies s[i] != s[j] by {
        if j < known.len() {
        } else if i >= known.len() {
            assert(f[i - known.len()] != f[j - known.len()]);
        } else {
            assert(f.contains(f[j - known.len()]));
            if s[i] == s[j] {
                assert(known[i] == f[j - known.len()]);
                assert(known.contains(f[j - known.len()]));
            }
        }
    }
}

/// The views of some owned texts.
pub open spec fn texts_view(texts: Seq<String>) -> Seq<Seq<char>> {
    texts.map_values(|t: String| t@)
}

/// Position of a text in a dictionary.
pub fn find_text(rows: &Vec<DictRow>, t: &String) -> (r: Option<usize>)
    ensures
        match r {
            Some(k) => k < rows@.len() && rows@[k as int].text@ == t@,
            None => !dict_texts(rows@).contains(t@),
        },
{
    let mut i: usize = 0;
    while i < rows.len()
        invariant
            i <= rows@.len(),
            forall|k: int| 0 <= k < i ==> dict_texts(rows@)[k] != t@,
        decreases rows@.len() - i,
    {
        if rows[i].text == *t {
            return Some(i);
        }
        i = i + 1;
    }
    None
}

/// Merges texts into a dictionary and returns each with its key.
pub fn intern_all(rows: &mut Vec<DictRow>, last: &mut i64, texts: &Vec<String>) -> (map:
    StringHashMap<i64>)
    requires
        dict_wf(old(rows)@, *old(last)),
        *old(last) + texts@.len() <= i64::MAX,
    ensures
        dict_wf(final(rows)@, *final(last)),
        dictionary(final(rows)@, *final(last)) == dictionary(old(rows)@, *old(last)).merged(
            texts_view(texts@),
        ),
        final(rows)@.len() >= old(rows)@.len(),
        final(rows)@.subrange(0, old(rows)@.len() as int) == old(rows)@,
        map@ == dictionary(old(rows)@, *old(last)).mapping(texts_view(texts@)),
{
    let mut map: StringHashMap<i64> = StringHashMap::new();
    let ghost d0 = dictionary(rows@, *last);
    let ghost tv = texts_view(texts@);
    let mut i: usize = 0;
    proof {
        assert(tv.subrange(0, 0) =~= Seq::<Seq<char>>::empty());
        assert(d0.merged(tv.subrange(0, 0)).texts =~= d0.texts);
        assert(d0.merged(tv.subrange(0, 0)).uids =~= d0.uids);
        assert(map@ =~= d0.mapping(tv.subrange(0, 0)));
        assert(rows@.subrange(0, rows@.len() as int) =~= rows@);
    }
    while i < texts.len()
        invariant
            i <= texts@.len(),
            tv == texts_view(texts@),
            d0 == dictionary(old(rows)@, *old(last)),
            dict_wf(old(rows)@, *old(last)),
            d0.last + texts@.len() <= i64::MAX,
            dict_wf(rows@, *last),
            dictionary(rows@, *last) == d0.merged(tv.subrange(0, i as int)),
            rows@.len() >= old(rows)@.len(),
            rows@.subrange(0, old(rows)@.len() as int) == old(rows)@,
            map@ == d0.mapping(tv.subrange(0, i as int)),
        decreases texts@.len() - i,
    {
        let t = &texts[i];
        let ghost prev = tv.subrange(0, i as int);
        let ghost next = tv.subrange(0, i + 1);
        let ghost before = dictionary(rows@, *last);
        proof {
            assert(next.drop_last() =~= prev);
            assert(next.last() == t@);
            lemma_concat_contains(d0.texts, fresh_texts(d0.texts, prev), t@);
            lemma_fresh_texts(d0.texts, prev);
            lemma_fresh_texts(d0.texts, next);
            assert(tv[i as int] == t@);
        }
        let uid = match find_text(rows, t) {
            Some(k) => {
                proof {
                    assert(dict_texts(rows@)[k as int] == t@);
                    assert(d0.merged(next) == d0.merged(prev));
                    lemma_index_of_unique(dict_texts(rows@), k as int);
                }
                rows[k].uid
            },
            None => {
                let uid = *last + 1;
                let ghost rows0 = rows@;
                rows.push(DictRow { uid, text: t.clone() });
                *last = uid;
                proof {
                    let f = fresh_texts(d0.texts, prev);
                    assert(dict_texts(rows@) =~= dict_texts(rows0).push(t@));
                    assert(dict_uids(rows@) =~= dict_uids(rows0).push(uid));
                    assert(d0.merged(next).texts =~= dict_texts(rows@));
                    assert(d0.merged(next).uids =~= dict_uids(rows@));
                    lemma_merged_no_duplicates(d0.texts, next);
                    assert(rows@.subrange(0, old(rows)@.len() as int) =~= rows0.subrange(
                        0,
                        old(rows)@.len() as int,
                    ));
                    lemma_index_of_unique(dict_texts(rows@), rows0.len() as int);
                }
                uid
            },
        };
        map.insert(t.clone(), uid);
        proof {
            let after = dictionary(rows@, *last);
            assert(after == d0.merged(next));
            assert(after.uid_of(t@) == uid);
            assert forall|s: Seq<char>| prev.contains(s) implies before.uid_of(s) == after.uid_of(
                s,
            ) by {
                lemma_concat_contains(d0.texts, fresh_texts(d0.texts, prev), s);
                assert(d0.texts.contains(s) || fresh_texts(d0.texts, prev).contains(s));
                assert(before.texts.contains(s));
                let k = choose|k: int| 0 <= k < before.texts.len() && before.texts[k] == s;
                lemma_index_of_unique(before.texts, k);
                assert(after.texts[k] == s);
                lemma_index_of_unique(after.texts, k);
                assert(after.uids[k] == before.uids[k]);
            }
            assert forall|s: Seq<char>| next.contains(s) <==> prev.contains(s) || s == t@ by {
                if prev.contains(s) {
                    let k = choose|k: int| 0 <= k < prev.len() && prev[k] == s;
                    assert(next[k] == s);
                }
                if next.contains(s) {
                    let k = choose|k: int| 0 <= k < next.len() && next[k] == s;
                    if k < prev.len() {
                        assert(prev[k] == s);
                    }
                }
                assert(next[i as int] == t@);
            }
            assert(map@ =~= d0.mapping(next));
        }
        i = i + 1;
    }
    assert(tv.subrange(0, i as int) =~= tv);
    map
}

/// The addresses of a chunk, in order.
pub open spec fn addresses_of(chunk: Seq<BalanceHistoryView>) -> Seq<Seq<char>> {
    chunk.map_values(|b: BalanceHistoryView| b.address)
}

/// The texts without repetitions, in the order in which they first occur.
pub fn distinct(texts: &Vec<String>) -> (r: Vec<String>)
    ensures
        texts_view(r@) == fresh_texts(Seq::empty(), texts_view(texts@)),
{
    let mut r: Vec<String> = Vec::new();
    let ghost tv = texts_view(texts@);
    let mut i: usize = 0;
    proof {
        assert(tv.subrange(0, 0) =~= Seq::<Seq<char>>::empty());
        assert(texts_view(r@) =~= Seq::<Seq<char>>::empty());
    }
    while i < texts.len()
        invariant
            i <= texts@.len(),
            tv == texts_view(texts@),
            texts_view(r@) == fresh_texts(Seq::empty(), tv.subrange(0, i as int)),
        decreases texts@.len() - i,
    {
        let t = &texts[i];
        proof {
            assert(tv.subrange(0, i + 1).drop_last() =~= tv.subrange(0, i as int));
            assert(tv.subrange(0, i + 1).last() == t@);
        }
        let mut found = false;
        let mut k: usize = 0;
        while k < r.len() && !found
            invariant
                k <= r@.len(),
                !found ==> forall|j: int| 0 <= j < k ==> texts_view(r@)[j] != t@,
                found ==> texts_view(r@).contains(t@),
            decreases r@.len() - k + if found { 0int } else { 1int },
        {
            if r[k] == *t {
                assert(texts_view(r@)[k as int] == t@);
                found = true;
            } else {
                k = k + 1;
            }
        }
        if !found {
            let ghost before = r@;
            r.push(t.clone());
            assert(texts_view(r@) =~= texts_view(before).push(t@));
        }
        i = i + 1;
    }
    assert(tv.subrange(0, i as int) =~= tv);
    r
}

/// The addresses of a chunk without repetitions, in the order in which they
/// first occur.
pub fn addresses_in(bh: &Vec<BalanceHistory>) -> (r: Vec<String>)
    ensures
        texts_view(r@) == fresh_texts(Seq::empty(), addresses_of(chunk_view(bh@))),
{
    let mut texts: Vec<String> = Vec::new();
    let mut i: usize = 0;
    while i < bh.len()
        invariant
            i <= bh@.len(),
            texts@.len() == i,
            forall|k: int| 0 <= k < i ==> texts@[k]@ == bh@[k].address@,
        decreases bh@.len() - i,
    {
        texts.push(bh[i].address.clone());
        i = i + 1;
    }
    assert(texts_view(texts@) =~= addresses_of(chunk_view(bh@)));
    distinct(&texts)
}

/// Merges the addresses of a chunk into the dictionary and returns each with
/// its key. Known addresses keep their keys; new ones get the next keys in
/// the order in which they first occur.
pub fn merge_bulk(db: &mut Db, bh: &Vec<BalanceHistory>) -> (map: StringHashMap<i64>)
    requires
        old(db).wf(),
        old(db).last_address_uid + bh@.len() <= i64::MAX,
    ensures
        final(db).wf(),
        dictionary(final(db).addresses@, final(db).last_address_uid) == dictionary(
            old(db).addresses@,
            old(db).last_address_uid,
        ).merged(addresses_of(chunk_view(bh@))),
        final(db).addresses@.subrange(0, old(db).addresses@.len() as int) == old(db).addresses@,
        map@ == dictionary(old(db).addresses@, old(db).last_address_uid).mapping(
            addresses_of(chunk_view(bh@)),
        ),
        *final(db) == (Db {
            addresses: final(db).addresses,
            last_address_uid: final(db).last_address_uid,
            ..*old(db)
        }),
{
    let mut texts: Vec<String> = Vec::new();
    let mut i: usize = 0;
    while i < bh.len()
        invariant
            i <= bh@.len(),
            texts@.len() == i,
            forall|k: int| 0 <= k < i ==> texts@[k]@ == bh@[k].address@,
        decreases bh@.len() - i,
    {
        texts.push(bh[i].address.clone());
        i = i + 1;
    }
    assert(texts_view(texts@) =~= addresses_of(chunk_view(bh@)));
    intern_all(&mut db.addresses, &mut db.last_address_uid, &texts)
}

} // verus!
