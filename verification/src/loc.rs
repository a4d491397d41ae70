//! The localization table model: key/value/flag rows of translatable
//! strings, and the first-occurrence-wins merge they are flattened with.

use vstd::prelude::*;

verus! {

/// One translatable string: key, value and the engine's row flag.
#[derive(Debug, PartialEq, Eq)]
pub struct LocEntry {
    pub key: Vec<u8>,
    pub value: Vec<u8>,
    pub flag: bool,
}

/// Ghost value of a localization entry.
pub struct LocEntryV {
    pub key: Seq<u8>,
    pub value: Seq<u8>,
    pub flag: bool,
}

impl DeepView for LocEntry {
    type V = LocEntryV;

    open spec fn deep_view(&self) -> LocEntryV {
        LocEntryV { key: self.key@, value: self.value@, flag: self.flag }
    }
}

/// A localization table; keys are unique within one flattened table.
#[derive(Debug, PartialEq, Eq)]
pub struct LocTable {
    pub entries: Vec<LocEntry>,
}

impl DeepView for LocTable {
    type V = Seq<LocEntryV>;

    open spec fn deep_view(&self) -> Seq<LocEntryV> {
        self.entries.deep_view()
    }
}

pub fn clone_entry(e: &LocEntry) -> (r: LocEntry)
    ensures
        r.deep_view() == e.deep_view(),
{
    LocEntry { key: e.key.clone(), value: e.value.clone(), flag: e.flag }
}

pub fn clone_entries(es: &Vec<LocEntry>) -> (r: Vec<LocEntry>)
    ensures
        r.deep_view() == es.deep_view(),
{
    let mut r: Vec<LocEntry> = Vec::new();
    let n = es.len();
    let mut i: usize = 0;
    while i < n
        invariant
            n == es@.len(),
            i <= n,
            r@.len() == i,
            forall|j: int| 0 <= j < i ==> r@[j].deep_view() == es@[j].deep_view(),
        decreases n - i,
    {
        r.push(clone_entry(&es[i]));
        i += 1;
    }
    proof {
        assert(r.deep_view() =~= es.deep_view());
    }
    r
}

/// Appends clones of all of `src` to `dst`.
pub fn append_entries(dst: &mut Vec<LocEntry>, src: &Vec<LocEntry>)
    ensures
        final(dst).deep_view() == old(dst).deep_view() + src.deep_view(),
{
    let n = src.len();
    let base = dst.len();
    let mut i: usize = 0;
    while i < n
        invariant
            n == src@.len(),
            base == old(dst)@.len(),
            i <= n,
            dst@.len() == base + i,
            forall|j: int| 0 <= j < base ==> dst@[j].deep_view() == old(dst)@[j].deep_view(),
            forall|j: int| 0 <= j < i ==> dst@[base + j].deep_view() == src@[j].deep_view(),
        decreases n - i,
    {
        dst.push(clone_entry(&src[i]));
        i += 1;
    }
    proof {
        assert(dst.deep_view() =~= old(dst).deep_view() + src.deep_view());
    }
}

/// The key set of a row list.
pub open spec fn keys_of(rows: Seq<LocEntryV>) -> Set<Seq<u8>> {
    Set::new(|k: Seq<u8>| exists|i: int| 0 <= i < rows.len() && (#[trigger] rows[i]).key == k)
}

/// No two rows share a key.
pub open spec fn unique_keys(rows: Seq<LocEntryV>) -> bool {
    forall|i: int, j: int| 0 <= i < j < rows.len() ==> rows[i].key != rows[j].key
}

/// The first row with the given key, if any.
pub open spec fn spec_lookup(rows: Seq<LocEntryV>, key: Seq<u8>) -> Option<LocEntryV>
    decreases rows.len(),
{
    if rows.len() == 0 {
        None
    } else if rows[0].key == key {
        Some(rows[0])
    } else {
        spec_lookup(rows.skip(1), key)
    }
}

/// First-occurrence-wins flattening: a row is kept exactly when no
/// earlier row carries its key.
pub open spec fn spec_first_wins(rows: Seq<LocEntryV>) -> Seq<LocEntryV> {
    spec_first_wins_aux(rows, Set::empty())
}

pub open spec fn spec_first_wins_aux(rows: Seq<LocEntryV>, seen: Set<Seq<u8>>) -> Seq<LocEntryV>
    decreases rows.len(),
{
    if rows.len() == 0 {
        rows
    } else if seen.contains(rows[0].key) {
        spec_first_wins_aux(rows.skip(1), seen)
    } else {
        seq![rows[0]] + spec_first_wins_aux(rows.skip(1), seen.insert(rows[0].key))
    }
}

/// Flattens a row list, keeping the first occurrence of every key.
pub fn first_wins(rows: &Vec<LocEntry>) -> (r: Vec<LocEntry>)
    ensures
        r.deep_view() == spec_first_wins(rows.deep_view()),
{
    let n = rows.len();
    let mut out: Vec<LocEntry> = Vec::new();
    let mut seen: Vec<Vec<u8>> = Vec::new();
    let ghost rv = rows.deep_view();
    let mut i: usize = 0;
    proof {
        assert(rv.skip(0) =~= rv);
        assert(seen_set(seen@) =~= Set::<Seq<u8>>::empty());
        assert(Seq::<LocEntryV>::empty() + spec_first_wins_aux(rv, Set::empty())
            =~= spec_first_wins_aux(rv, Set::empty()));
    }
    while i < n
        invariant
            n == rows@.len(),
            rv == rows.deep_view(),
            rv.len() == n,
            i <= n,
            spec_first_wins(rv) == out.deep_view() + spec_first_wins_aux(
                rv.skip(i as int),
                seen_set(seen@),
            ),
        decreases n - i,
    {
        let ghost seen0 = seen_set(seen@);
        let ghost s = rv.skip(i as int);
        proof {
            assert(s[0] == rv[i as int]);
            assert(s.skip(1) =~= rv.skip(i + 1));
        }
        let e = &rows[i];
        proof {
            assert(e.deep_view() == rv[i as int]);
        }
        if contains_key(&seen, &e.key) {
            proof {
                assert(seen0.contains(rv[i as int].key));
                assert(spec_first_wins_aux(s, seen0) == spec_first_wins_aux(s.skip(1), seen0));
            }
        } else {
            let ghost out0 = out.deep_view();
            let ghost seen_keys0 = seen@;
            out.push(clone_entry(e));
            let cloned_key = e.key.clone();
            let ghost ck = cloned_key;
            seen.push(cloned_key);
            proof {
                assert(!seen0.contains(rv[i as int].key));
                assert(spec_first_wins_aux(s, seen0) == seq![s[0]] + spec_first_wins_aux(
                    s.skip(1),
                    seen0.insert(s[0].key),
                ));
                lemma_seen_push(seen_keys0, ck);
                assert(seen_set(seen@) == seen0.insert(rv[i as int].key));
                assert(out.deep_view() =~= out0.push(rv[i as int]));
                assert(out0 + (seq![s[0]] + spec_first_wins_aux(s.skip(1), seen0.insert(s[0].key)))
                    =~= out0.push(rv[i as int]) + spec_first_wins_aux(
                    rv.skip(i + 1),
                    seen_set(seen@),
                ));
            }
        }
        i += 1;
    }
    proof {
        assert(rv.skip(n as int) =~= Seq::<LocEntryV>::empty());
        assert(out.deep_view() + Seq::<LocEntryV>::empty() =~= out.deep_view());
    }
    out
}

/// The set of keys held by a seen-list.
pub open spec fn seen_set(keys: Seq<Vec<u8>>) -> Set<Seq<u8>> {
    Set::new(|k: Seq<u8>| exists|i: int| 0 <= i < keys.len() && (#[trigger] keys[i])@ == k)
}

pub(crate) proof fn lemma_seen_push(keys: Seq<Vec<u8>>, x: Vec<u8>)
    ensures
        seen_set(keys.push(x)) == seen_set(keys).insert(x@),
{
    assert forall|k: Seq<u8>| seen_set(keys.push(x)).contains(k) implies seen_set(keys).insert(
        x@,
    ).contains(k) by {
        let i = choose|i: int| 0 <= i < keys.push(x).len() && (#[trigger] keys.push(x)[i])@ == k;
        if i < keys.len() {
            assert(keys[i]@ == k);
        }
    }
    assert forall|k: Seq<u8>| seen_set(keys).insert(x@).contains(k) implies seen_set(
        keys.push(x),
    ).contains(k) by {
        if k == x@ {
            assert(keys.push(x)[keys.len() as int]@ == k);
        } else {
            let i = choose|i: int| 0 <= i < keys.len() && (#[trigger] keys[i])@ == k;
            assert(keys.push(x)[i]@ == k);
        }
    }
    assert(seen_set(keys.push(x)) =~= seen_set(keys).insert(x@));
}

/// Whether the seen-list holds the key.
pub(crate) fn contains_key(seen: &Vec<Vec<u8>>, key: &Vec<u8>) -> (r: bool)
    ensures
        r == seen_set(seen@).contains(key@),
{
    let n = seen.len();
    let mut i: usize = 0;
    while i < n
        invariant
            n == seen@.len(),
            i <= n,
            forall|j: int| 0 <= j < i ==> (#[trigger] seen@[j])@ != key@,
        decreases n - i,
    {
        if crate::text::bytes_eq(&seen[i], key) {
            return true;
        }
        i += 1;
    }
    proof {
        if seen_set(seen@).contains(key@) {
            let j = choose|j: int| 0 <= j < seen@.len() && (#[trigger] seen@[j])@ == key@;
        }
    }
    false
}


/// Concatenation of the row lists of several tables, in order.
pub open spec fn spec_concat(ts: Seq<Seq<LocEntryV>>) -> Seq<LocEntryV>
    decreases ts.len(),
{
    if ts.len() == 0 {
        Seq::empty()
    } else {
        ts[0] + spec_concat(ts.skip(1))
    }
}

pub proof fn lemma_concat_snoc(ts: Seq<Seq<LocEntryV>>, x: Seq<LocEntryV>)
    ensures
        spec_concat(ts.push(x)) == spec_concat(ts) + x,
    decreases ts.len(),
{
    if ts.len() == 0 {
        assert(ts.push(x).skip(1) =~= Seq::<Seq<LocEntryV>>::empty());
        assert(spec_concat(Seq::<Seq<LocEntryV>>::empty()) == Seq::<LocEntryV>::empty());
        assert(ts.push(x)[0] == x);
        assert(spec_concat(ts.push(x)) == x + Seq::<LocEntryV>::empty());
        assert(x + Seq::<LocEntryV>::empty() =~= x);
        assert(spec_concat(ts) == Seq::<LocEntryV>::empty());
        assert(Seq::<LocEntryV>::empty() + x =~= x);
    } else {
        assert(ts.push(x).skip(1) =~= ts.skip(1).push(x));
        lemma_concat_snoc(ts.skip(1), x);
        assert(ts.push(x)[0] == ts[0]);
        assert(ts[0] + (spec_concat(ts.skip(1)) + x) =~= (ts[0] + spec_concat(ts.skip(1))) + x);
    }
}

/// Merges localization tables into one: rows are concatenated in table
/// order and flattened first-occurrence-wins, so an earlier table's row
/// beats any later row with the same key.
pub fn merge_tables(tables: &Vec<LocTable>) -> (r: LocTable)
    ensures
        r.deep_view() == spec_first_wins(spec_concat(tables.deep_view())),
{
    let n = tables.len();
    let mut acc: Vec<LocEntry> = Vec::new();
    let mut i: usize = 0;
    proof {
        assert(tables.deep_view().take(0) =~= Seq::<Seq<LocEntryV>>::empty());
    }
    while i < n
        invariant
            n == tables@.len(),
            tables.deep_view().len() == n,
            i <= n,
            acc.deep_view() == spec_concat(tables.deep_view().take(i as int)),
        decreases n - i,
    {
        append_entries(&mut acc, &tables[i].entries);
        proof {
            let tv = tables.deep_view();
            assert(tv.take(i + 1) =~= tv.take(i as int).push(tv[i as int]));
            lemma_concat_snoc(tv.take(i as int), tv[i as int]);
            assert(tables[i as int].entries.deep_view() == tv[i as int]);
        }
        i += 1;
    }
    proof {
        assert(tables.deep_view().take(n as int) =~= tables.deep_view());
    }
    let entries = first_wins(&acc);
    LocTable { entries }
}

/// A key is found exactly when it is in the key set.
pub proof fn lemma_lookup_some_iff(rows: Seq<LocEntryV>, key: Seq<u8>)
    ensures
        spec_lookup(rows, key) is Some <==> keys_of(rows).contains(key),
    decreases rows.len(),
{
    if rows.len() == 0 {
        assert(!keys_of(rows).contains(key));
    } else if rows[0].key == key {
        assert(keys_of(rows).contains(key));
    } else {
        lemma_lookup_some_iff(rows.skip(1), key);
        if keys_of(rows).contains(key) {
            let i = choose|i: int| 0 <= i < rows.len() && (#[trigger] rows[i]).key == key;
            assert(rows.skip(1)[i - 1].key == key);
            assert(keys_of(rows.skip(1)).contains(key));
        }
        if keys_of(rows.skip(1)).contains(key) {
            let i = choose|i: int|
                0 <= i < rows.skip(1).len() && (#[trigger] rows.skip(1)[i]).key == key;
            assert(rows[i + 1].key == key);
            assert(keys_of(rows).contains(key));
        }
    }
}

proof fn lemma_aux_lookup(rows: Seq<LocEntryV>, seen: Set<Seq<u8>>, key: Seq<u8>)
    requires
        !seen.contains(key),
    ensures
        spec_lookup(spec_first_wins_aux(rows, seen), key) == spec_lookup(rows, key),
    decreases rows.len(),
{
    if rows.len() == 0 {
    } else if seen.contains(rows[0].key) {
        lemma_aux_lookup(rows.skip(1), seen, key);
    } else {
        let tail = spec_first_wins_aux(rows.skip(1), seen.insert(rows[0].key));
        let whole = seq![rows[0]] + tail;
        assert(whole[0] == rows[0]);
        assert(whole.skip(1) =~= tail);
        if rows[0].key == key {
        } else {
            lemma_aux_lookup(rows.skip(1), seen.insert(rows[0].key), key);
        }
    }
}

/// Flattening preserves every lookup: the surviving row for a key is the
/// first row that carried it.
pub proof fn lemma_first_wins_lookup(rows: Seq<LocEntryV>, key: Seq<u8>)
    ensures
        spec_lookup(spec_first_wins(rows), key) == spec_lookup(rows, key),
{
    lemma_aux_lookup(rows, Set::empty(), key);
}

proof fn lemma_aux_unique(rows: Seq<LocEntryV>, seen: Set<Seq<u8>>)
    ensures
        unique_keys(spec_first_wins_aux(rows, seen)),
        forall|i: int| 0 <= i < spec_first_wins_aux(rows, seen).len() ==> !seen.contains(
            (#[trigger] spec_first_wins_aux(rows, seen)[i]).key,
        ),
    decreases rows.len(),
{
    if rows.len() == 0 {
    } else if seen.contains(rows[0].key) {
        lemma_aux_unique(rows.skip(1), seen);
    } else {
        lemma_aux_unique(rows.skip(1), seen.insert(rows[0].key));
        let tail = spec_first_wins_aux(rows.skip(1), seen.insert(rows[0].key));
        let whole = seq![rows[0]] + tail;
        assert(whole[0] == rows[0]);
        assert(whole.skip(1) =~= tail);
        assert forall|i: int, j: int| 0 <= i < j < whole.len() implies whole[i].key
            != whole[j].key by {
            if i == 0 {
                assert(whole[j] == tail[j - 1]);
                assert(!seen.insert(rows[0].key).contains(tail[j - 1].key)
                    ==> tail[j - 1].key != rows[0].key);
            } else {
                assert(whole[i] == tail[i - 1] && whole[j] == tail[j - 1]);
            }
        }
    }
}

/// A flattened table never repeats a key.
pub proof fn lemma_first_wins_unique(rows: Seq<LocEntryV>)
    ensures
        unique_keys(spec_first_wins(rows)),
{
    lemma_aux_unique(rows, Set::empty());
}

proof fn lemma_aux_id(rows: Seq<LocEntryV>, seen: Set<Seq<u8>>)
    requires
        unique_keys(rows),
        forall|i: int| 0 <= i < rows.len() ==> !seen.contains((#[trigger] rows[i]).key),
    ensures
        spec_first_wins_aux(rows, seen) == rows,
    decreases rows.len(),
{
    if rows.len() > 0 {
        assert(!seen.contains(rows[0].key));
        assert forall|i: int| 0 <= i < rows.skip(1).len() implies !seen.insert(
            rows[0].key,
        ).contains((#[trigger] rows.skip(1)[i]).key) by {
            assert(rows.skip(1)[i] == rows[i + 1]);
        }
        lemma_aux_id(rows.skip(1), seen.insert(rows[0].key));
        assert(seq![rows[0]] + rows.skip(1) =~= rows);
    }
}

/// Merging row lists with pairwise-unique, mutually disjoint keys drops
/// nothing: the flattened size is the sum of the sizes.
pub proof fn lemma_merge_disjoint(a: Seq<LocEntryV>, b: Seq<LocEntryV>)
    requires
        unique_keys(a),
        unique_keys(b),
        keys_of(a).disjoint(keys_of(b)),
    ensures
        spec_first_wins(a + b) == a + b,
        spec_first_wins(a + b).len() == a.len() + b.len(),
{
    let c = a + b;
    assert forall|i: int, j: int| 0 <= i < j < c.len() implies c[i].key != c[j].key by {
        if i < a.len() && j >= a.len() {
            assert(c[i] == a[i]);
            assert(c[j] == b[j - a.len()]);
            assert(keys_of(a).contains(a[i].key));
            assert(keys_of(b).contains(b[j - a.len()].key));
        } else if i < a.len() {
            assert(c[i] == a[i] && c[j] == a[j]);
        } else {
            assert(c[i] == b[i - a.len()] && c[j] == b[j - a.len()]);
        }
    }
    assert forall|i: int| 0 <= i < c.len() implies !Set::<Seq<u8>>::empty().contains(
        (#[trigger] c[i]).key,
    ) by {}
    lemma_aux_id(c, Set::empty());
}

/// A lookup in a concatenation falls back from the front list to the
/// back list.
pub proof fn lemma_lookup_append(a: Seq<LocEntryV>, b: Seq<LocEntryV>, key: Seq<u8>)
    ensures
        spec_lookup(a + b, key) == (match spec_lookup(a, key) {
            Some(e) => Some(e),
            None => spec_lookup(b, key),
        }),
    decreases a.len(),
{
    if a.len() == 0 {
        assert(a + b =~= b);
    } else {
        assert((a + b)[0] == a[0]);
        assert((a + b).skip(1) =~= a.skip(1) + b);
        lemma_lookup_append(a.skip(1), b, key);
    }
}

/// Flattening keeps the key set unchanged.
pub proof fn lemma_first_wins_keys(rows: Seq<LocEntryV>)
    ensures
        keys_of(spec_first_wins(rows)) == keys_of(rows),
{
    assert forall|k: Seq<u8>| #[trigger] keys_of(spec_first_wins(rows)).contains(k) implies keys_of(
        rows,
    ).contains(k) by {
        lemma_lookup_some_iff(spec_first_wins(rows), k);
        lemma_first_wins_lookup(rows, k);
        lemma_lookup_some_iff(rows, k);
    }
    assert forall|k: Seq<u8>| #[trigger] keys_of(rows).contains(k) implies keys_of(
        spec_first_wins(rows),
    ).contains(k) by {
        lemma_lookup_some_iff(spec_first_wins(rows), k);
        lemma_first_wins_lookup(rows, k);
        lemma_lookup_some_iff(rows, k);
    }
    assert(keys_of(spec_first_wins(rows)) =~= keys_of(rows));
}


/// The total row count of several tables.
pub open spec fn spec_sum_lens(ts: Seq<Seq<LocEntryV>>) -> int
    decreases ts.len(),
{
    if ts.len() == 0 {
        0
    } else {
        ts[0].len() + spec_sum_lens(ts.skip(1))
    }
}

proof fn lemma_concat_len(ts: Seq<Seq<LocEntryV>>)
    ensures
        spec_concat(ts).len() == spec_sum_lens(ts),
    decreases ts.len(),
{
    if ts.len() > 0 {
        lemma_concat_len(ts.skip(1));
    }
}

proof fn lemma_concat_keys(ts: Seq<Seq<LocEntryV>>, k: Seq<u8>)
    requires
        keys_of(spec_concat(ts)).contains(k),
    ensures
        exists|i: int| 0 <= i < ts.len() && keys_of(#[trigger] ts[i]).contains(k),
    decreases ts.len(),
{
    if ts.len() == 0 {
        lemma_lookup_some_iff(spec_concat(ts), k);
    } else {
        lemma_lookup_some_iff(spec_concat(ts), k);
        lemma_lookup_append(ts[0], spec_concat(ts.skip(1)), k);
        if spec_lookup(ts[0], k) is Some {
            lemma_lookup_some_iff(ts[0], k);
            assert(keys_of(ts[0]).contains(k));
        } else {
            lemma_lookup_some_iff(spec_concat(ts.skip(1)), k);
            lemma_concat_keys(ts.skip(1), k);
            let i = choose|i: int|
                0 <= i < ts.skip(1).len() && keys_of(#[trigger] ts.skip(1)[i]).contains(k);
            assert(ts.skip(1)[i] == ts[i + 1]);
            assert(keys_of(ts[i + 1]).contains(k));
        }
    }
}

/// Merging any number of tables whose key sets are pairwise disjoint
/// (each internally unique) drops nothing: the flattened table is the
/// plain concatenation and its size is the sum of the sizes.
pub proof fn lemma_merge_disjoint_all(ts: Seq<Seq<LocEntryV>>)
    requires
        forall|i: int| 0 <= i < ts.len() ==> unique_keys(#[trigger] ts[i]),
        forall|i: int, j: int|
            0 <= i < j < ts.len() ==> keys_of(#[trigger] ts[i]).disjoint(keys_of(#[trigger] ts[j])),
    ensures
        spec_first_wins(spec_concat(ts)) == spec_concat(ts),
        spec_first_wins(spec_concat(ts)).len() == spec_sum_lens(ts),
    decreases ts.len(),
{
    lemma_concat_len(ts);
    if ts.len() == 0 {
        assert(spec_concat(ts) =~= Seq::<LocEntryV>::empty());
        assert(spec_first_wins_aux(Seq::<LocEntryV>::empty(), Set::empty())
            == Seq::<LocEntryV>::empty());
    } else {
        let a = ts[0];
        let rest = ts.skip(1);
        assert forall|i: int| 0 <= i < rest.len() implies unique_keys(#[trigger] rest[i]) by {
            assert(rest[i] == ts[i + 1]);
        }
        assert forall|i: int, j: int| 0 <= i < j < rest.len() implies keys_of(
            #[trigger] rest[i],
        ).disjoint(keys_of(#[trigger] rest[j])) by {
            assert(rest[i] == ts[i + 1] && rest[j] == ts[j + 1]);
        }
        lemma_merge_disjoint_all(rest);
        lemma_first_wins_unique(spec_concat(rest));
        assert(unique_keys(spec_concat(rest)));
        assert forall|k: Seq<u8>| #[trigger] keys_of(a).contains(k) implies !keys_of(
            spec_concat(rest),
        ).contains(k) by {
            if keys_of(spec_concat(rest)).contains(k) {
                lemma_concat_keys(rest, k);
                let i = choose|i: int|
                    0 <= i < rest.len() && keys_of(#[trigger] rest[i]).contains(k);
                assert(rest[i] == ts[i + 1]);
                assert(keys_of(ts[0]).disjoint(keys_of(ts[i + 1])));
            }
        }
        assert(keys_of(a).disjoint(keys_of(spec_concat(rest))));
        lemma_merge_disjoint(a, spec_concat(rest));
        assert(spec_concat(ts) == a + spec_concat(rest));
    }
}

} // verus!