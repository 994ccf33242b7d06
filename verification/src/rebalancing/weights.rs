//! Asset-weight tables in basis points.
//!
//! A table is a list of `(asset, weight_bps)` entries in the order the
//! portfolio map yields them. An asset is identified by its text; when an
//! asset appears more than once, the first entry is the one that counts for
//! lookups.

use vstd::prelude::*;

verus! {

/// Sum of all weights in a table.
pub open spec fn weights_total(s: Seq<(String, u32)>) -> int
    decreases s.len(),
{
    if s.len() == 0 {
        0
    } else {
        weights_total(s.drop_last()) + s.last().1
    }
}

/// Whether some entry of the table names `asset`.
pub open spec fn has_key(s: Seq<(String, u32)>, asset: Seq<char>) -> bool {
    exists|j: int| 0 <= j < s.len() && (#[trigger] s[j]).0@ == asset
}

/// The weight of the first entry naming `asset`, or 0 when none does.
pub open spec fn lookup_weight(s: Seq<(String, u32)>, asset: Seq<char>) -> u32
    decreases s.len(),
{
    if s.len() == 0 {
        0
    } else if s[0].0@ == asset {
        s[0].1
    } else {
        lookup_weight(s.drop_first(), asset)
    }
}

/// Whether every asset in `s` appears in `listed`.
pub open spec fn all_listed(s: Seq<(String, u32)>, listed: Seq<String>) -> bool {
    forall|i: int|
        0 <= i < s.len() ==> exists|j: int| 0 <= j < listed.len() && (#[trigger] listed[j])@ == (
        #[trigger] s[i]).0@
}

/// The total is never negative, and it splits as first weight plus the rest.
pub proof fn lemma_total_front(s: Seq<(String, u32)>)
    requires
        s.len() > 0,
    ensures
        weights_total(s) == s[0].1 + weights_total(s.drop_first()),
    decreases s.len(),
{
    if s.len() == 1 {
        assert(s.drop_last().len() == 0);
        assert(s.drop_first().len() == 0);
        assert(weights_total(s.drop_last()) == 0);
        assert(weights_total(s.drop_first()) == 0);
        assert(s.last() == s[0]);
    } else {
        lemma_total_front(s.drop_last());
        assert(s.drop_last()[0] == s[0]);
        assert(s.drop_last().drop_first() =~= s.drop_first().drop_last());
        assert(s.drop_first().last() == s.last());
        assert(weights_total(s.drop_first()) == weights_total(s.drop_first().drop_last())
            + s.drop_first().last().1);
    }
}

/// The total of a table is never negative.
pub proof fn lemma_total_nonneg(s: Seq<(String, u32)>)
    ensures
        weights_total(s) >= 0,
    decreases s.len(),
{
    if s.len() > 0 {
        lemma_total_nonneg(s.drop_last());
    }
}

/// Every single weight is at most the total.
pub proof fn lemma_entry_le_total(s: Seq<(String, u32)>, j: int)
    requires
        0 <= j < s.len(),
    ensures
        s[j].1 <= weights_total(s),
    decreases s.len(),
{
    lemma_total_nonneg(s.drop_last());
    if j < s.len() - 1 {
        lemma_entry_le_total(s.drop_last(), j);
    }
}

/// A looked-up weight is at most the total.
pub proof fn lemma_lookup_le_total(s: Seq<(String, u32)>, asset: Seq<char>)
    ensures
        lookup_weight(s, asset) <= weights_total(s),
    decreases s.len(),
{
    lemma_total_nonneg(s);
    if s.len() > 0 {
        lemma_total_front(s);
        lemma_total_nonneg(s.drop_first());
        lemma_lookup_le_total(s.drop_first(), asset);
    }
}

/// Sum of the weights of a table.
pub fn sum_weights(entries: &Vec<(String, u32)>) -> (total: u32)
    requires
        weights_total(entries@) <= u32::MAX,
    ensures
        total == weights_total(entries@),
{
    let mut total: u32 = 0;
    let mut i: usize = 0;
    while i < entries.len()
        invariant
            i <= entries.len(),
            weights_total(entries@) <= u32::MAX,
            total == weights_total(entries@.take(i as int)),
        decreases entries.len() - i,
    {
        proof {
            assert(entries@.take(i + 1).drop_last() =~= entries@.take(i as int));
            lemma_total_nonneg(entries@.skip(i + 1));
            lemma_total_append(entries@.take(i + 1), entries@.skip(i + 1));
            assert(entries@.take(i + 1) + entries@.skip(i + 1) =~= entries@);
        }
        total = total + entries[i].1;
        i = i + 1;
    }
    assert(entries@.take(entries.len() as int) =~= entries@);
    total
}

/// The total of a concatenation is the sum of the totals.
pub proof fn lemma_total_append(a: Seq<(String, u32)>, b: Seq<(String, u32)>)
    ensures
        weights_total(a + b) == weights_total(a) + weights_total(b),
    decreases b.len(),
{
    if b.len() == 0 {
        assert(a + b =~= a);
    } else {
        lemma_total_append(a, b.drop_last());
        assert((a + b).drop_last() =~= a + b.drop_last());
    }
}

/// The weight of the first entry naming `asset`, or 0 when none does.
pub fn weight_of(entries: &Vec<(String, u32)>, asset: &String) -> (w: u32)
    ensures
        w == lookup_weight(entries@, asset@),
{
    let mut i: usize = 0;
    assert(entries@.subrange(0, entries@.len() as int) =~= entries@);
    while i < entries.len()
        invariant
            i <= entries.len(),
            lookup_weight(entries@, asset@) == lookup_weight(
                entries@.subrange(i as int, entries@.len() as int),
                asset@,
            ),
        decreases entries.len() - i,
    {
        let ghost rest = entries@.subrange(i as int, entries@.len() as int);
        assert(rest[0] == entries@[i as int]);
        if entries[i].0 == *asset {
            return entries[i].1;
        }
        assert(rest.drop_first() =~= entries@.subrange(i + 1, entries@.len() as int));
        i = i + 1;
    }
    0
}

/// Whether some entry of the table names `asset`.
pub fn contains_asset(entries: &Vec<(String, u32)>, asset: &String) -> (found: bool)
    ensures
        found == has_key(entries@, asset@),
{
    let mut i: usize = 0;
    while i < entries.len()
        invariant
            i <= entries.len(),
            forall|j: int| 0 <= j < i ==> (#[trigger] entries@[j]).0@ != asset@,
        decreases entries.len() - i,
    {
        if entries[i].0 == *asset {
            assert(entries@[i as int].0@ == asset@);
            return true;
        }
        i = i + 1;
    }
    false
}

/// Whether `asset` appears in the list `listed`.
pub fn is_listed(listed: &Vec<String>, asset: &String) -> (found: bool)
    ensures
        found == exists|j: int| 0 <= j < listed@.len() && (#[trigger] listed@[j])@ == asset@,
{
    let mut i: usize = 0;
    while i < listed.len()
        invariant
            i <= listed.len(),
            forall|j: int| 0 <= j < i ==> (#[trigger] listed@[j])@ != asset@,
        decreases listed.len() - i,
    {
        if listed[i] == *asset {
            assert(listed@[i as int]@ == asset@);
            return true;
        }
        i = i + 1;
    }
    false
}

/// A copy of a table with equal entries.
pub fn copy_entries(entries: &Vec<(String, u32)>) -> (r: Vec<(String, u32)>)
    ensures
        r@ == entries@,
{
    let mut r: Vec<(String, u32)> = Vec::new();
    let mut i: usize = 0;
    while i < entries.len()
        invariant
            i <= entries.len(),
            r@ == entries@.take(i as int),
        decreases entries.len() - i,
    {
        r.push((entries[i].0.clone(), entries[i].1));
        assert(entries@.take(i + 1) =~= entries@.take(i as int).push(entries@[i as int]));
        i = i + 1;
    }
    assert(entries@.take(entries.len() as int) =~= entries@);
    r
}

/// A copy of a list of names with equal entries.
pub fn copy_names(names: &Vec<String>) -> (r: Vec<String>)
    ensures
        r@ == names@,
{
    let mut r: Vec<String> = Vec::new();
    let mut i: usize = 0;
    while i < names.len()
        invariant
            i <= names.len(),
            r@ == names@.take(i as int),
        decreases names.len() - i,
    {
        r.push(names[i].clone());
        assert(names@.take(i + 1) =~= names@.take(i as int).push(names@[i as int]));
        i = i + 1;
    }
    assert(names@.take(names.len() as int) =~= names@);
    r
}

} // verus!
