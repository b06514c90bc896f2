//! Deterministic ordering and grouping of normalized records.
//!
//! Records are sorted by (administrative code, postal code) under
//! lexicographic order on the digit strings — the order that makes the
//! content hashes reproducible — and then grouped into runs of equal
//! administrative code.

use vstd::prelude::*;
use vstd::seq_lib::group_to_multiset_ensures;

use crate::record::{views, PostalCodeRecord, RecordModel};
use crate::text::{lemma_lex_le_antisymm, lemma_lex_le_total, lemma_lex_le_trans, lex_le, str_eq,
    str_le};

verus! {

// --- the sort order ---

/// Sort order: administrative code first, postal code second.
pub open spec fn rec_le(a: RecordModel, b: RecordModel) -> bool {
    if a.national_local_government_code != b.national_local_government_code {
        lex_le(a.national_local_government_code, b.national_local_government_code)
    } else {
        lex_le(a.postal_code, b.postal_code)
    }
}

/// Two records carry the same sort key.
pub open spec fn same_key(a: RecordModel, b: RecordModel) -> bool {
    a.national_local_government_code == b.national_local_government_code && a.postal_code
        == b.postal_code
}

/// Records of `s` that share a sort key are equal throughout.
pub open spec fn key_unique(s: Seq<RecordModel>) -> bool {
    forall|i: int, j: int|
        0 <= i < s.len() && 0 <= j < s.len() && same_key(#[trigger] s[i], #[trigger] s[j]) ==> s[i]
            == s[j]
}

/// `s` is ordered by `rec_le`.
pub open spec fn sorted_recs(s: Seq<RecordModel>) -> bool {
    forall|i: int, j: int| 0 <= i < j < s.len() ==> rec_le(#[trigger] s[i], #[trigger] s[j])
}

pub proof fn lemma_rec_le_total(a: RecordModel, b: RecordModel)
    ensures
        rec_le(a, b) || rec_le(b, a),
{
    lemma_lex_le_total(a.national_local_government_code, b.national_local_government_code);
    lemma_lex_le_total(a.postal_code, b.postal_code);
}

/// Mutual order implies equal sort keys.
pub proof fn lemma_rec_le_antisymm_keys(a: RecordModel, b: RecordModel)
    requires
        rec_le(a, b),
        rec_le(b, a),
    ensures
        same_key(a, b),
{
    if a.national_local_government_code != b.national_local_government_code {
        lemma_lex_le_antisymm(a.national_local_government_code, b.national_local_government_code);
    } else {
        lemma_lex_le_antisymm(a.postal_code, b.postal_code);
    }
}

pub proof fn lemma_rec_le_trans(a: RecordModel, b: RecordModel, c: RecordModel)
    requires
        rec_le(a, b),
        rec_le(b, c),
    ensures
        rec_le(a, c),
{
    let ka = a.national_local_government_code;
    let kb = b.national_local_government_code;
    let kc = c.national_local_government_code;
    if ka == kb && kb == kc {
        lemma_lex_le_trans(a.postal_code, b.postal_code, c.postal_code);
    } else if ka == kb {
        assert(lex_le(ka, kc));
    } else if kb == kc {
        assert(lex_le(ka, kc));
    } else {
        lemma_lex_le_trans(ka, kb, kc);
        if ka == kc {
            lemma_lex_le_antisymm(ka, kb);
        }
    }
}

/// Decides `rec_le` on two records.
pub fn rec_le_exec(a: &PostalCodeRecord, b: &PostalCodeRecord) -> (r: bool)
    ensures
        r == rec_le(a@, b@),
{
    if !str_eq(
        a.national_local_government_code.as_str(),
        b.national_local_government_code.as_str(),
    ) {
        str_le(a.national_local_government_code.as_str(), b.national_local_government_code.as_str())
    } else {
        str_le(a.postal_code.as_str(), b.postal_code.as_str())
    }
}

// --- insertion sort ---

/// Stable insertion of `m` into `s`: after every element ordered at or
/// before it, in front of the first strictly greater one.
pub open spec fn insert_sorted(m: RecordModel, s: Seq<RecordModel>) -> Seq<RecordModel>
    decreases s.len(),
{
    if s.len() == 0 {
        seq![m]
    } else if rec_le(s[0], m) {
        seq![s[0]] + insert_sorted(m, s.drop_first())
    } else {
        seq![m] + s
    }
}

/// The canonical ordering of a record sequence: stable insertion sort.
pub open spec fn sort_spec(s: Seq<RecordModel>) -> Seq<RecordModel>
    decreases s.len(),
{
    if s.len() == 0 {
        Seq::empty()
    } else {
        insert_sorted(s.last(), sort_spec(s.drop_last()))
    }
}

pub proof fn lemma_insert_sorted(m: RecordModel, s: Seq<RecordModel>)
    requires
        sorted_recs(s),
    ensures
        sorted_recs(insert_sorted(m, s)),
        insert_sorted(m, s).to_multiset() == s.to_multiset().insert(m),
        insert_sorted(m, s).len() == s.len() + 1,
    decreases s.len(),
{
    broadcast use group_to_multiset_ensures;

    let r = insert_sorted(m, s);
    if s.len() == 0 {
        assert(seq![m] =~= Seq::<RecordModel>::empty().push(m));
        assert(r.to_multiset() =~= s.to_multiset().insert(m));
    } else if rec_le(s[0], m) {
        let tail = s.drop_first();
        assert(sorted_recs(tail)) by {
            assert forall|i: int, j: int| 0 <= i < j < tail.len() implies rec_le(
                tail[i],
                tail[j],
            ) by {
                assert(tail[i] == s[i + 1]);
                assert(tail[j] == s[j + 1]);
            }
        }
        lemma_insert_sorted(m, tail);
        let rt = insert_sorted(m, tail);
        assert(r =~= seq![s[0]] + rt);
        // order: s[0] precedes everything in rt
        assert forall|i: int, j: int| 0 <= i < j < r.len() implies rec_le(r[i], r[j]) by {
            if i == 0 {
                assert(r[j] == rt[j - 1]);
                // r[j] is either m or an element of tail
                assert(rt.to_multiset().count(rt[j - 1]) > 0);
                assert(rt.contains(rt[j - 1]));
                if rt[j - 1] == m {
                    assert(rec_le(s[0], m));
                } else {
                    assert(tail.to_multiset().insert(m).count(rt[j - 1]) > 0);
                    assert(tail.to_multiset().count(rt[j - 1]) > 0);
                    assert(tail.contains(rt[j - 1]));
                    let w = choose|w: int| 0 <= w < tail.len() && tail[w] == rt[j - 1];
                    assert(rec_le(s[0], s[w + 1]));
                }
            } else {
                assert(r[i] == rt[i - 1]);
                assert(r[j] == rt[j - 1]);
            }
        }
        assert(r.to_multiset() =~= s.to_multiset().insert(m)) by {
            broadcast use vstd::multiset::group_multiset_axioms;

            assert(r =~= rt.insert(0, s[0]));
            vstd::seq_lib::to_multiset_insert(rt, 0, s[0]);
            assert(s =~= tail.insert(0, s[0]));
            vstd::seq_lib::to_multiset_insert(tail, 0, s[0]);
        }
    } else {
        lemma_rec_le_total(s[0], m);
        assert(rec_le(m, s[0]));
        assert forall|i: int, j: int| 0 <= i < j < r.len() implies rec_le(r[i], r[j]) by {
            if i == 0 {
                assert(r[j] == s[j - 1]);
                if j == 1 {
                    assert(rec_le(m, s[0]));
                } else {
                    lemma_rec_le_trans(m, s[0], s[j - 1]);
                }
            } else {
                assert(r[i] == s[i - 1]);
                assert(r[j] == s[j - 1]);
            }
        }
        assert(r =~= s.insert(0, m));
        vstd::seq_lib::to_multiset_insert(s, 0, m);
    }
}

pub proof fn lemma_sort_spec(s: Seq<RecordModel>)
    ensures
        sorted_recs(sort_spec(s)),
        sort_spec(s).to_multiset() == s.to_multiset(),
        sort_spec(s).len() == s.len(),
    decreases s.len(),
{
    broadcast use group_to_multiset_ensures;

    if s.len() == 0 {
        assert(sort_spec(s) =~= Seq::<RecordModel>::empty());
    } else {
        lemma_sort_spec(s.drop_last());
        lemma_insert_sorted(s.last(), sort_spec(s.drop_last()));
        assert(s =~= s.drop_last().push(s.last()));
        assert(s.drop_last().push(s.last()).to_multiset() =~= s.drop_last().to_multiset().insert(
            s.last(),
        ));
    }
}

/// Key uniqueness is a property of a sequence's members, so it carries over
/// to any reordering.
pub proof fn lemma_key_unique_transfer(s1: Seq<RecordModel>, s2: Seq<RecordModel>)
    requires
        key_unique(s1),
        s1.to_multiset() == s2.to_multiset(),
    ensures
        key_unique(s2),
{
    broadcast use group_to_multiset_ensures;

    assert forall|i: int, j: int|
        0 <= i < s2.len() && 0 <= j < s2.len() && same_key(s2[i], s2[j]) implies s2[i] == s2[j] by {
        assert(s2.contains(s2[i]));
        assert(s2.contains(s2[j]));
        assert(s1.to_multiset().count(s2[i]) > 0);
        assert(s1.to_multiset().count(s2[j]) > 0);
        assert(s1.contains(s2[i]));
        assert(s1.contains(s2[j]));
        let a = choose|a: int| 0 <= a < s1.len() && s1[a] == s2[i];
        let b = choose|b: int| 0 <= b < s1.len() && s1[b] == s2[j];
        assert(same_key(s1[a], s1[b]));
    }
}

/// Sorted sequences with equal contents are equal, provided records sharing
/// a sort key are equal.
pub proof fn lemma_sorted_unique(s1: Seq<RecordModel>, s2: Seq<RecordModel>)
    requires
        sorted_recs(s1),
        sorted_recs(s2),
        s1.to_multiset() == s2.to_multiset(),
        key_unique(s1),
    ensures
        s1 == s2,
    decreases s1.len(),
{
    broadcast use group_to_multiset_ensures;

    if s1.len() == 0 {
        assert(s1.to_multiset().len() == s1.len());
        assert(s2.to_multiset().len() == s2.len());
        assert(s2.len() == 0);
        assert(s1 =~= s2);
    } else {
        assert(s1.to_multiset().len() == s1.len());
        assert(s2.to_multiset().len() == s2.len());
        assert(s2.len() == s1.len());
        // the two heads bound each other, so they share a key
        assert(s1.contains(s1[0]));
        assert(s2.to_multiset().count(s1[0]) > 0);
        assert(s2.contains(s1[0]));
        let j = choose|j: int| 0 <= j < s2.len() && s2[j] == s1[0];
        assert(s2.contains(s2[0]));
        assert(s1.to_multiset().count(s2[0]) > 0);
        assert(s1.contains(s2[0]));
        let k = choose|k: int| 0 <= k < s1.len() && s1[k] == s2[0];
        assert(rec_le(s2[0], s1[0])) by {
            if j != 0 {
                assert(rec_le(s2[0], s2[j]));
            } else {
                lemma_rec_le_total(s2[0], s1[0]);
            }
        }
        assert(rec_le(s1[0], s2[0])) by {
            if k != 0 {
                assert(rec_le(s1[0], s1[k]));
            } else {
                lemma_rec_le_total(s1[0], s2[0]);
            }
        }
        lemma_rec_le_antisymm_keys(s1[0], s2[0]);
        assert(same_key(s1[0], s1[k]));
        assert(s1[0] == s2[0]);
        // drop the equal heads and recurse
        let t1 = s1.drop_first();
        let t2 = s2.drop_first();
        assert(t1 =~= s1.remove(0));
        assert(t2 =~= s2.remove(0));
        vstd::seq_lib::to_multiset_remove(s1, 0);
        vstd::seq_lib::to_multiset_remove(s2, 0);
        assert(t1.to_multiset() == t2.to_multiset());
        assert(sorted_recs(t1)) by {
            assert forall|p: int, q: int| 0 <= p < q < t1.len() implies rec_le(t1[p], t1[q]) by {
                assert(t1[p] == s1[p + 1]);
                assert(t1[q] == s1[q + 1]);
            }
        }
        assert(sorted_recs(t2)) by {
            assert forall|p: int, q: int| 0 <= p < q < t2.len() implies rec_le(t2[p], t2[q]) by {
                assert(t2[p] == s2[p + 1]);
                assert(t2[q] == s2[q + 1]);
            }
        }
        assert(key_unique(t1)) by {
            assert forall|p: int, q: int|
                0 <= p < t1.len() && 0 <= q < t1.len() && same_key(t1[p], t1[q]) implies t1[p]
                == t1[q] by {
                assert(t1[p] == s1[p + 1]);
                assert(t1[q] == s1[q + 1]);
            }
        }
        lemma_sorted_unique(t1, t2);
        assert forall|w: int| 0 <= w < s1.len() implies s1[w] == s2[w] by {
            if w >= 1 {
                assert(s1[w] == t1[w - 1]);
                assert(s2[w] == t2[w - 1]);
            }
        }
        assert(s1 =~= s2);
    }
}

/// Sorting is a function of the record multiset alone: two arrangements of
/// one dataset sort to the same sequence, provided records sharing a sort
/// key are equal.
pub proof fn lemma_sort_deterministic(s1: Seq<RecordModel>, s2: Seq<RecordModel>)
    requires
        s1.to_multiset() == s2.to_multiset(),
        key_unique(s1),
    ensures
        sort_spec(s1) == sort_spec(s2),
{
    lemma_sort_spec(s1);
    lemma_sort_spec(s2);
    lemma_key_unique_transfer(s1, sort_spec(s1));
    lemma_sorted_unique(sort_spec(s1), sort_spec(s2));
}

/// Inserting at the first position whose element is strictly greater
/// realizes `insert_sorted`.
proof fn lemma_insert_sorted_at(m: RecordModel, s: Seq<RecordModel>, p: int)
    requires
        0 <= p <= s.len(),
        forall|q: int| 0 <= q < p ==> rec_le(#[trigger] s[q], m),
        p < s.len() ==> !rec_le(s[p], m),
    ensures
        insert_sorted(m, s) == s.insert(p, m),
    decreases s.len(),
{
    if s.len() == 0 {
        assert(insert_sorted(m, s) =~= s.insert(0, m));
    } else if p == 0 {
        assert(insert_sorted(m, s) =~= s.insert(0, m));
    } else {
        let tail = s.drop_first();
        assert(rec_le(s[0], m));
        assert forall|q: int| 0 <= q < p - 1 implies rec_le(#[trigger] tail[q], m) by {
            assert(tail[q] == s[q + 1]);
        }
        assert(p - 1 < tail.len() ==> !rec_le(tail[p - 1], m));
        lemma_insert_sorted_at(m, tail, p - 1);
        assert(seq![s[0]] + tail.insert(p - 1, m) =~= s.insert(p, m));
    }
}

/// First position of `out` whose element is strictly greater than `r`.
fn find_insert_pos(out: &Vec<PostalCodeRecord>, r: &PostalCodeRecord) -> (p: usize)
    ensures
        p <= out@.len(),
        forall|q: int| 0 <= q < p ==> rec_le(#[trigger] views(out@)[q], r@),
        p < out@.len() ==> !rec_le(views(out@)[p as int], r@),
{
    let n = out.len();
    let mut p: usize = 0;
    while p < n
        invariant
            p <= n,
            n == out@.len(),
            forall|q: int| 0 <= q < p ==> rec_le(#[trigger] views(out@)[q], r@),
        decreases n - p,
    {
        if !rec_le_exec(&out[p], r) {
            proof {
                assert(views(out@)[p as int] == out@[p as int]@);
            }
            return p;
        }
        proof {
            assert(views(out@)[p as int] == out@[p as int]@);
        }
        p = p + 1;
    }
    p
}

/// Sorts the records by (administrative code, postal code).
pub fn sort_records(list: &Vec<PostalCodeRecord>) -> (r: Vec<PostalCodeRecord>)
    ensures
        views(r@) == sort_spec(views(list@)),
{
    let n = list.len();
    let mut out: Vec<PostalCodeRecord> = Vec::new();
    let mut i: usize = 0;
    proof {
        assert(views(list@).subrange(0, 0) =~= Seq::<RecordModel>::empty());
    }
    while i < n
        invariant
            i <= n,
            n == list@.len(),
            views(out@) == sort_spec(views(list@).subrange(0, i as int)),
            out@.len() == i,
        decreases n - i,
    {
        let ghost prefix = views(list@).subrange(0, i as int);
        let r = list[i].clone();
        let p = find_insert_pos(&out, &r);
        proof {
            lemma_insert_sorted_at(r@, views(out@), p as int);
            let longer = views(list@).subrange(0, i as int + 1);
            assert(longer.drop_last() =~= prefix);
            assert(longer.last() == views(list@)[i as int]);
            assert(sort_spec(longer) == insert_sorted(r@, sort_spec(prefix)));
            assert(views(out@.insert(p as int, r)) =~= views(out@).insert(p as int, r@));
        }
        out.insert(p, r);
        i = i + 1;
    }
    proof {
        assert(views(list@).subrange(0, n as int) =~= views(list@));
    }
    out
}

// --- grouping by administrative code ---

/// Length of the leading run of records carrying `code`.
pub open spec fn run_len(s: Seq<RecordModel>, code: Seq<char>) -> int
    decreases s.len(),
{
    if s.len() == 0 || s[0].national_local_government_code != code {
        0
    } else {
        1 + run_len(s.drop_first(), code)
    }
}

pub proof fn lemma_run_len_bounds(s: Seq<RecordModel>, code: Seq<char>)
    ensures
        0 <= run_len(s, code) <= s.len(),
    decreases s.len(),
{
    if s.len() > 0 && s[0].national_local_government_code == code {
        lemma_run_len_bounds(s.drop_first(), code);
    }
}

/// A run is delimited by the first index whose code differs.
pub proof fn lemma_run_len_of(s: Seq<RecordModel>, code: Seq<char>, m: int)
    requires
        0 <= m <= s.len(),
        forall|q: int| 0 <= q < m ==> (#[trigger] s[q]).national_local_government_code == code,
        m < s.len() ==> s[m].national_local_government_code != code,
    ensures
        run_len(s, code) == m,
    decreases s.len(),
{
    if m == 0 {
    } else {
        let tail = s.drop_first();
        assert(s[0].national_local_government_code == code);
        assert forall|q: int| 0 <= q < m - 1 implies (#[trigger] tail[q]).national_local_government_code
            == code by {
            assert(tail[q] == s[q + 1]);
        }
        assert(m - 1 < tail.len() ==> tail[m - 1].national_local_government_code != code);
        lemma_run_len_of(tail, code, m - 1);
    }
}

/// The grouping of a sorted record sequence: one entry per leading run of
/// equal administrative code, in order of appearance, each holding the
/// code and its records in sequence order.
pub open spec fn group_spec(s: Seq<RecordModel>) -> Seq<(Seq<char>, Seq<RecordModel>)>
    decreases s.len(),
    via group_spec_decreases
{
    if s.len() == 0 {
        Seq::empty()
    } else {
        let k = run_len(s, s[0].national_local_government_code);
        seq![(s[0].national_local_government_code, s.subrange(0, k))] + group_spec(s.skip(k))
    }
}

#[via_fn]
proof fn group_spec_decreases(s: Seq<RecordModel>) {
    if s.len() > 0 {
        let code = s[0].national_local_government_code;
        lemma_run_len_bounds(s, code);
        lemma_run_len_bounds(s.drop_first(), code);
        assert(run_len(s, code) == 1 + run_len(s.drop_first(), code));
    }
}

/// The models of a grouped sequence.
pub open spec fn group_views(g: Seq<(String, Vec<PostalCodeRecord>)>) -> Seq<
    (Seq<char>, Seq<RecordModel>),
> {
    g.map_values(|p: (String, Vec<PostalCodeRecord>)| (p.0@, views(p.1@)))
}

/// End of the run of records carrying `code` that starts at `from`.
fn find_run_end(list: &Vec<PostalCodeRecord>, from: usize, code: &String) -> (j: usize)
    requires
        from <= list@.len(),
    ensures
        from <= j <= list@.len(),
        forall|q: int|
            from <= q < j ==> (#[trigger] views(list@)[q]).national_local_government_code == code@,
        j < list@.len() ==> views(list@)[j as int].national_local_government_code != code@,
{
    let n = list.len();
    let mut j: usize = from;
    while j < n
        invariant
            from <= j <= n,
            n == list@.len(),
            forall|q: int|
                from <= q < j ==> (#[trigger] views(list@)[q]).national_local_government_code
                    == code@,
        decreases n - j,
    {
        let same = str_eq(list[j].national_local_government_code.as_str(), code.as_str());
        proof {
            assert(views(list@)[j as int] == list@[j as int]@);
        }
        if !same {
            return j;
        }
        j = j + 1;
    }
    j
}

/// Groups the records by administrative code, keeping their order inside
/// each group and the order of first appearance across groups.
pub fn group_by_admin_code(list: &Vec<PostalCodeRecord>) -> (groups: Vec<
    (String, Vec<PostalCodeRecord>),
>)
    ensures
        group_views(groups@) == group_spec(views(list@)),
{
    let n = list.len();
    let mut groups: Vec<(String, Vec<PostalCodeRecord>)> = Vec::new();
    let mut i: usize = 0;
    proof {
        assert(views(list@).skip(0) =~= views(list@));
    }
    while i < n
        invariant
            i <= n,
            n == list@.len(),
            group_spec(views(list@)) == group_views(groups@) + group_spec(
                views(list@).skip(i as int),
            ),
        decreases n - i,
    {
        let ghost pending = views(list@).skip(i as int);
        let ghost groups0 = group_views(groups@);
        let code = list[i].national_local_government_code.clone();
        proof {
            assert(pending[0] == views(list@)[i as int]);
            assert(views(list@)[i as int] == list@[i as int]@);
            assert(code@ == pending[0].national_local_government_code);
        }
        let j = find_run_end(list, i, &code);
        assert(j > i) by {
            assert(views(list@)[i as int].national_local_government_code == code@);
        }
        let mut members: Vec<PostalCodeRecord> = Vec::new();
        let mut t: usize = i;
        proof {
            assert(views(members@) =~= views(list@).subrange(i as int, i as int));
        }
        while t < j
            invariant
                i <= t <= j <= n,
                n == list@.len(),
                views(members@) == views(list@).subrange(i as int, t as int),
            decreases j - t,
        {
            let rec = list[t].clone();
            proof {
                crate::record::lemma_views_push(members@, rec);
                assert(views(members@).push(rec@) =~= views(list@).subrange(
                    i as int,
                    t as int + 1,
                ));
            }
            members.push(rec);
            t = t + 1;
        }
        proof {
            assert forall|q: int|
                0 <= q < j - i implies (#[trigger] pending[q]).national_local_government_code
                == code@ by {
                assert(pending[q] == views(list@)[i + q]);
            }
            assert(j < n ==> pending[j - i].national_local_government_code != code@);
            lemma_run_len_of(pending, code@, j - i);
            assert(group_spec(pending) == seq![(code@, pending.subrange(0, j - i))] + group_spec(
                pending.skip(j - i),
            ));
            assert(pending.subrange(0, j - i) =~= views(list@).subrange(i as int, j as int));
            assert(pending.skip(j - i) =~= views(list@).skip(j as int));
        }
        let pair = (code, members);
        proof {
            assert(group_views(groups@.push(pair)) =~= groups0.push((pair.0@, views(pair.1@))));
            assert(groups0.push((pair.0@, views(pair.1@))) + group_spec(
                views(list@).skip(j as int),
            ) =~= groups0 + group_spec(pending));
        }
        groups.push(pair);
        i = j;
    }
    proof {
        assert(group_spec(views(list@).skip(n as int)) =~= Seq::<
            (Seq<char>, Seq<RecordModel>),
        >::empty());
        assert(group_views(groups@) + Seq::<(Seq<char>, Seq<RecordModel>)>::empty() =~= group_views(
            groups@,
        ));
    }
    groups
}

} // verus!
