//! Consolidation across administrative codes: records sharing one postal
//! code collapse into a single representative row.  The first record of
//! the group is the base; any field on which some member disagrees is
//! blanked together with its phonetic counterpart, and once blanked a
//! field stays blank.

use vstd::prelude::*;

use crate::record::{views, PostalCodeRecord, RecordModel};
use crate::text::str_eq;

verus! {

/// Some member of the group disagrees with the base on town (a base with a
/// blank town never blanks further).
pub open spec fn town_blanked(g: Seq<RecordModel>) -> bool {
    g[0].town.len() > 0 && exists|i: int| 1 <= i < g.len() && (#[trigger] g[i]).town != g[0].town
}

/// Likewise for city.
pub open spec fn city_blanked(g: Seq<RecordModel>) -> bool {
    g[0].city.len() > 0 && exists|i: int| 1 <= i < g.len() && (#[trigger] g[i]).city != g[0].city
}

/// Likewise for prefecture.
pub open spec fn prefecture_blanked(g: Seq<RecordModel>) -> bool {
    g[0].prefecture.len() > 0 && exists|i: int|
        1 <= i < g.len() && (#[trigger] g[i]).prefecture != g[0].prefecture
}

/// The merged representative of a postal-code group: the base record, with
/// every disputed field blanked together with its phonetic counterpart.
pub open spec fn merged_model(g: Seq<RecordModel>) -> RecordModel {
    RecordModel {
        town: if town_blanked(g) {
            Seq::empty()
        } else {
            g[0].town
        },
        town_kana: if town_blanked(g) {
            Seq::empty()
        } else {
            g[0].town_kana
        },
        city: if city_blanked(g) {
            Seq::empty()
        } else {
            g[0].city
        },
        city_kana: if city_blanked(g) {
            Seq::empty()
        } else {
            g[0].city_kana
        },
        prefecture: if prefecture_blanked(g) {
            Seq::empty()
        } else {
            g[0].prefecture
        },
        prefecture_kana: if prefecture_blanked(g) {
            Seq::empty()
        } else {
            g[0].prefecture_kana
        },
        ..g[0]
    }
}

/// Merge monotonicity: two records sharing a postal code but differing on
/// town merge to a blank town and phonetic town; a disagreement on city
/// blanks city the same way; a field on which they agree, such as
/// prefecture, is untouched.  The base's phonetic fields are assumed blank
/// wherever the field itself is — the shape normalization guarantees.
pub proof fn lemma_merge_monotonic(a: RecordModel, b: RecordModel)
    requires
        a.postal_code == b.postal_code,
        a.town != b.town,
        a.town.len() == 0 ==> a.town_kana.len() == 0,
        a.city.len() == 0 ==> a.city_kana.len() == 0,
    ensures
        merged_model(seq![a, b]).town == Seq::<char>::empty(),
        merged_model(seq![a, b]).town_kana == Seq::<char>::empty(),
        a.city != b.city ==> merged_model(seq![a, b]).city == Seq::<char>::empty(),
        a.city != b.city ==> merged_model(seq![a, b]).city_kana == Seq::<char>::empty(),
        a.prefecture == b.prefecture ==> merged_model(seq![a, b]).prefecture == a.prefecture,
        a.prefecture == b.prefecture ==> merged_model(seq![a, b]).prefecture_kana
            == a.prefecture_kana,
{
    let g = seq![a, b];
    assert(g[0] == a);
    assert(g[1] == b);
    if a.town.len() > 0 {
        assert(town_blanked(g));
    } else {
        assert(!town_blanked(g));
        assert(merged_model(g).town =~= Seq::<char>::empty());
        assert(merged_model(g).town_kana =~= Seq::<char>::empty());
    }
    if a.city != b.city {
        if a.city.len() > 0 {
            assert(city_blanked(g));
        } else {
            assert(!city_blanked(g));
            assert(merged_model(g).city =~= Seq::<char>::empty());
            assert(merged_model(g).city_kana =~= Seq::<char>::empty());
        }
    }
    if a.prefecture == b.prefecture {
        assert(!prefecture_blanked(g));
    }
}

/// Partial blanking state against a scanned prefix of the group.
spec fn town_blanked_upto(g: Seq<RecordModel>, upto: int) -> bool {
    g[0].town.len() > 0 && exists|i: int| 1 <= i < upto && (#[trigger] g[i]).town != g[0].town
}

spec fn city_blanked_upto(g: Seq<RecordModel>, upto: int) -> bool {
    g[0].city.len() > 0 && exists|i: int| 1 <= i < upto && (#[trigger] g[i]).city != g[0].city
}

spec fn prefecture_blanked_upto(g: Seq<RecordModel>, upto: int) -> bool {
    g[0].prefecture.len() > 0 && exists|i: int|
        1 <= i < upto && (#[trigger] g[i]).prefecture != g[0].prefecture
}

/// Collapses one postal-code group into its merged representative.
pub fn merge_group(g: &Vec<PostalCodeRecord>) -> (r: PostalCodeRecord)
    requires
        g@.len() >= 1,
    ensures
        r@ == merged_model(views(g@)),
{
    let ghost gv = views(g@);
    let n = g.len();
    let mut item = g[0].clone();
    let mut i: usize = 1;
    while i < n
        invariant
            1 <= i <= n,
            n == g@.len(),
            gv == views(g@),
            gv.len() == n,
            item@.town == if town_blanked_upto(gv, i as int) {
                Seq::<char>::empty()
            } else {
                gv[0].town
            },
            item@.town_kana == if town_blanked_upto(gv, i as int) {
                Seq::<char>::empty()
            } else {
                gv[0].town_kana
            },
            item@.city == if city_blanked_upto(gv, i as int) {
                Seq::<char>::empty()
            } else {
                gv[0].city
            },
            item@.city_kana == if city_blanked_upto(gv, i as int) {
                Seq::<char>::empty()
            } else {
                gv[0].city_kana
            },
            item@.prefecture == if prefecture_blanked_upto(gv, i as int) {
                Seq::<char>::empty()
            } else {
                gv[0].prefecture
            },
            item@.prefecture_kana == if prefecture_blanked_upto(gv, i as int) {
                Seq::<char>::empty()
            } else {
                gv[0].prefecture_kana
            },
            item@.national_local_government_code == gv[0].national_local_government_code,
            item@.postal_code == gv[0].postal_code,
            item@.is_town_with_multiple_postal_codes == gv[0].is_town_with_multiple_postal_codes,
            item@.is_banchi_per_koaza == gv[0].is_banchi_per_koaza,
            item@.is_town_with_chome == gv[0].is_town_with_chome,
            item@.is_postal_code_with_multiple_towns == gv[0].is_postal_code_with_multiple_towns,
            item@.is_change == gv[0].is_change,
            item@.integrated == gv[0].integrated,
        decreases n - i,
    {
        let other = &g[i];
        proof {
            assert(gv[i as int] == g@[i as int]@);
        }
        if !item.town.as_str().is_empty() && !str_eq(item.town.as_str(), other.town.as_str()) {
            item.town = String::new();
            item.town_kana = String::new();
        }
        if !item.city.as_str().is_empty() && !str_eq(item.city.as_str(), other.city.as_str()) {
            item.city = String::new();
            item.city_kana = String::new();
        }
        if !item.prefecture.as_str().is_empty() && !str_eq(
            item.prefecture.as_str(),
            other.prefecture.as_str(),
        ) {
            item.prefecture = String::new();
            item.prefecture_kana = String::new();
        }
        i = i + 1;
    }
    proof {
        assert(town_blanked_upto(gv, n as int) == town_blanked(gv));
        assert(city_blanked_upto(gv, n as int) == city_blanked(gv));
        assert(prefecture_blanked_upto(gv, n as int) == prefecture_blanked(gv));
    }
    item
}

// --- grouping by postal code ---

/// The members of `s` carrying postal code `p`, in order.
pub open spec fn postal_group(s: Seq<RecordModel>, p: Seq<char>) -> Seq<RecordModel>
    decreases s.len(),
{
    if s.len() == 0 {
        Seq::empty()
    } else {
        let rest = postal_group(s.drop_last(), p);
        if s.last().postal_code == p {
            rest.push(s.last())
        } else {
            rest
        }
    }
}

/// The distinct postal codes of `s`, in order of first appearance.
pub open spec fn distinct_postals(s: Seq<RecordModel>) -> Seq<Seq<char>>
    decreases s.len(),
{
    if s.len() == 0 {
        Seq::empty()
    } else {
        let rest = distinct_postals(s.drop_last());
        if rest.contains(s.last().postal_code) {
            rest
        } else {
            rest.push(s.last().postal_code)
        }
    }
}

pub proof fn lemma_distinct_postals_contains(s: Seq<RecordModel>, p: Seq<char>)
    ensures
        distinct_postals(s).contains(p) <==> exists|i: int|
            0 <= i < s.len() && (#[trigger] s[i]).postal_code == p,
    decreases s.len(),
{
    if s.len() > 0 {
        let prefix = s.drop_last();
        lemma_distinct_postals_contains(prefix, p);
        let rest = distinct_postals(prefix);
        if rest.contains(s.last().postal_code) {
            assert(distinct_postals(s) == rest);
            if rest.contains(p) {
                let i = choose|i: int| 0 <= i < prefix.len() && prefix[i].postal_code == p;
                assert(s[i].postal_code == p);
            }
            if exists|i: int| 0 <= i < s.len() && (#[trigger] s[i]).postal_code == p {
                let i = choose|i: int| 0 <= i < s.len() && (#[trigger] s[i]).postal_code == p;
                if i < s.len() - 1 {
                    assert(prefix[i].postal_code == p);
                } else {
                    assert(p == s.last().postal_code);
                }
            }
        } else {
            assert(distinct_postals(s) == rest.push(s.last().postal_code));
            if distinct_postals(s).contains(p) {
                let k = choose|k: int|
                    0 <= k < distinct_postals(s).len() && distinct_postals(s)[k] == p;
                if k < rest.len() {
                    assert(rest[k] == p);
                    let i = choose|i: int| 0 <= i < prefix.len() && prefix[i].postal_code == p;
                    assert(s[i].postal_code == p);
                } else {
                    assert(s[s.len() - 1].postal_code == p);
                }
            }
            if exists|i: int| 0 <= i < s.len() && (#[trigger] s[i]).postal_code == p {
                let i = choose|i: int| 0 <= i < s.len() && (#[trigger] s[i]).postal_code == p;
                if i < s.len() - 1 {
                    assert(prefix[i].postal_code == p);
                    let k = choose|k: int| 0 <= k < rest.len() && rest[k] == p;
                    assert(distinct_postals(s)[k] == p);
                } else {
                    assert(distinct_postals(s).last() == p);
                }
            }
        }
    }
}

proof fn lemma_postal_group_member(s: Seq<RecordModel>, p: Seq<char>, i: int)
    requires
        0 <= i < s.len(),
        s[i].postal_code == p,
    ensures
        postal_group(s, p).len() >= 1,
    decreases s.len(),
{
    if i == s.len() - 1 {
        assert(s.last().postal_code == p);
    } else {
        assert(s.drop_last()[i] == s[i]);
        lemma_postal_group_member(s.drop_last(), p, i);
    }
}

/// The consolidated dataset: one merged record per distinct postal code,
/// in order of first appearance.
pub open spec fn merged_records(s: Seq<RecordModel>) -> Seq<RecordModel> {
    distinct_postals(s).map_values(|p: Seq<char>| merged_model(postal_group(s, p)))
}

/// Whether some record before `upto` carries postal code `p`.
fn postal_seen(records: &Vec<PostalCodeRecord>, upto: usize, p: &String) -> (r: bool)
    requires
        upto <= records@.len(),
    ensures
        r == exists|q: int|
            0 <= q < upto && (#[trigger] views(records@)[q]).postal_code == p@,
{
    let mut q: usize = 0;
    while q < upto
        invariant
            q <= upto <= records@.len(),
            forall|w: int| 0 <= w < q ==> (#[trigger] views(records@)[w]).postal_code != p@,
        decreases upto - q,
    {
        let same = str_eq(records[q].postal_code.as_str(), p.as_str());
        proof {
            assert(views(records@)[q as int] == records@[q as int]@);
        }
        if same {
            return true;
        }
        q = q + 1;
    }
    false
}

/// Collects, in order, every record of `records` carrying postal code `p`.
fn collect_postal_group(records: &Vec<PostalCodeRecord>, p: &String) -> (group: Vec<
    PostalCodeRecord,
>)
    ensures
        views(group@) == postal_group(views(records@), p@),
{
    let ghost rv = views(records@);
    let n = records.len();
    let mut group: Vec<PostalCodeRecord> = Vec::new();
    let mut t: usize = 0;
    proof {
        assert(views(group@) =~= postal_group(rv.subrange(0, 0), p@));
    }
    while t < n
        invariant
            t <= n,
            n == records@.len(),
            rv == views(records@),
            views(group@) == postal_group(rv.subrange(0, t as int), p@),
        decreases n - t,
    {
        let same = str_eq(records[t].postal_code.as_str(), p.as_str());
        proof {
            let longer = rv.subrange(0, t as int + 1);
            assert(longer.drop_last() =~= rv.subrange(0, t as int));
            assert(longer.last() == rv[t as int]);
            assert(rv[t as int] == records@[t as int]@);
        }
        if same {
            let rec = records[t].clone();
            proof {
                crate::record::lemma_views_push(group@, rec);
            }
            group.push(rec);
        }
        t = t + 1;
    }
    proof {
        assert(rv.subrange(0, n as int) =~= rv);
    }
    group
}

/// Consolidates the records: those sharing one postal code, across all
/// administrative codes, collapse into one merged representative, kept in
/// order of the postal code's first appearance.
pub fn merge_by_postal_code(records: &Vec<PostalCodeRecord>) -> (r: Vec<PostalCodeRecord>)
    ensures
        views(r@) == merged_records(views(records@)),
{
    let ghost rv = views(records@);
    let n = records.len();
    let mut out: Vec<PostalCodeRecord> = Vec::new();
    let mut i: usize = 0;
    proof {
        assert(views(out@) =~= distinct_postals(rv.subrange(0, 0)).map_values(
            |p: Seq<char>| merged_model(postal_group(rv, p)),
        ));
    }
    while i < n
        invariant
            i <= n,
            n == records@.len(),
            rv == views(records@),
            views(out@) == distinct_postals(rv.subrange(0, i as int)).map_values(
                |p: Seq<char>| merged_model(postal_group(rv, p)),
            ),
        decreases n - i,
    {
        let ghost prefix = rv.subrange(0, i as int);
        let ghost longer = rv.subrange(0, i as int + 1);
        let p = records[i].postal_code.clone();
        proof {
            assert(longer.drop_last() =~= prefix);
            assert(longer.last() == rv[i as int]);
            assert(rv[i as int] == records@[i as int]@);
            assert(p@ == rv[i as int].postal_code);
            lemma_distinct_postals_contains(prefix, p@);
        }
        let seen = postal_seen(records, i, &p);
        if !seen {
            proof {
                assert forall|q: int|
                    0 <= q < prefix.len() implies (#[trigger] prefix[q]).postal_code != p@ by {
                    assert(prefix[q] == views(records@)[q]);
                }
                assert(!distinct_postals(prefix).contains(p@));
                assert(distinct_postals(longer) == distinct_postals(prefix).push(p@));
            }
            let group = collect_postal_group(records, &p);
            proof {
                lemma_postal_group_member(rv, p@, i as int);
            }
            let m = merge_group(&group);
            proof {
                crate::record::lemma_views_push(out@, m);
                assert(distinct_postals(longer).map_values(
                    |q: Seq<char>| merged_model(postal_group(rv, q)),
                ) =~= distinct_postals(prefix).map_values(
                    |q: Seq<char>| merged_model(postal_group(rv, q)),
                ).push(merged_model(postal_group(rv, p@))));
            }
            out.push(m);
        } else {
            proof {
                let q = choose|q: int|
                    0 <= q < i && (#[trigger] views(records@)[q]).postal_code == p@;
                assert(prefix[q].postal_code == p@);
                assert(distinct_postals(prefix).contains(p@));
                assert(distinct_postals(longer) == distinct_postals(prefix));
            }
        }
        i = i + 1;
    }
    proof {
        assert(rv.subrange(0, n as int) =~= rv);
    }
    out
}

} // verus!
