//! One run's write planning against a snapshot of the stored hashes: the
//! whole-dataset hash is checked first and an unchanged dataset plans
//! nothing; otherwise the merged records of changed groups are scheduled,
//! batched, and followed by the updated hash values.

use vstd::prelude::*;

use crate::batch::{batch_slice, plan_batches, BATCH_LIMIT};
use crate::detect::HashIndex;
use crate::hash::pairs_views;
use crate::record::{views, PostalCodeRecord, RecordModel};
use crate::text::str_eq;
use crate::{all_digits, hash_item_key, lemma_sentinel_not_admin_code, sentinel_id};

verus! {

/// An identifier's hash counts as changed when the store lacks it or
/// holds a different value.
pub open spec fn hash_changed(
    stored: Map<Seq<char>, Seq<char>>,
    id: Seq<char>,
    fresh: Seq<char>,
) -> bool {
    !stored.contains_key(id) || stored[id] != fresh
}

/// The first hash the fresh index lists under `id`.
pub open spec fn first_hash(ps: Seq<(Seq<char>, Seq<char>)>, id: Seq<char>) -> Option<Seq<char>>
    decreases ps.len(),
{
    if ps.len() == 0 {
        None
    } else if ps[0].0 == id {
        Some(ps[0].1)
    } else {
        first_hash(ps.drop_first(), id)
    }
}

/// Whether a merged record belongs to a changed group: its group's fresh
/// hash differs from the stored one.  A record whose code the fresh index
/// does not list counts as changed.
pub open spec fn record_scheduled(
    m: RecordModel,
    fresh: Seq<(Seq<char>, Seq<char>)>,
    stored: Map<Seq<char>, Seq<char>>,
) -> bool {
    match first_hash(fresh, m.national_local_government_code) {
        Some(h) => hash_changed(stored, m.national_local_government_code, h),
        None => true,
    }
}

/// The merged records scheduled for writing, in order.
pub open spec fn scheduled_records(
    ms: Seq<RecordModel>,
    fresh: Seq<(Seq<char>, Seq<char>)>,
    stored: Map<Seq<char>, Seq<char>>,
) -> Seq<RecordModel>
    decreases ms.len(),
{
    if ms.len() == 0 {
        Seq::empty()
    } else {
        let rest = scheduled_records(ms.drop_last(), fresh, stored);
        if record_scheduled(ms.last(), fresh, stored) {
            rest.push(ms.last())
        } else {
            rest
        }
    }
}

/// The fresh index entries whose hash changed, in index order.
pub open spec fn changed_pairs(
    fresh: Seq<(Seq<char>, Seq<char>)>,
    stored: Map<Seq<char>, Seq<char>>,
) -> Seq<(Seq<char>, Seq<char>)>
    decreases fresh.len(),
{
    if fresh.len() == 0 {
        Seq::empty()
    } else {
        let rest = changed_pairs(fresh.drop_last(), stored);
        if hash_changed(stored, fresh.last().0, fresh.last().1) {
            rest.push(fresh.last())
        } else {
            rest
        }
    }
}

/// The hash values one run writes: the whole-dataset hash under the
/// sentinel identifier, then one entry per changed group.
pub open spec fn hash_updates(
    fresh: Seq<(Seq<char>, Seq<char>)>,
    stored: Map<Seq<char>, Seq<char>>,
    all: Seq<char>,
) -> Seq<(Seq<char>, Seq<char>)> {
    seq![(sentinel_id(), all)] + changed_pairs(fresh, stored)
}

/// Everything one run sends to the store: the changed address rows in
/// flush batches, then the updated hash values in flush batches, and the
/// number of address rows written.
pub struct WritePlan {
    pub address_batches: Vec<Vec<PostalCodeRecord>>,
    pub hash_batches: Vec<Vec<(String, String)>>,
    pub count: usize,
}

/// Looks up the first fresh hash listed under `id`.
fn lookup_fresh(fresh: &Vec<(String, String)>, id: &str) -> (r: Option<String>)
    ensures
        match r {
            Some(h) => first_hash(pairs_views(fresh@), id@) == Some(h@),
            None => first_hash(pairs_views(fresh@), id@) is None,
        },
{
    let ghost pv = pairs_views(fresh@);
    let n = fresh.len();
    let mut i: usize = 0;
    proof {
        assert(pv.skip(0) =~= pv);
    }
    while i < n
        invariant
            i <= n,
            n == fresh@.len(),
            pv == pairs_views(fresh@),
            pv.len() == n,
            first_hash(pv, id@) == first_hash(pv.skip(i as int), id@),
        decreases n - i,
    {
        proof {
            assert(pv.skip(i as int)[0] == pv[i as int]);
            assert(pv.skip(i as int).drop_first() =~= pv.skip(i as int + 1));
        }
        let hit = str_eq(fresh[i].0.as_str(), id);
        if hit {
            return Some(fresh[i].1.clone());
        }
        i = i + 1;
    }
    None
}

/// Whether `id`'s hash, freshly `fresh`, counts as changed against the
/// stored snapshot.
fn stored_changed(stored: &HashIndex, id: &str, fresh: &str) -> (r: bool)
    requires
        stored.wf(),
    ensures
        r == hash_changed(stored@, id@, fresh@),
{
    match stored.get(id) {
        Some(h) => !str_eq(h.as_str(), fresh),
        None => true,
    }
}

/// Plans one run's writes against a stored-hash snapshot.  When the
/// stored whole-dataset hash equals the fresh one the run is a skip: no
/// rows, no hash updates, a count of zero.  Otherwise every merged record
/// of a changed group is scheduled, in order, and cut into flush batches,
/// and the updated hash values follow under the same batching.
pub fn plan_run(
    merged: &Vec<PostalCodeRecord>,
    fresh: &Vec<(String, String)>,
    all_hash: &String,
    stored: &HashIndex,
) -> (plan: WritePlan)
    requires
        stored.wf(),
    ensures
        !hash_changed(stored@, sentinel_id(), all_hash@) ==> plan.address_batches@.len() == 0
            && plan.hash_batches@.len() == 0 && plan.count == 0,
        hash_changed(stored@, sentinel_id(), all_hash@) ==> {
            &&& plan.count == scheduled_records(views(merged@), pairs_views(fresh@), stored@).len()
            &&& plan.address_batches@.len() == (scheduled_records(
                views(merged@),
                pairs_views(fresh@),
                stored@,
            ).len() + BATCH_LIMIT - 1) as int / (BATCH_LIMIT as int)
            &&& forall|b: int|
                0 <= b < plan.address_batches@.len() ==> views(
                    #[trigger] plan.address_batches@[b]@,
                ) == batch_slice(
                    scheduled_records(views(merged@), pairs_views(fresh@), stored@),
                    b,
                )
            &&& plan.hash_batches@.len() == (hash_updates(
                pairs_views(fresh@),
                stored@,
                all_hash@,
            ).len() + BATCH_LIMIT - 1) as int / (BATCH_LIMIT as int)
            &&& forall|b: int|
                0 <= b < plan.hash_batches@.len() ==> pairs_views(
                    #[trigger] plan.hash_batches@[b]@,
                ) == batch_slice(hash_updates(pairs_views(fresh@), stored@, all_hash@), b)
        },
{
    let sentinel = hash_item_key();
    let changed = stored_changed(stored, sentinel.as_str(), all_hash.as_str());
    if !changed {
        return WritePlan { address_batches: Vec::new(), hash_batches: Vec::new(), count: 0 };
    }
    let ghost mv = views(merged@);
    let ghost pv = pairs_views(fresh@);
    let n = merged.len();
    let mut sched: Vec<PostalCodeRecord> = Vec::new();
    let mut i: usize = 0;
    proof {
        assert(views(sched@) =~= scheduled_records(mv.subrange(0, 0), pv, stored@));
    }
    while i < n
        invariant
            i <= n,
            n == merged@.len(),
            mv == views(merged@),
            pv == pairs_views(fresh@),
            mv.len() == n,
            stored.wf(),
            views(sched@) == scheduled_records(mv.subrange(0, i as int), pv, stored@),
        decreases n - i,
    {
        proof {
            let longer = mv.subrange(0, i as int + 1);
            assert(longer.drop_last() =~= mv.subrange(0, i as int));
            assert(longer.last() == mv[i as int]);
            assert(mv[i as int] == merged@[i as int]@);
        }
        let code = &merged[i].national_local_government_code;
        let scheduled = match lookup_fresh(fresh, code.as_str()) {
            Some(h) => stored_changed(stored, code.as_str(), h.as_str()),
            None => true,
        };
        if scheduled {
            let rec = merged[i].clone();
            proof {
                crate::record::lemma_views_push(sched@, rec);
            }
            sched.push(rec);
        }
        i = i + 1;
    }
    proof {
        assert(mv.subrange(0, n as int) =~= mv);
    }
    let count = sched.len();
    let ghost sched_spec = scheduled_records(mv, pv, stored@);
    let ghost sched_vec = sched@;
    let address_batches = plan_batches(sched);
    proof {
        assert forall|b: int| 0 <= b < address_batches@.len() implies views(
            #[trigger] address_batches@[b]@,
        ) == batch_slice(sched_spec, b) by {
            assert(address_batches@[b]@ == batch_slice(sched_vec, b));
            assert(views(batch_slice(sched_vec, b)) =~= batch_slice(views(sched_vec), b));
        }
    }
    let mut ups: Vec<(String, String)> = Vec::new();
    ups.push((sentinel, all_hash.clone()));
    let m = fresh.len();
    let mut k: usize = 0;
    proof {
        assert(pairs_views(ups@) =~= seq![(sentinel_id(), all_hash@)] + changed_pairs(
            pv.subrange(0, 0),
            stored@,
        ));
    }
    while k < m
        invariant
            k <= m,
            m == fresh@.len(),
            pv == pairs_views(fresh@),
            pv.len() == m,
            stored.wf(),
            pairs_views(ups@) == seq![(sentinel_id(), all_hash@)] + changed_pairs(
                pv.subrange(0, k as int),
                stored@,
            ),
        decreases m - k,
    {
        proof {
            let longer = pv.subrange(0, k as int + 1);
            assert(longer.drop_last() =~= pv.subrange(0, k as int));
            assert(longer.last() == pv[k as int]);
            assert(pv[k as int] == (fresh@[k as int].0@, fresh@[k as int].1@));
        }
        let entry_changed = stored_changed(
            stored,
            fresh[k].0.as_str(),
            fresh[k].1.as_str(),
        );
        if entry_changed {
            let pair = (fresh[k].0.clone(), fresh[k].1.clone());
            proof {
                assert(pairs_views(ups@.push(pair)) =~= pairs_views(ups@).push(
                    (pair.0@, pair.1@),
                ));
            }
            ups.push(pair);
        }
        k = k + 1;
    }
    proof {
        assert(pv.subrange(0, m as int) =~= pv);
    }
    let ghost ups_spec = hash_updates(pv, stored@, all_hash@);
    let ghost ups_vec = ups@;
    let hash_batches = plan_batches(ups);
    proof {
        assert forall|b: int| 0 <= b < hash_batches@.len() implies pairs_views(
            #[trigger] hash_batches@[b]@,
        ) == batch_slice(ups_spec, b) by {
            assert(hash_batches@[b]@ == batch_slice(ups_vec, b));
            assert(pairs_views(batch_slice(ups_vec, b)) =~= batch_slice(
                pairs_views(ups_vec),
                b,
            ));
        }
    }
    WritePlan { address_batches, hash_batches, count }
}

// --- idempotence across runs ---

/// The stored map after a sequence of hash writes, applied in order.
pub open spec fn apply_updates(
    stored: Map<Seq<char>, Seq<char>>,
    ups: Seq<(Seq<char>, Seq<char>)>,
) -> Map<Seq<char>, Seq<char>>
    decreases ups.len(),
{
    if ups.len() == 0 {
        stored
    } else {
        apply_updates(stored, ups.drop_last()).insert(ups.last().0, ups.last().1)
    }
}

/// The stored map after one whole run: untouched on a skip, else with the
/// sentinel and every changed group's hash rewritten.
pub open spec fn store_after_run(
    stored: Map<Seq<char>, Seq<char>>,
    fresh: Seq<(Seq<char>, Seq<char>)>,
    all: Seq<char>,
) -> Map<Seq<char>, Seq<char>> {
    if !hash_changed(stored, sentinel_id(), all) {
        stored
    } else {
        apply_updates(stored, hash_updates(fresh, stored, all))
    }
}

/// Writes that never bind `k` leave `k`'s binding alone.
proof fn lemma_apply_updates_other(
    stored: Map<Seq<char>, Seq<char>>,
    ups: Seq<(Seq<char>, Seq<char>)>,
    k: Seq<char>,
)
    requires
        forall|i: int| 0 <= i < ups.len() ==> (#[trigger] ups[i]).0 != k,
        stored.contains_key(k),
    ensures
        apply_updates(stored, ups).contains_key(k),
        apply_updates(stored, ups)[k] == stored[k],
    decreases ups.len(),
{
    if ups.len() > 0 {
        assert forall|i: int| 0 <= i < ups.drop_last().len() implies (#[trigger] ups.drop_last()[i]).0
            != k by {
            assert(ups.drop_last()[i] == ups[i]);
        }
        lemma_apply_updates_other(stored, ups.drop_last(), k);
        assert(ups[ups.len() - 1].0 != k);
    }
}

/// Each changed pair comes from the fresh index.
proof fn lemma_changed_pairs_sub(
    fresh: Seq<(Seq<char>, Seq<char>)>,
    stored: Map<Seq<char>, Seq<char>>,
    i: int,
)
    requires
        0 <= i < changed_pairs(fresh, stored).len(),
    ensures
        exists|j: int|
            0 <= j < fresh.len() && #[trigger] fresh[j] == changed_pairs(fresh, stored)[i],
    decreases fresh.len(),
{
    if fresh.len() > 0 {
        let rest = changed_pairs(fresh.drop_last(), stored);
        if i < rest.len() {
            lemma_changed_pairs_sub(fresh.drop_last(), stored, i);
            let j = choose|j: int|
                0 <= j < fresh.drop_last().len() && #[trigger] fresh.drop_last()[j] == rest[i];
            assert(fresh[j] == rest[i]);
        } else {
            assert(fresh[fresh.len() - 1] == changed_pairs(fresh, stored)[i]);
        }
    }
}

/// Idempotence of a run's hash writes: after one run, the stored
/// whole-dataset hash equals the freshly computed one, so a second run
/// over unchanged source data — whose fresh hashes are the same, the
/// pipeline being a function of the archive bytes — is a skip and plans
/// zero writes.  The group identifiers must be administrative codes,
/// that is all-digit strings, so none of them can overwrite the sentinel.
pub proof fn lemma_second_run_skips(
    stored: Map<Seq<char>, Seq<char>>,
    fresh: Seq<(Seq<char>, Seq<char>)>,
    all: Seq<char>,
)
    requires
        forall|i: int| 0 <= i < fresh.len() ==> all_digits((#[trigger] fresh[i]).0),
    ensures
        !hash_changed(store_after_run(stored, fresh, all), sentinel_id(), all),
{
    if hash_changed(stored, sentinel_id(), all) {
        let cp = changed_pairs(fresh, stored);
        let after_sentinel = stored.insert(sentinel_id(), all);
        assert(apply_updates(stored, hash_updates(fresh, stored, all)) == apply_updates(
            after_sentinel,
            cp,
        )) by {
            lemma_apply_cons(stored, (sentinel_id(), all), cp);
        }
        assert forall|i: int| 0 <= i < cp.len() implies (#[trigger] cp[i]).0 != sentinel_id() by {
            lemma_changed_pairs_sub(fresh, stored, i);
            let j = choose|j: int| 0 <= j < fresh.len() && #[trigger] fresh[j] == cp[i];
            lemma_sentinel_not_admin_code(fresh[j].0);
        }
        lemma_apply_updates_other(after_sentinel, cp, sentinel_id());
    }
}

/// Applying a leading write first, then the rest, is applying them all.
proof fn lemma_apply_cons(
    stored: Map<Seq<char>, Seq<char>>,
    p: (Seq<char>, Seq<char>),
    rest: Seq<(Seq<char>, Seq<char>)>,
)
    ensures
        apply_updates(stored, seq![p] + rest) == apply_updates(stored.insert(p.0, p.1), rest),
    decreases rest.len(),
{
    if rest.len() == 0 {
        assert((seq![p] + rest).len() == 1);
        assert((seq![p] + rest).last() == p);
        assert((seq![p] + rest).drop_last() =~= Seq::<(Seq<char>, Seq<char>)>::empty());
        assert(apply_updates(stored, Seq::<(Seq<char>, Seq<char>)>::empty()) == stored);
        assert(apply_updates(stored.insert(p.0, p.1), rest) == stored.insert(p.0, p.1));
    } else {
        assert((seq![p] + rest).drop_last() =~= seq![p] + rest.drop_last());
        lemma_apply_cons(stored, p, rest.drop_last());
        assert((seq![p] + rest).last() == rest.last());
    }
}

} // verus!
