//! Content hashing: per-group and whole-dataset digests over the grouped,
//! sorted records, encoded as unpadded base64.

use vstd::prelude::*;

use base64::Engine;
use sha2::Digest;

use crate::record::{record_bytes, views, PostalCodeRecord, RecordModel};
use crate::sort::{group_spec, group_views, key_unique, lemma_sort_deterministic, sort_spec};

verus! {

/// What SHA-256 yields on a byte stream.
pub uninterp spec fn sha256_digest(data: Seq<u8>) -> Seq<u8>;

/// What base64 (standard alphabet, no padding) yields on a byte string.
pub uninterp spec fn b64_nopad(data: Seq<u8>) -> Seq<char>;

/// Relies on sha2's Sha256: the digest is a function of the input bytes
/// alone and is 32 bytes long.
#[verifier::external_body]
fn sha256_of(data: &[u8]) -> (r: Vec<u8>)
    ensures
        r@ == sha256_digest(data@),
        r@.len() == 32,
{
    sha2::Sha256::digest(data).to_vec()
}

/// Relies on base64's STANDARD_NO_PAD engine: the encoding is a function of
/// the input bytes alone, four characters for every three bytes, rounded up
/// without padding.
#[verifier::external_body]
fn b64_nopad_of(data: &[u8]) -> (r: String)
    ensures
        r@ == b64_nopad(data@),
        r@.len() == (data@.len() * 4 + 2) / 3,
{
    base64::engine::general_purpose::STANDARD_NO_PAD.encode(data)
}

/// The byte stream of a record sequence: each record's hash bytes in order.
pub open spec fn records_bytes(rs: Seq<RecordModel>) -> Seq<u8>
    decreases rs.len(),
{
    if rs.len() == 0 {
        Seq::empty()
    } else {
        record_bytes(rs[0]) + records_bytes(rs.drop_first())
    }
}

pub proof fn lemma_records_bytes_snoc(rs: Seq<RecordModel>, m: RecordModel)
    ensures
        records_bytes(rs.push(m)) == records_bytes(rs) + record_bytes(m),
    decreases rs.len(),
{
    if rs.len() == 0 {
        assert(rs.push(m)[0] == m);
        assert(rs.push(m).drop_first() =~= Seq::<RecordModel>::empty());
        assert(records_bytes(Seq::<RecordModel>::empty()) == Seq::<u8>::empty());
        assert(records_bytes(rs) == Seq::<u8>::empty());
        assert(records_bytes(rs.push(m)) =~= records_bytes(rs) + record_bytes(m));
    } else {
        assert(rs.push(m).drop_first() =~= rs.drop_first().push(m));
        lemma_records_bytes_snoc(rs.drop_first(), m);
        assert(rs.push(m)[0] == rs[0]);
        assert(record_bytes(rs[0]) + (records_bytes(rs.drop_first()) + record_bytes(m)) =~= (
        record_bytes(rs[0]) + records_bytes(rs.drop_first())) + record_bytes(m));
    }
}

/// The byte stream of a grouped dataset: each group's record bytes in group
/// order — the same bytes that feed the per-group digests.
pub open spec fn groups_bytes(gs: Seq<(Seq<char>, Seq<RecordModel>)>) -> Seq<u8>
    decreases gs.len(),
{
    if gs.len() == 0 {
        Seq::empty()
    } else {
        records_bytes(gs[0].1) + groups_bytes(gs.drop_first())
    }
}

pub proof fn lemma_groups_bytes_snoc(gs: Seq<(Seq<char>, Seq<RecordModel>)>, g: (
    Seq<char>,
    Seq<RecordModel>,
))
    ensures
        groups_bytes(gs.push(g)) == groups_bytes(gs) + records_bytes(g.1),
    decreases gs.len(),
{
    if gs.len() == 0 {
        assert(gs.push(g)[0] == g);
        assert(gs.push(g).drop_first() =~= Seq::<(Seq<char>, Seq<RecordModel>)>::empty());
        assert(groups_bytes(Seq::<(Seq<char>, Seq<RecordModel>)>::empty()) == Seq::<u8>::empty());
        assert(groups_bytes(gs) == Seq::<u8>::empty());
        assert(groups_bytes(gs.push(g)) =~= groups_bytes(gs) + records_bytes(g.1));
    } else {
        assert(gs.push(g).drop_first() =~= gs.drop_first().push(g));
        lemma_groups_bytes_snoc(gs.drop_first(), g);
        assert(gs.push(g)[0] == gs[0]);
        assert(records_bytes(gs[0].1) + (groups_bytes(gs.drop_first()) + records_bytes(g.1)) =~= (
        records_bytes(gs[0].1) + groups_bytes(gs.drop_first())) + records_bytes(g.1));
    }
}

/// Content hash of one group's records.
pub open spec fn group_hash(rs: Seq<RecordModel>) -> Seq<char> {
    b64_nopad(sha256_digest(records_bytes(rs)))
}

/// Content hash of the whole dataset.
pub open spec fn dataset_hash(gs: Seq<(Seq<char>, Seq<RecordModel>)>) -> Seq<char> {
    b64_nopad(sha256_digest(groups_bytes(gs)))
}

/// The freshly computed hash index: one (administrative code, hash) pair
/// per group, in group order.
pub open spec fn hash_index_spec(gs: Seq<(Seq<char>, Seq<RecordModel>)>) -> Seq<
    (Seq<char>, Seq<char>),
> {
    gs.map_values(|g: (Seq<char>, Seq<RecordModel>)| (g.0, group_hash(g.1)))
}

/// The views of a sequence of string pairs.
pub open spec fn pairs_views(ps: Seq<(String, String)>) -> Seq<(Seq<char>, Seq<char>)> {
    ps.map_values(|p: (String, String)| (p.0@, p.1@))
}

/// Determinism of the content hashes: two arrangements of one normalized
/// dataset — in particular, the parse orders two shufflings of the source
/// rows produce — yield the same group hash index and the same
/// whole-dataset hash, provided records sharing a sort key are equal.
pub proof fn lemma_hashes_deterministic(s1: Seq<RecordModel>, s2: Seq<RecordModel>)
    requires
        s1.to_multiset() == s2.to_multiset(),
        key_unique(s1),
    ensures
        hash_index_spec(group_spec(sort_spec(s1))) == hash_index_spec(group_spec(sort_spec(s2))),
        dataset_hash(group_spec(sort_spec(s1))) == dataset_hash(group_spec(sort_spec(s2))),
{
    lemma_sort_deterministic(s1, s2);
}

/// Appends `src` to `acc`.
fn extend_vec(acc: &mut Vec<u8>, src: &Vec<u8>)
    ensures
        final(acc)@ == old(acc)@ + src@,
{
    let n = src.len();
    let mut i: usize = 0;
    while i < n
        invariant
            i <= n,
            n == src@.len(),
            acc@ == old(acc)@ + src@.subrange(0, i as int),
        decreases n - i,
    {
        acc.push(src[i]);
        assert(src@.subrange(0, i as int + 1) =~= src@.subrange(0, i as int).push(src@[i as int]));
        i = i + 1;
    }
    assert(src@.subrange(0, n as int) =~= src@);
}

/// Computes each group's content hash and the whole-dataset hash: every
/// record's field bytes are fed in fixed field order and sorted record
/// order into a per-group digest and a dataset-wide digest.
pub fn build_hash_index(groups: &Vec<(String, Vec<PostalCodeRecord>)>) -> (r: (
    Vec<(String, String)>,
    String,
))
    ensures
        pairs_views(r.0@) == hash_index_spec(group_views(groups@)),
        r.1@ == dataset_hash(group_views(groups@)),
{
    let ghost gv = group_views(groups@);
    let n = groups.len();
    let mut index: Vec<(String, String)> = Vec::new();
    let mut all_bytes: Vec<u8> = Vec::new();
    let mut i: usize = 0;
    proof {
        assert(pairs_views(index@) =~= hash_index_spec(gv.subrange(0, 0)));
        assert(all_bytes@ =~= groups_bytes(gv.subrange(0, 0)));
    }
    while i < n
        invariant
            i <= n,
            n == groups@.len(),
            gv == group_views(groups@),
            gv.len() == n,
            pairs_views(index@) == hash_index_spec(gv.subrange(0, i as int)),
            all_bytes@ == groups_bytes(gv.subrange(0, i as int)),
        decreases n - i,
    {
        proof {
            assert(gv[i as int] == (groups@[i as int].0@, views(groups@[i as int].1@)));
        }
        let members = &groups[i].1;
        let m = members.len();
        let mut bytes: Vec<u8> = Vec::new();
        let mut t: usize = 0;
        proof {
            assert(bytes@ =~= records_bytes(views(members@).subrange(0, 0)));
        }
        while t < m
            invariant
                t <= m,
                m == members@.len(),
                bytes@ == records_bytes(views(members@).subrange(0, t as int)),
            decreases m - t,
        {
            members[t].hasher_add(&mut bytes);
            proof {
                lemma_records_bytes_snoc(
                    views(members@).subrange(0, t as int),
                    views(members@)[t as int],
                );
                assert(views(members@).subrange(0, t as int + 1) =~= views(members@).subrange(
                    0,
                    t as int,
                ).push(views(members@)[t as int]));
                assert(views(members@)[t as int] == members@[t as int]@);
            }
            t = t + 1;
        }
        proof {
            assert(views(members@).subrange(0, m as int) =~= views(members@));
            assert(bytes@ == records_bytes(gv[i as int].1));
        }
        let digest = sha256_of(bytes.as_slice());
        let h = b64_nopad_of(digest.as_slice());
        let code = groups[i].0.clone();
        let pair = (code, h);
        proof {
            assert(pairs_views(index@.push(pair)) =~= pairs_views(index@).push(
                (pair.0@, pair.1@),
            ));
            assert(hash_index_spec(gv.subrange(0, i as int + 1)) =~= hash_index_spec(
                gv.subrange(0, i as int),
            ).push((gv[i as int].0, group_hash(gv[i as int].1))));
        }
        index.push(pair);
        proof {
            lemma_groups_bytes_snoc(gv.subrange(0, i as int), gv[i as int]);
            assert(gv.subrange(0, i as int + 1) =~= gv.subrange(0, i as int).push(gv[i as int]));
        }
        extend_vec(&mut all_bytes, &bytes);
        i = i + 1;
    }
    proof {
        assert(gv.subrange(0, n as int) =~= gv);
    }
    let all_digest = sha256_of(all_bytes.as_slice());
    let all_hash = b64_nopad_of(all_digest.as_slice());
    (index, all_hash)
}

} // verus!
