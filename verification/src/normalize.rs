//! Normalization of parsed rows: clearing placeholder town values,
//! stripping bracketed annotations, and reassembling records that the
//! source splits across several physical rows.
//!
//! A single forward scan in file order runs a two-state machine.  In the
//! normal state a row is kept; if, after stripping, its town still holds an
//! unmatched opening bracket, the row is truncated at that bracket and kept
//! as the representative of a split group, and the scan enters the merging
//! state.  While merging, rows are continuation data and are dropped; a
//! closing bracket in a row's town ends the group.

use vstd::prelude::*;
use vstd::string::*;

use crate::record::{lemma_views_push, views, PostalCodeRecord, RecordModel};
use crate::text::{
    contains_char, find_char, index_of_char_from, lemma_index_of_char_from, str_contains_sub,
    str_eq,
};

verus! {

/// State of the forward scan.
#[derive(Clone, Copy, Debug, PartialEq, Eq, Structural)]
pub enum ScanState {
    Normal,
    Merging,
}

/// A town value that carries no address information: the "no listing below
/// this" placeholder, a "banchi follows next" note, or an "entire area"
/// marker with extra text around it.
pub open spec fn town_is_placeholder(t: Seq<char>) -> bool {
    ||| t == "以下に掲載がない場合"@
    ||| crate::text::contains_sub(t, "の次に番地が来る場合"@)
    ||| (t != "一円"@ && crate::text::contains_sub(t, "一円"@))
}

/// Clears town and its phonetic counterpart when the town is a placeholder.
pub open spec fn clear_placeholders(m: RecordModel) -> RecordModel {
    if town_is_placeholder(m.town) {
        RecordModel { town: Seq::empty(), town_kana: Seq::empty(), ..m }
    } else {
        m
    }
}

/// Removes the first `open`…`close` span, brackets included, if one is
/// complete; `None` when no complete span remains.
pub open spec fn strip_first_span(s: Seq<char>, open: char, close: char) -> Option<Seq<char>> {
    match index_of_char_from(s, open, 0) {
        None => None,
        Some(i) => match index_of_char_from(s, close, i + 1) {
            None => None,
            Some(j) => Some(s.subrange(0, i) + s.subrange(j + 1, s.len() as int)),
        },
    }
}

/// Removes every complete `open`…`close` span, leftmost-first.
pub open spec fn strip_spans(s: Seq<char>, open: char, close: char) -> Seq<char>
    decreases s.len(),
    via strip_spans_decreases
{
    match strip_first_span(s, open, close) {
        None => s,
        Some(t) => strip_spans(t, open, close),
    }
}

#[via_fn]
proof fn strip_spans_decreases(s: Seq<char>, open: char, close: char) {
    lemma_index_of_char_from(s, open, 0);
    match index_of_char_from(s, open, 0) {
        Some(i) => {
            lemma_index_of_char_from(s, close, i + 1);
        },
        None => {},
    }
}

/// Strips annotations from town (full-width brackets) and from its phonetic
/// counterpart (half-width brackets).
pub open spec fn strip_row(m: RecordModel) -> RecordModel {
    RecordModel {
        town_kana: strip_spans(m.town_kana, '(', ')'),
        town: strip_spans(m.town, '（', '）'),
        ..m
    }
}

/// The per-row preprocessing applied in any state.
pub open spec fn preprocess_row(m: RecordModel) -> RecordModel {
    strip_row(clear_placeholders(m))
}

/// Truncates town at its first opening bracket; the phonetic counterpart is
/// truncated at its own opening bracket when it has one.
pub open spec fn truncated_row(m: RecordModel) -> RecordModel {
    match index_of_char_from(m.town, '（', 0) {
        Some(i) => {
            let kana = match index_of_char_from(m.town_kana, '(', 0) {
                Some(k) => m.town_kana.subrange(0, k),
                None => m.town_kana,
            };
            RecordModel { town: m.town.subrange(0, i), town_kana: kana, ..m }
        },
        None => m,
    }
}

/// The forward scan from state `st`: the sequence of rows that survive
/// normalization, each preprocessed, with split-group representatives
/// truncated and continuation rows dropped.
pub open spec fn normalize_from(rows: Seq<RecordModel>, st: ScanState) -> Seq<RecordModel>
    decreases rows.len(),
{
    if rows.len() == 0 {
        Seq::empty()
    } else {
        let m = preprocess_row(rows[0]);
        let rest = rows.drop_first();
        match st {
            ScanState::Normal => {
                if contains_char(m.town, '（') {
                    seq![truncated_row(m)] + normalize_from(rest, ScanState::Merging)
                } else {
                    seq![m] + normalize_from(rest, ScanState::Normal)
                }
            },
            ScanState::Merging => {
                if contains_char(m.town, '）') {
                    normalize_from(rest, ScanState::Normal)
                } else {
                    normalize_from(rest, ScanState::Merging)
                }
            },
        }
    }
}

/// Normalization of a whole dataset, started in the normal state.
pub open spec fn normalize_records(rows: Seq<RecordModel>) -> Seq<RecordModel> {
    normalize_from(rows, ScanState::Normal)
}

/// No surviving record's town holds an opening bracket.
pub proof fn lemma_normalized_no_open(rows: Seq<RecordModel>, st: ScanState)
    ensures
        forall|k: int|
            0 <= k < normalize_from(rows, st).len() ==> !contains_char(
                #[trigger] normalize_from(rows, st)[k].town,
                '（',
            ),
    decreases rows.len(),
{
    if rows.len() > 0 {
        let m = preprocess_row(rows[0]);
        let rest = rows.drop_first();
        match st {
            ScanState::Normal => {
                if contains_char(m.town, '（') {
                    lemma_normalized_no_open(rest, ScanState::Merging);
                    lemma_index_of_char_from(m.town, '（', 0);
                    let i = index_of_char_from(m.town, '（', 0)->Some_0;
                    assert(!contains_char(truncated_row(m).town, '（')) by {
                        assert forall|p: int|
                            0 <= p < truncated_row(m).town.len() implies truncated_row(
                            m,
                        ).town[p] != '（' by {
                            assert(truncated_row(m).town[p] == m.town[p]);
                        }
                    }
                } else {
                    lemma_normalized_no_open(rest, ScanState::Normal);
                }
            },
            ScanState::Merging => {
                if contains_char(m.town, '）') {
                    lemma_normalized_no_open(rest, ScanState::Normal);
                } else {
                    lemma_normalized_no_open(rest, ScanState::Merging);
                }
            },
        }
    }
}

/// Removes every complete bracketed span from `s`, leftmost-first.
fn strip_spans_exec(s: &String, open: char, close: char) -> (r: String)
    ensures
        r@ == strip_spans(s@, open, close),
{
    let mut cur: String = s.clone();
    loop
        invariant
            strip_spans(s@, open, close) == strip_spans(cur@, open, close),
        decreases cur@.len(),
    {
        let n = cur.as_str().unicode_len();
        let first_open = find_char(cur.as_str(), open, 0);
        proof {
            lemma_index_of_char_from(cur@, open, 0);
        }
        match first_open {
            None => {
                return cur;
            },
            Some(i) => {
                let first_close = find_char(cur.as_str(), close, i + 1);
                proof {
                    lemma_index_of_char_from(cur@, close, i as int + 1);
                }
                match first_close {
                    None => {
                        return cur;
                    },
                    Some(j) => {
                        let head = cur.as_str().substring_char(0, i).to_owned();
                        let tail = cur.as_str().substring_char(j + 1, n);
                        let next = head.concat(tail);
                        proof {
                            assert(strip_first_span(cur@, open, close) == Some(next@));
                            assert(strip_spans(cur@, open, close) == strip_spans(
                                next@,
                                open,
                                close,
                            ));
                        }
                        cur = next;
                    },
                }
            },
        }
    }
}

/// Applies placeholder clearing and annotation stripping to one record.
fn preprocess_row_exec(r: &PostalCodeRecord) -> (t: PostalCodeRecord)
    ensures
        t@ == preprocess_row(r@),
{
    let mut t = r.clone();
    let placeholder = str_eq(t.town.as_str(), "以下に掲載がない場合") || str_contains_sub(
        t.town.as_str(),
        "の次に番地が来る場合",
    ) || (!str_eq(t.town.as_str(), "一円") && str_contains_sub(t.town.as_str(), "一円"));
    if placeholder {
        t.town = String::new();
        t.town_kana = String::new();
    }
    t.town_kana = strip_spans_exec(&t.town_kana, '(', ')');
    t.town = strip_spans_exec(&t.town, '（', '）');
    t
}

/// Truncates a preprocessed record at its unmatched opening bracket.
fn truncate_row_exec(r: &PostalCodeRecord, i: usize) -> (t: PostalCodeRecord)
    requires
        index_of_char_from(r.town@, '（', 0) == Some(i as int),
    ensures
        t@ == truncated_row(r@),
{
    proof {
        lemma_index_of_char_from(r.town@, '（', 0);
    }
    let mut t = r.clone();
    t.town = t.town.as_str().substring_char(0, i).to_owned();
    let kana_open = find_char(r.town_kana.as_str(), '(', 0);
    proof {
        lemma_index_of_char_from(r.town_kana@, '(', 0);
    }
    match kana_open {
        Some(k) => {
            t.town_kana = t.town_kana.as_str().substring_char(0, k).to_owned();
        },
        None => {},
    }
    t
}

/// Normalizes the parsed rows in their original file order: placeholder
/// towns are cleared, annotations stripped, and records that the source
/// splits across several rows are reassembled into one truncated
/// representative, the continuation rows being dropped.
pub fn record_normalize(list: &mut Vec<PostalCodeRecord>)
    ensures
        views(final(list)@) == normalize_records(views(old(list)@)),
{
    let n = list.len();
    let mut out: Vec<PostalCodeRecord> = Vec::new();
    let mut merging = false;
    let mut i: usize = 0;
    proof {
        assert(views(list@).skip(0) =~= views(list@));
    }
    while i < n
        invariant
            i <= n,
            n == list@.len(),
            list@ == old(list)@,
            normalize_records(views(old(list)@)) == views(out@) + normalize_from(
                views(list@).skip(i as int),
                if merging {
                    ScanState::Merging
                } else {
                    ScanState::Normal
                },
            ),
        decreases n - i,
    {
        let ghost pending = views(list@).skip(i as int);
        let ghost rest = views(list@).skip(i as int + 1);
        let ghost out0 = views(out@);
        proof {
            assert(pending[0] == views(list@)[i as int]);
            assert(pending.drop_first() =~= rest);
        }
        let r = preprocess_row_exec(&list[i]);
        let ghost m = preprocess_row(pending[0]);
        if !merging {
            let town_open = find_char(r.town.as_str(), '（', 0);
            proof {
                lemma_index_of_char_from(r.town@, '（', 0);
            }
            match town_open {
                Some(open_at) => {
                    let kept = truncate_row_exec(&r, open_at);
                    proof {
                        assert(m.town[open_at as int] == '（');
                        assert(contains_char(m.town, '（'));
                        assert(normalize_from(pending, ScanState::Normal) == seq![
                            truncated_row(m),
                        ] + normalize_from(rest, ScanState::Merging));
                        lemma_views_push(out@, kept);
                        assert(out0.push(truncated_row(m)) + normalize_from(
                            rest,
                            ScanState::Merging,
                        ) =~= out0 + normalize_from(pending, ScanState::Normal));
                    }
                    out.push(kept);
                    merging = true;
                },
                None => {
                    proof {
                        assert(!contains_char(m.town, '（'));
                        assert(normalize_from(pending, ScanState::Normal) == seq![m]
                            + normalize_from(rest, ScanState::Normal));
                        lemma_views_push(out@, r);
                        assert(out0.push(m) + normalize_from(rest, ScanState::Normal) =~= out0
                            + normalize_from(pending, ScanState::Normal));
                    }
                    out.push(r);
                },
            }
        } else {
            let has_close = crate::text::str_contains_char(r.town.as_str(), '）');
            if has_close {
                proof {
                    assert(normalize_from(pending, ScanState::Merging) == normalize_from(
                        rest,
                        ScanState::Normal,
                    ));
                }
                merging = false;
            } else {
                proof {
                    assert(normalize_from(pending, ScanState::Merging) == normalize_from(
                        rest,
                        ScanState::Merging,
                    ));
                }
            }
        }
        i = i + 1;
    }
    proof {
        assert(normalize_from(views(list@).skip(n as int), ScanState::Normal) =~= Seq::<
            RecordModel,
        >::empty());
        assert(normalize_from(views(list@).skip(n as int), ScanState::Merging) =~= Seq::<
            RecordModel,
        >::empty());
        assert(views(out@) + Seq::<RecordModel>::empty() =~= views(out@));
    }
    *list = out;
}

} // verus!
