//! Row parsing: the decoded text is read as a delimited, quoted table;
//! each row with enough columns becomes a record, shorter rows are skipped
//! silently, and an unrecognized change-status value is a schema error.

use vstd::prelude::*;
use vstd::string::*;

use crate::record::{views, Changed, PostalCodeRecord, RecordModel};
use crate::text::{
    all_digit_chars, dec_value, is_digit, lemma_dec_value_lower, lemma_dec_value_skip_zeros,
};
use crate::UpdateError;

verus! {

/// What the delimited-table reader yields on the decoded text: rows of
/// fields, unquoted.
pub uninterp spec fn csv_rows(s: Seq<char>) -> Seq<Seq<Seq<char>>>;

/// Relies on csv's Reader: parsing an in-memory table, with rows of varying
/// width allowed, is a function of the text alone.  Rows the reader cannot
/// parse are skipped.
#[verifier::external_body]
pub(crate) fn parse_csv_rows(contents: &str) -> (rows: Vec<Vec<String>>)
    ensures
        rows.deep_view() == csv_rows(contents@),
{
    let mut reader = csv::ReaderBuilder::new().flexible(true).from_reader(contents.as_bytes());
    let mut rows = Vec::new();
    for result in reader.records() {
        if let Ok(record) = result {
            rows.push(record.iter().map(|f| f.to_string()).collect());
        }
    }
    rows
}

// --- change-status parsing ---

/// The change-status tag encoded by a field: an optionally signed decimal
/// integer, where 0 is no change, 1 changed and 2 deleted; anything else —
/// a non-integer, or an integer out of range — has no tag.
pub open spec fn status_of(s: Seq<char>) -> Option<Changed> {
    let digits = if s.len() > 0 && (s[0] == '+' || s[0] == '-') {
        s.drop_first()
    } else {
        s
    };
    if digits.len() == 0 || !all_digit_chars(digits) {
        None
    } else {
        let v = dec_value(digits);
        if s.len() > 0 && s[0] == '-' && v != 0 {
            None
        } else if v == 0 {
            Some(Changed::NoChange)
        } else if v == 1 {
            Some(Changed::Changed)
        } else if v == 2 {
            Some(Changed::Deleted)
        } else {
            None
        }
    }
}

/// Whether every character of `s` from `from` on is a decimal digit.
fn check_digits(s: &str, from: usize) -> (r: bool)
    requires
        from <= s@.len(),
    ensures
        r == all_digit_chars(s@.skip(from as int)),
{
    let n = s.unicode_len();
    let mut i: usize = from;
    while i < n
        invariant
            from <= i <= n,
            n == s@.len(),
            forall|q: int| from <= q < i ==> is_digit(#[trigger] s@[q]),
        decreases n - i,
    {
        let c = s.get_char(i);
        if c < '0' || c > '9' {
            assert(s@.skip(from as int)[i - from] == s@[i as int]);
            return false;
        }
        i = i + 1;
    }
    assert forall|q: int| 0 <= q < s@.skip(from as int).len() implies is_digit(
        #[trigger] s@.skip(from as int)[q],
    ) by {
        assert(s@.skip(from as int)[q] == s@[q + from]);
    }
    true
}

/// First position at or after `from` whose character is not `'0'`.
fn skip_zeros(s: &str, from: usize) -> (z: usize)
    requires
        from <= s@.len(),
    ensures
        from <= z <= s@.len(),
        forall|q: int| from <= q < z ==> s@[q] == '0',
        z < s@.len() ==> s@[z as int] != '0',
{
    let n = s.unicode_len();
    let mut z: usize = from;
    while z < n
        invariant
            from <= z <= n,
            n == s@.len(),
            forall|q: int| from <= q < z ==> s@[q] == '0',
        decreases n - z,
    {
        if s.get_char(z) != '0' {
            return z;
        }
        z = z + 1;
    }
    z
}

/// Reads a change-status field.
pub fn parse_status(s: &str) -> (r: Option<Changed>)
    ensures
        r == status_of(s@),
{
    let n = s.unicode_len();
    let mut start: usize = 0;
    let mut negative: bool = false;
    if n > 0 {
        let c = s.get_char(0);
        if c == '+' {
            start = 1;
        } else if c == '-' {
            start = 1;
            negative = true;
        }
    }
    let ghost digits = if s@.len() > 0 && (s@[0] == '+' || s@[0] == '-') {
        s@.drop_first()
    } else {
        s@
    };
    proof {
        assert(digits =~= s@.skip(start as int));
    }
    if start >= n {
        return None;
    }
    if !check_digits(s, start) {
        return None;
    }
    let z = skip_zeros(s, start);
    proof {
        assert forall|j: int| 0 <= j < z - start implies digits[j] == '0' by {
            assert(digits[j] == s@[j + start]);
        }
        lemma_dec_value_skip_zeros(digits, z - start);
        assert(digits.skip(z - start) =~= s@.skip(z as int));
        assert(dec_value(Seq::<char>::empty()) == 0);
    }
    if z == n {
        // all zeros: the value is zero whatever the sign
        proof {
            assert(s@.skip(z as int) =~= Seq::<char>::empty());
        }
        return Some(Changed::NoChange);
    }
    proof {
        assert(all_digit_chars(s@.skip(z as int))) by {
            assert forall|q: int| 0 <= q < s@.skip(z as int).len() implies is_digit(
                #[trigger] s@.skip(z as int)[q],
            ) by {
                assert(s@.skip(z as int)[q] == digits[q + (z - start)]);
            }
        }
        assert(s@.skip(z as int)[0] == s@[z as int]);
        assert(s@[z as int] != '0');
    }
    if n - z > 1 {
        // two or more digits with a leading non-zero: at least ten
        proof {
            lemma_dec_value_lower(s@.skip(z as int));
        }
        return None;
    }
    // exactly one significant digit
    let c = s.get_char(z);
    proof {
        assert(s@.skip(z as int) =~= seq![s@[z as int]]);
        assert(s@.skip(z as int).drop_last() =~= Seq::<char>::empty());
        assert(dec_value(s@.skip(z as int)) == crate::text::digit_val(s@[z as int]));
        assert(is_digit(s@[z as int]));
        assert(crate::text::digit_val(s@[z as int]) >= 1);
        assert(c != '0' && c != '1' && c != '2' ==> crate::text::digit_val(s@[z as int]) >= 3);
    }
    if negative {
        return None;
    }
    if c == '1' {
        Some(Changed::Changed)
    } else if c == '2' {
        Some(Changed::Deleted)
    } else {
        None
    }
}

// --- rows to records ---

/// The record a full row describes, under change tag `st`: columns map
/// positionally to fields, and a flag column is set exactly when it reads
/// `"1"`.
pub open spec fn row_model(row: Seq<Seq<char>>, st: Changed) -> RecordModel {
    RecordModel {
        national_local_government_code: row[0],
        postal_code: row[2],
        prefecture_kana: row[3],
        city_kana: row[4],
        town_kana: row[5],
        prefecture: row[6],
        city: row[7],
        town: row[8],
        is_town_with_multiple_postal_codes: row[9] == "1"@,
        is_banchi_per_koaza: row[10] == "1"@,
        is_town_with_chome: row[11] == "1"@,
        is_postal_code_with_multiple_towns: row[12] == "1"@,
        is_change: st,
        integrated: false,
    }
}

/// What one row contributes: nothing when it is too short, a record when
/// its change status is recognized, and a schema error otherwise.
pub open spec fn parse_row(row: Seq<Seq<char>>) -> Result<Option<RecordModel>, UpdateError> {
    if row.len() < 15 {
        Ok(None)
    } else {
        match status_of(row[13]) {
            None => Err(UpdateError::Schema),
            Some(st) => Ok(Some(row_model(row, st))),
        }
    }
}

/// The records of a table: rows in order, short rows skipped; the first
/// unrecognized change status makes the whole table a schema error.
pub open spec fn parse_rows(rows: Seq<Seq<Seq<char>>>) -> Result<Seq<RecordModel>, UpdateError>
    decreases rows.len(),
{
    if rows.len() == 0 {
        Ok(Seq::empty())
    } else {
        match parse_row(rows[0]) {
            Err(e) => Err(e),
            Ok(head) => match parse_rows(rows.drop_first()) {
                Err(e) => Err(e),
                Ok(rest) => Ok(
                    match head {
                        None => rest,
                        Some(m) => seq![m] + rest,
                    },
                ),
            },
        }
    }
}

/// Builds the record list from the parsed rows.
pub fn rows_to_records(rows: &Vec<Vec<String>>) -> (r: Result<Vec<PostalCodeRecord>, UpdateError>)
    ensures
        match r {
            Ok(list) => parse_rows(rows.deep_view()) == Ok::<Seq<RecordModel>, UpdateError>(
                views(list@),
            ),
            Err(e) => parse_rows(rows.deep_view()) == Err::<Seq<RecordModel>, UpdateError>(e),
        },
{
    let ghost dv = rows.deep_view();
    let n = rows.len();
    let mut out: Vec<PostalCodeRecord> = Vec::new();
    let mut i: usize = 0;
    proof {
        assert(dv.skip(0) =~= dv);
    }
    while i < n
        invariant
            i <= n,
            n == rows@.len(),
            dv == rows.deep_view(),
            dv.len() == n,
            parse_rows(dv) == match parse_rows(dv.skip(i as int)) {
                Err(e) => Err::<Seq<RecordModel>, UpdateError>(e),
                Ok(rest) => Ok(views(out@) + rest),
            },
        decreases n - i,
    {
        let ghost pending = dv.skip(i as int);
        let ghost out0 = views(out@);
        let row = &rows[i];
        proof {
            assert(pending[0] == dv[i as int]);
            assert(pending.drop_first() =~= dv.skip(i as int + 1));
            assert(dv[i as int] == rows@[i as int].deep_view());
            assert forall|k: int| 0 <= k < dv[i as int].len() implies #[trigger] dv[i as int][k]
                == rows@[i as int]@[k]@ by {
            }
            assert(dv[i as int].len() == rows@[i as int]@.len());
        }
        if row.len() < 15 {
            proof {
                assert(parse_row(pending[0]) == Ok::<Option<RecordModel>, UpdateError>(None));
            }
            i = i + 1;
            continue ;
        }
        let st = parse_status(row[13].as_str());
        proof {
            assert(row@[13]@ == dv[i as int][13]);
        }
        match st {
            None => {
                proof {
                    assert(parse_row(pending[0]) == Err::<Option<RecordModel>, UpdateError>(
                        UpdateError::Schema,
                    ));
                    assert(parse_rows(pending) == Err::<Seq<RecordModel>, UpdateError>(
                        UpdateError::Schema,
                    ));
                }
                return Err(UpdateError::Schema);
            },
            Some(tag) => {
                let flag9 = crate::text::str_eq(row[9].as_str(), "1");
                let flag10 = crate::text::str_eq(row[10].as_str(), "1");
                let flag11 = crate::text::str_eq(row[11].as_str(), "1");
                let flag12 = crate::text::str_eq(row[12].as_str(), "1");
                let rec = PostalCodeRecord::new(
                    row[0].clone(),
                    row[2].clone(),
                    row[3].clone(),
                    row[4].clone(),
                    row[5].clone(),
                    row[6].clone(),
                    row[7].clone(),
                    row[8].clone(),
                    flag9,
                    flag10,
                    flag11,
                    flag12,
                    tag,
                );
                proof {
                    assert(rec@ == row_model(pending[0], tag));
                    assert(parse_row(pending[0]) == Ok::<Option<RecordModel>, UpdateError>(
                        Some(row_model(pending[0], tag)),
                    ));
                    crate::record::lemma_views_push(out@, rec);
                    if parse_rows(pending.drop_first()) is Ok {
                        let rest = parse_rows(pending.drop_first())->Ok_0;
                        assert(out0.push(rec@) + rest =~= out0 + (seq![rec@] + rest));
                    }
                }
                out.push(rec);
            },
        }
        i = i + 1;
    }
    proof {
        assert(dv.skip(n as int) =~= Seq::<Seq<Seq<char>>>::empty());
        assert(parse_rows(dv.skip(n as int)) == Ok::<Seq<RecordModel>, UpdateError>(Seq::empty()));
        assert(views(out@) + Seq::<RecordModel>::empty() =~= views(out@));
    }
    Ok(out)
}

} // verus!
