//! The structured source record and its mathematical model.

use vstd::prelude::*;
use vstd::string::*;
use vstd::utf8::encode_utf8;

verus! {

/// Change-status tag of a source row.
#[derive(Clone, Copy, Debug, PartialEq, Eq, Structural)]
pub enum Changed {
    NoChange,
    Changed,
    Deleted,
}

/// Mathematical model of one record: the eight text fields as character
/// sequences, the four disambiguation flags, the change tag, and the
/// transient pending-removal marker used during normalization.
pub ghost struct RecordModel {
    pub national_local_government_code: Seq<char>,
    pub postal_code: Seq<char>,
    pub prefecture_kana: Seq<char>,
    pub city_kana: Seq<char>,
    pub town_kana: Seq<char>,
    pub prefecture: Seq<char>,
    pub city: Seq<char>,
    pub town: Seq<char>,
    pub is_town_with_multiple_postal_codes: bool,
    pub is_banchi_per_koaza: bool,
    pub is_town_with_chome: bool,
    pub is_postal_code_with_multiple_towns: bool,
    pub is_change: Changed,
    pub integrated: bool,
}

/// One parsed record of the source table.
#[derive(Debug)]
pub struct PostalCodeRecord {
    pub national_local_government_code: String,
    pub postal_code: String,
    pub prefecture_kana: String,
    pub city_kana: String,
    pub town_kana: String,
    pub prefecture: String,
    pub city: String,
    pub town: String,
    pub is_town_with_multiple_postal_codes: bool,
    pub is_banchi_per_koaza: bool,
    pub is_town_with_chome: bool,
    pub is_postal_code_with_multiple_towns: bool,
    pub is_change: Changed,
    pub integrated: bool,
}

impl View for PostalCodeRecord {
    type V = RecordModel;

    open spec fn view(&self) -> RecordModel {
        RecordModel {
            national_local_government_code: self.national_local_government_code@,
            postal_code: self.postal_code@,
            prefecture_kana: self.prefecture_kana@,
            city_kana: self.city_kana@,
            town_kana: self.town_kana@,
            prefecture: self.prefecture@,
            city: self.city@,
            town: self.town@,
            is_town_with_multiple_postal_codes: self.is_town_with_multiple_postal_codes,
            is_banchi_per_koaza: self.is_banchi_per_koaza,
            is_town_with_chome: self.is_town_with_chome,
            is_postal_code_with_multiple_towns: self.is_postal_code_with_multiple_towns,
            is_change: self.is_change,
            integrated: self.integrated,
        }
    }
}

impl Clone for PostalCodeRecord {
    fn clone(&self) -> (r: Self)
        ensures
            r@ == self@,
    {
        PostalCodeRecord {
            national_local_government_code: self.national_local_government_code.clone(),
            postal_code: self.postal_code.clone(),
            prefecture_kana: self.prefecture_kana.clone(),
            city_kana: self.city_kana.clone(),
            town_kana: self.town_kana.clone(),
            prefecture: self.prefecture.clone(),
            city: self.city.clone(),
            town: self.town.clone(),
            is_town_with_multiple_postal_codes: self.is_town_with_multiple_postal_codes,
            is_banchi_per_koaza: self.is_banchi_per_koaza,
            is_town_with_chome: self.is_town_with_chome,
            is_postal_code_with_multiple_towns: self.is_postal_code_with_multiple_towns,
            is_change: self.is_change,
            integrated: self.integrated,
        }
    }
}

/// The models of a sequence of records.
pub open spec fn views(s: Seq<PostalCodeRecord>) -> Seq<RecordModel> {
    s.map_values(|r: PostalCodeRecord| r@)
}

pub proof fn lemma_views_push(s: Seq<PostalCodeRecord>, x: PostalCodeRecord)
    ensures
        views(s.push(x)) == views(s).push(x@),
{
    assert(views(s.push(x)) =~= views(s).push(x@));
}

/// The byte stream a record contributes to a content hash: the UTF-8 bytes
/// of its eight text fields, in fixed field order.
pub open spec fn record_bytes(m: RecordModel) -> Seq<u8> {
    encode_utf8(m.national_local_government_code) + encode_utf8(m.postal_code) + encode_utf8(
        m.prefecture_kana,
    ) + encode_utf8(m.city_kana) + encode_utf8(m.town_kana) + encode_utf8(m.prefecture)
        + encode_utf8(m.city) + encode_utf8(m.town)
}

/// A boolean written out as text.
pub open spec fn bool_chars(b: bool) -> Seq<char> {
    if b {
        "true"@
    } else {
        "false"@
    }
}

/// A field value in double quotes.
pub open spec fn quoted(s: Seq<char>) -> Seq<char> {
    "\""@ + s + "\""@
}

/// The comma-separated rendering of a record: each of the twelve consumed
/// fields quoted and followed by the separator.
pub open spec fn csv_record_chars(m: RecordModel) -> Seq<char> {
    quoted(m.national_local_government_code) + ","@ + quoted(m.postal_code) + ","@ + quoted(
        m.prefecture_kana,
    ) + ","@ + quoted(m.city_kana) + ","@ + quoted(m.town_kana) + ","@ + quoted(m.prefecture)
        + ","@ + quoted(m.city) + ","@ + quoted(m.town) + ","@ + quoted(
        bool_chars(m.is_town_with_multiple_postal_codes),
    ) + ","@ + quoted(bool_chars(m.is_banchi_per_koaza)) + ","@ + quoted(
        bool_chars(m.is_town_with_chome),
    ) + ","@ + quoted(bool_chars(m.is_postal_code_with_multiple_towns)) + ","@
}

/// Appends one quoted field and the separator.
fn push_quoted(r: &mut String, s: &str)
    ensures
        final(r)@ == old(r)@ + quoted(s@) + ","@,
{
    r.append("\"");
    r.append(s);
    r.append("\"");
    r.append(",");
}

/// Appends one quoted boolean field and the separator.
fn push_quoted_bool(r: &mut String, b: bool)
    ensures
        final(r)@ == old(r)@ + quoted(bool_chars(b)) + ","@,
{
    if b {
        push_quoted(r, "true");
    } else {
        push_quoted(r, "false");
    }
}

/// Appends the UTF-8 bytes of `s` to `acc`.
fn extend_bytes(acc: &mut Vec<u8>, s: &str)
    ensures
        final(acc)@ == old(acc)@ + encode_utf8(s@),
{
    let bytes = s.as_bytes();
    let n = bytes.len();
    let mut i: usize = 0;
    while i < n
        invariant
            n == bytes@.len(),
            i <= n,
            bytes@ == encode_utf8(s@),
            acc@ == old(acc)@ + bytes@.subrange(0, i as int),
        decreases n - i,
    {
        acc.push(bytes[i]);
        assert(bytes@.subrange(0, i as int + 1) =~= bytes@.subrange(0, i as int).push(
            bytes@[i as int],
        ));
        i = i + 1;
    }
    assert(bytes@.subrange(0, n as int) =~= bytes@);
}

impl PostalCodeRecord {
    /// Builds a record straight from its parsed fields; the pending-removal
    /// marker starts cleared.
    pub fn new(
        national_local_government_code: String,
        postal_code: String,
        prefecture_kana: String,
        city_kana: String,
        town_kana: String,
        prefecture: String,
        city: String,
        town: String,
        is_town_with_multiple_postal_codes: bool,
        is_banchi_per_koaza: bool,
        is_town_with_chome: bool,
        is_postal_code_with_multiple_towns: bool,
        is_change: Changed,
    ) -> (r: PostalCodeRecord)
        ensures
            r@ == (RecordModel {
                national_local_government_code: national_local_government_code@,
                postal_code: postal_code@,
                prefecture_kana: prefecture_kana@,
                city_kana: city_kana@,
                town_kana: town_kana@,
                prefecture: prefecture@,
                city: city@,
                town: town@,
                is_town_with_multiple_postal_codes,
                is_banchi_per_koaza,
                is_town_with_chome,
                is_postal_code_with_multiple_towns,
                is_change,
                integrated: false,
            }),
    {
        PostalCodeRecord {
            national_local_government_code,
            postal_code,
            prefecture_kana,
            city_kana,
            town_kana,
            prefecture,
            city,
            town,
            is_town_with_multiple_postal_codes,
            is_banchi_per_koaza,
            is_town_with_chome,
            is_postal_code_with_multiple_towns,
            is_change,
            integrated: false,
        }
    }

    /// Renders the record as one comma-separated line, every field quoted
    /// and followed by the separator, booleans written out.
    pub fn to_csv_record(&self) -> (r: String)
        ensures
            r@ == csv_record_chars(self@),
    {
        let mut r = String::new();
        push_quoted(&mut r, self.national_local_government_code.as_str());
        push_quoted(&mut r, self.postal_code.as_str());
        push_quoted(&mut r, self.prefecture_kana.as_str());
        push_quoted(&mut r, self.city_kana.as_str());
        push_quoted(&mut r, self.town_kana.as_str());
        push_quoted(&mut r, self.prefecture.as_str());
        push_quoted(&mut r, self.city.as_str());
        push_quoted(&mut r, self.town.as_str());
        push_quoted_bool(&mut r, self.is_town_with_multiple_postal_codes);
        push_quoted_bool(&mut r, self.is_banchi_per_koaza);
        push_quoted_bool(&mut r, self.is_town_with_chome);
        push_quoted_bool(&mut r, self.is_postal_code_with_multiple_towns);
        proof {
            assert(r@ =~= csv_record_chars(self@));
        }
        r
    }

    /// Appends this record's hash byte stream to `acc`.
    pub fn hasher_add(&self, acc: &mut Vec<u8>)
        ensures
            final(acc)@ == old(acc)@ + record_bytes(self@),
    {
        extend_bytes(acc, self.national_local_government_code.as_str());
        extend_bytes(acc, self.postal_code.as_str());
        extend_bytes(acc, self.prefecture_kana.as_str());
        extend_bytes(acc, self.city_kana.as_str());
        extend_bytes(acc, self.town_kana.as_str());
        extend_bytes(acc, self.prefecture.as_str());
        extend_bytes(acc, self.city.as_str());
        extend_bytes(acc, self.town.as_str());
        assert(acc@ =~= old(acc)@ + record_bytes(self@));
    }
}

} // verus!
