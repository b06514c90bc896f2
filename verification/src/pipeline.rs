//! The ingestion pipeline: archive bytes in, grouped records and content
//! hashes out.

use vstd::prelude::*;

use crate::archive::{archive_contents, zip_to_file_contents};
use crate::hash::{build_hash_index, dataset_hash, hash_index_spec, pairs_views};
use crate::normalize::{normalize_records, record_normalize};
use crate::parse::{csv_rows, parse_csv_rows, parse_rows, rows_to_records};
use crate::record::{views, PostalCodeRecord, RecordModel};
use crate::sort::{group_by_admin_code, group_spec, group_views, sort_records, sort_spec};
use crate::UpdateError;

verus! {

/// Everything one run derives from the source table: the grouped, sorted
/// records, the per-group hash index and the whole-dataset hash.
pub struct KenAllData {
    pub all_contents_hash: String,
    pub grouped_postal_code_record_list: Vec<(String, Vec<PostalCodeRecord>)>,
    pub national_local_government_code_to_hash: Vec<(String, String)>,
}

/// Mathematical model of `KenAllData`.
pub ghost struct KenAllModel {
    pub all_contents_hash: Seq<char>,
    pub groups: Seq<(Seq<char>, Seq<RecordModel>)>,
    pub hashes: Seq<(Seq<char>, Seq<char>)>,
}

impl View for KenAllData {
    type V = KenAllModel;

    open spec fn view(&self) -> KenAllModel {
        KenAllModel {
            all_contents_hash: self.all_contents_hash@,
            groups: group_views(self.grouped_postal_code_record_list@),
            hashes: pairs_views(self.national_local_government_code_to_hash@),
        }
    }
}

/// The dataset derived from a parsed record list: normalize, sort, group,
/// then hash each group and the whole.
pub open spec fn ken_all_model(recs: Seq<RecordModel>) -> KenAllModel {
    let groups = group_spec(sort_spec(normalize_records(recs)));
    KenAllModel {
        all_contents_hash: dataset_hash(groups),
        groups: groups,
        hashes: hash_index_spec(groups),
    }
}

/// The dataset an archive yields: its single entry decoded, read as a
/// table, parsed, and processed as `ken_all_model` says.
pub open spec fn ken_all_spec(bytes: Seq<u8>) -> Result<KenAllModel, UpdateError> {
    match archive_contents(bytes) {
        Err(e) => Err(e),
        Ok(text) => match parse_rows(csv_rows(text)) {
            Err(e) => Err(e),
            Ok(recs) => Ok(ken_all_model(recs)),
        },
    }
}

/// Runs the ingestion pipeline on the downloaded archive bytes.
pub fn ken_all_records(zip_bytes: &[u8]) -> (r: Result<KenAllData, UpdateError>)
    ensures
        match r {
            Ok(d) => ken_all_spec(zip_bytes@) == Ok::<KenAllModel, UpdateError>(d@),
            Err(e) => ken_all_spec(zip_bytes@) == Err::<KenAllModel, UpdateError>(e),
        },
{
    let contents = match zip_to_file_contents(zip_bytes) {
        Ok(c) => c,
        Err(e) => {
            return Err(e);
        },
    };
    let rows = parse_csv_rows(contents.as_str());
    let mut records = match rows_to_records(&rows) {
        Ok(l) => l,
        Err(e) => {
            return Err(e);
        },
    };
    record_normalize(&mut records);
    let sorted = sort_records(&records);
    let groups = group_by_admin_code(&sorted);
    let (index, all_hash) = build_hash_index(&groups);
    Ok(
        KenAllData {
            all_contents_hash: all_hash,
            grouped_postal_code_record_list: groups,
            national_local_government_code_to_hash: index,
        },
    )
}

} // verus!
