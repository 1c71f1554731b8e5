//! The search index: one record per picture, holding what pictures are
//! compared by.

use vstd::prelude::*;
use vstd::string::*;
use crate::error::EngineError;
use crate::file_handler::{extract_filename, file_name};
use crate::histogram::{histograms_equal, same_histograms, Histogram};
use crate::picture::PictureU8;
use crate::{get_histogram, is_histograms_of, picture_histograms};

verus! {

/// What the index keeps of one picture.
#[derive(Clone, Debug, PartialEq, Eq)]
pub struct SearchIndex {
    /// Where the picture was read from.  The index is keyed by this path.
    pub filepath: String,
    /// The name of the file, without directories and extension.
    pub filename: String,
    /// The average brightness of the picture, a single-precision number from 0
    /// to 1, held as its IEEE-754 bit pattern.
    pub average_brightness: u32,
    /// One histogram per color channel.
    pub histogram: Vec<Histogram>,
}

/// Two records hold the same data in every field.
pub open spec fn same_record(a: &SearchIndex, b: &SearchIndex) -> bool {
    &&& a.filepath@ == b.filepath@
    &&& a.filename@ == b.filename@
    &&& a.average_brightness == b.average_brightness
    &&& same_histograms(a.histogram@, b.histogram@)
}

/// Some stored record is the same as `record`.
pub open spec fn holds_record(stored: Seq<SearchIndex>, record: &SearchIndex) -> bool {
    exists|i: int| 0 <= i < stored.len() && same_record(#[trigger] &stored[i], record)
}

/// Some stored record was read from `path`.
pub open spec fn holds_path(stored: Seq<SearchIndex>, path: Seq<char>) -> bool {
    exists|i: int| 0 <= i < stored.len() && (#[trigger] stored[i]).filepath@ == path
}

impl SearchIndex {
    /// The record of the picture at `filepath`.  The file name is taken from the
    /// path.
    pub fn new(filepath: String, average_brightness: u32, histogram: Vec<Histogram>) -> (record:
        SearchIndex)
        ensures
            record.filepath@ == filepath@,
            record.filename@ == file_name(filepath@),
            record.average_brightness == average_brightness,
            record.histogram == histogram,
    {
        SearchIndex {
            filepath: filepath.clone(),
            filename: extract_filename(filepath),
            average_brightness,
            histogram,
        }
    }

    /// Whether two records hold the same data in every field.
    pub fn equals(&self, other: &SearchIndex) -> (equal: bool)
        ensures
            equal == same_record(self, other),
    {
        self.filepath == other.filepath && self.filename == other.filename
            && self.average_brightness == other.average_brightness && histograms_equal(
            &self.histogram,
            &other.histogram,
        )
    }
}

/// Whether the stored records hold one that is the same as
/// `search_index_element` in every field.
pub fn search_index_exists(search_index_element: &SearchIndex, stored_data: &Vec<SearchIndex>) -> (found:
    bool)
    ensures
        found == holds_record(stored_data@, search_index_element),
{
    let mut i: usize = 0;
    while i < stored_data.len()
        invariant
            i <= stored_data@.len(),
            forall|k: int| 0 <= k < i ==> !same_record(#[trigger] &stored_data@[k], search_index_element),
        decreases stored_data@.len() - i,
    {
        if stored_data[i].equals(search_index_element) {
            return true;
        }
        i += 1;
    }
    false
}

/// Whether the stored records hold one of the picture at `path`.
pub fn search_index_path_exists(path: &str, stored_data: &Vec<SearchIndex>) -> (found: bool)
    ensures
        found == holds_path(stored_data@, path@),
{
    let wanted = String::from_str(path);
    let mut i: usize = 0;
    while i < stored_data.len()
        invariant
            wanted@ == path@,
            i <= stored_data@.len(),
            forall|k: int| 0 <= k < i ==> (#[trigger] stored_data@[k]).filepath@ != path@,
        decreases stored_data@.len() - i,
    {
        if stored_data[i].filepath == wanted {
            return true;
        }
        i += 1;
    }
    false
}

/// Makes the record of a picture out of its samples and its average
/// brightness: the histograms are built from the samples, the name is taken
/// from the path.
pub fn generate_suchindex(filepath: String, pic: &PictureU8, average_brightness: u32) -> (record:
    Result<SearchIndex, EngineError>)
    ensures
        match record {
            Ok(r) => {
                &&& r.filepath@ == filepath@
                &&& r.filename@ == file_name(filepath@)
                &&& r.average_brightness == average_brightness
                &&& is_histograms_of(pic, Ok(r.histogram))
            },
            Err(e) => picture_histograms(pic) == Err::<Seq<Seq<nat>>, EngineError>(e),
        },
{
    match get_histogram(pic) {
        Ok(histograms) => Ok(SearchIndex::new(filepath, average_brightness, histograms)),
        Err(e) => Err(e),
    }
}

/// Appends a record to the stored records unless they hold the same record
/// already, and tells whether it did.
pub fn add_search_index(stored_data: &mut Vec<SearchIndex>, record: SearchIndex) -> (added: bool)
    ensures
        added == !holds_record(old(stored_data)@, &record),
        final(stored_data)@ == (if added {
            old(stored_data)@.push(record)
        } else {
            old(stored_data)@
        }),
{
    if search_index_exists(&record, stored_data) {
        false
    } else {
        stored_data.push(record);
        true
    }
}

/// Indexes one picture: makes its record and appends it to the stored records
/// unless they hold the same record already.  Tells whether the record was
/// appended.  Where the picture has no histograms nothing is stored.
pub fn generate_suchindex_to_file(
    stored_data: &mut Vec<SearchIndex>,
    filepath: String,
    pic: &PictureU8,
    average_brightness: u32,
) -> (added: Result<bool, EngineError>)
    ensures
        match added {
            Ok(appended) => {
                &&& picture_histograms(pic) is Ok
                &&& appended ==> {
                    &&& final(stored_data)@.len() == old(stored_data)@.len() + 1
                    &&& final(stored_data)@.drop_last() == old(stored_data)@
                    &&& final(stored_data)@.last().filepath@ == filepath@
                    &&& final(stored_data)@.last().filename@ == file_name(filepath@)
                    &&& final(stored_data)@.last().average_brightness == average_brightness
                    &&& is_histograms_of(pic, Ok(final(stored_data)@.last().histogram))
                    &&& !holds_record(old(stored_data)@, &final(stored_data)@.last())
                }
                &&& !appended ==> {
                    &&& final(stored_data)@ == old(stored_data)@
                    &&& exists|i: int|
                        0 <= i < old(stored_data)@.len() && {
                            let kept = #[trigger] old(stored_data)@[i];
                            &&& kept.filepath@ == filepath@
                            &&& kept.filename@ == file_name(filepath@)
                            &&& kept.average_brightness == average_brightness
                            &&& is_histograms_of(pic, Ok(kept.histogram))
                        }
                }
            },
            Err(e) => {
                &&& picture_histograms(pic) == Err::<Seq<Seq<nat>>, EngineError>(e)
                &&& final(stored_data)@ == old(stored_data)@
            },
        },
{
    match generate_suchindex(filepath, pic, average_brightness) {
        Ok(record) => {
            let ghost made = record;
            let appended = add_search_index(stored_data, record);
            proof {
                if appended {
                    assert(stored_data@.drop_last() =~= old(stored_data)@);
                } else {
                    let i = choose|i: int|
                        0 <= i < old(stored_data)@.len() && same_record(
                            #[trigger] &old(stored_data)@[i],
                            &made,
                        );
                    let kept = old(stored_data)@[i];
                    crate::lemma_same_histograms_same_counts(pic, made.histogram, kept.histogram);
                }
            }
            Ok(appended)
        },
        Err(e) => Err(e),
    }
}

} // verus!
