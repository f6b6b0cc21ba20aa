//! Controlled-vocabulary records and the capabilities shared by scans with
//! and without their binary data.

use crate::text::{contains_seq, str_contains};
use vstd::prelude::*;

verus! {

/// A name/value/unit annotation attached to an element.
#[derive(Debug, Clone, PartialEq)]
pub struct ControlledVocabularyParameter {
    pub name: String,
    pub value: String,
    pub unit_name: Option<String>,
}

/// `i` is the first record whose name contains `p`.
pub open spec fn is_first_containing(
    cvs: Seq<ControlledVocabularyParameter>,
    p: Seq<char>,
    i: int,
) -> bool {
    &&& 0 <= i < cvs.len()
    &&& contains_seq(cvs[i].name@, p)
    &&& forall|j: int| 0 <= j < i ==> !contains_seq(#[trigger] cvs[j].name@, p)
}

/// The position of the first record whose name contains `p`.
pub open spec fn first_containing(cvs: Seq<ControlledVocabularyParameter>, p: Seq<char>) -> Option<
    int,
> {
    if exists|i: int| is_first_containing(cvs, p, i) {
        Some(choose|i: int| is_first_containing(cvs, p, i))
    } else {
        None
    }
}

/// `i` is the first record whose name is exactly `name`.
pub open spec fn is_first_named(
    cvs: Seq<ControlledVocabularyParameter>,
    name: Seq<char>,
    i: int,
) -> bool {
    &&& 0 <= i < cvs.len()
    &&& cvs[i].name@ == name
    &&& forall|j: int| 0 <= j < i ==> #[trigger] cvs[j].name@ != name
}

/// The position of the first record whose name is exactly `name`.
pub open spec fn first_named(cvs: Seq<ControlledVocabularyParameter>, name: Seq<char>) -> Option<
    int,
> {
    if exists|i: int| is_first_named(cvs, name, i) {
        Some(choose|i: int| is_first_named(cvs, name, i))
    } else {
        None
    }
}

/// Position of the first record whose name contains `p`.
pub fn position_containing(cvs: &Vec<ControlledVocabularyParameter>, p: &str) -> (r: Option<usize>)
    ensures
        match r {
            Some(i) => first_containing(cvs@, p@) == Some(i as int),
            None => first_containing(cvs@, p@) is None,
        },
{
    let mut i: usize = 0;
    while i < cvs.len()
        invariant
            i <= cvs@.len(),
            forall|j: int| 0 <= j < i ==> !contains_seq(#[trigger] cvs@[j].name@, p@),
        decreases cvs@.len() - i,
    {
        if str_contains(cvs[i].name.as_str(), p) {
            assert(is_first_containing(cvs@, p@, i as int));
            let ghost k = choose|k: int| is_first_containing(cvs@, p@, k);
            assert(k == i) by {
                if k < i {
                } else if k > i {
                    assert(!contains_seq(cvs@[i as int].name@, p@));
                }
            }
            return Some(i);
        }
        i = i + 1;
    }
    None
}

/// Position of the first record whose name is exactly `name`.
pub fn position_named(cvs: &Vec<ControlledVocabularyParameter>, name: &String) -> (r: Option<usize>)
    ensures
        match r {
            Some(i) => first_named(cvs@, name@) == Some(i as int),
            None => first_named(cvs@, name@) is None,
        },
{
    let mut i: usize = 0;
    while i < cvs.len()
        invariant
            i <= cvs@.len(),
            forall|j: int| 0 <= j < i ==> #[trigger] cvs@[j].name@ != name@,
        decreases cvs@.len() - i,
    {
        if cvs[i].name == *name {
            assert(is_first_named(cvs@, name@, i as int));
            let ghost k = choose|k: int| is_first_named(cvs@, name@, k);
            assert(k == i) by {
                if k < i {
                } else if k > i {
                    assert(cvs@[i as int].name@ != name@);
                }
            }
            return Some(i);
        }
        i = i + 1;
    }
    None
}

/// The first record named exactly `name`.
pub fn find_named<'a>(cvs: &'a Vec<ControlledVocabularyParameter>, name: &String) -> (r: Option<
    &'a ControlledVocabularyParameter,
>)
    ensures
        r is Some <==> first_named(cvs@, name@) is Some,
        r is Some ==> *r->0 == cvs@[first_named(cvs@, name@)->0],
{
    match position_named(cvs, name) {
        Some(i) => Some(&cvs[i]),
        None => None,
    }
}

} // verus!

verus! {

/// The unit in which a retention time is written.
#[derive(Debug, Clone, Copy, PartialEq, Eq)]
pub enum TimeUnit {
    Minute,
    Second,
}

/// A retention time as written in a scan: its numeric text and its unit.
#[derive(Debug, Clone, PartialEq)]
pub struct RetentionTime {
    pub value: String,
    pub unit: TimeUnit,
}

/// "second" means seconds; "minute", any other unit and no unit mean minutes.
pub open spec fn unit_of(u: Option<String>) -> TimeUnit {
    match u {
        Some(s) => if s@ == "second"@ {
            TimeUnit::Second
        } else {
            TimeUnit::Minute
        },
        None => TimeUnit::Minute,
    }
}

/// The retention time read from the records of an acquisition entry: the
/// first record whose name contains "scan start time".
pub open spec fn retention_time_spec(cvs: Seq<ControlledVocabularyParameter>) -> Option<(Seq<char>, TimeUnit)> {
    match first_containing(cvs, "scan start time"@) {
        Some(i) => Some((cvs[i].value@, unit_of(cvs[i].unit_name))),
        None => None,
    }
}

/// What every scan offers, whether or not its binary arrays were loaded.
pub trait MassScan {
    /// The scan's metadata.
    spec fn metadata(&self) -> crate::scan::ScanWithoutData;

    /// The retention time of the first acquisition entry; `None` where the
    /// scan has no entry or the entry has no "scan start time" record.
    fn rt(&self) -> (r: Option<RetentionTime>)
        ensures
            match crate::scan::first_entry_cvs(self.metadata()) {
                Some(cvs) => match r {
                    Some(t) => retention_time_spec(cvs) == Some((t.value@, t.unit)),
                    None => retention_time_spec(cvs) is None,
                },
                None => r is None,
            },
    ;

    /// The ms level; `None` where the record is absent or not a number.
    fn ms_level(&self) -> (r: Option<u16>)
        ensures
            r == crate::scan::ms_level_spec(self.metadata()),
    ;

    /// The first of the scan's own records named exactly `name`.
    fn find_cv(&self, name: String) -> (r: Option<&ControlledVocabularyParameter>)
        ensures
            r is Some <==> first_named(self.metadata().cv_param@, name@) is Some,
            r is Some ==> *r->0 == self.metadata().cv_param@[first_named(
                self.metadata().cv_param@,
                name@,
            )->0],
    ;

    /// The scan's own records.
    fn cvs(&self) -> (r: &Vec<ControlledVocabularyParameter>)
        ensures
            r@ == self.metadata().cv_param@,
    ;
}

} // verus!

verus! {

/// What a scan offers once its binary arrays were loaded.
pub trait MassSpectrum {
    /// The scan's binary arrays.
    spec fn binary_arrays(&self) -> Seq<crate::scan::BinaryDataArray>;

    /// The number of peaks that the scan declares.
    spec fn declared_peak_count(&self) -> usize;

    /// The m/z and intensity arrays, decoded; each has the declared number
    /// of values.
    fn peaks(&self) -> (r: Result<crate::scan::Peaks, crate::error::MzMLParseError>)
        ensures
            crate::scan::peaks_match(self.binary_arrays(), self.declared_peak_count(), r),
    ;
}

} // verus!
