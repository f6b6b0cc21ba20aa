//! Scans with and without their binary arrays, and the lookups over their
//! controlled-vocabulary records.

use crate::codec::{base64_decoded, decode_base64, decode_words, decompress_zlib, le_words, zlib_inflated};
use crate::error::{in_array, tag_array, ArrayKind, MzMLParseError};
use crate::mass_spectrum::{
    find_named, first_containing, first_named, position_containing, ControlledVocabularyParameter,
    MassScan, MassSpectrum, RetentionTime, TimeUnit,
};
use crate::text::{contains_seq, parse_u16, parse_u16_spec, str_contains, str_equal};
use vstd::prelude::*;

verus! {

/// One acquisition entry of a scan.
#[derive(Debug, Clone, PartialEq)]
pub struct Scan {
    pub cv_param: Vec<ControlledVocabularyParameter>,
}

impl Scan {
    /// The first record of this entry named exactly `name`.
    pub fn find_cv(&self, name: String) -> (r: Option<&ControlledVocabularyParameter>)
        ensures
            r is Some <==> first_named(self.cv_param@, name@) is Some,
            r is Some ==> *r->0 == self.cv_param@[first_named(self.cv_param@, name@)->0],
    {
        find_named(&self.cv_param, &name)
    }
}

/// The acquisition entries of a scan.
#[derive(Debug, Clone, PartialEq)]
pub struct ScanList {
    pub scan: Vec<Scan>,
}

/// The window around a precursor's m/z that was selected.
#[derive(Debug, Clone, PartialEq)]
pub struct IsolationWindow {
    pub cv_param: Vec<ControlledVocabularyParameter>,
}

impl Default for IsolationWindow {
    fn default() -> (r: Self)
        ensures
            r.cv_param@.len() == 0,
    {
        IsolationWindow { cv_param: Vec::new() }
    }
}

/// An ion selected to produce a scan.
#[derive(Debug, Clone, PartialEq)]
pub struct Precursor {
    pub reference_spectrum: String,
    pub isolation_window: IsolationWindow,
}

/// The precursors of a scan.
#[derive(Debug, Clone, PartialEq)]
pub struct PrecursorList {
    pub precursors: Vec<Precursor>,
}

/// What is known of a scan without touching its binary arrays.
#[derive(Debug, Clone, PartialEq)]
pub struct ScanWithoutData {
    pub index: usize,
    pub id: String,
    pub default_array_length: usize,
    pub cv_param: Vec<ControlledVocabularyParameter>,
    pub precursor_list: Option<PrecursorList>,
    pub scan_list: ScanList,
}

/// The cv records of the first acquisition entry, if there is one.
pub open spec fn first_entry_cvs(m: ScanWithoutData) -> Option<Seq<ControlledVocabularyParameter>> {
    if m.scan_list.scan@.len() > 0 {
        Some(m.scan_list.scan@[0].cv_param@)
    } else {
        None
    }
}

/// The ms level of a scan: the value of its first record whose name
/// contains "ms level", read as an unsigned number.
pub open spec fn ms_level_spec(m: ScanWithoutData) -> Option<u16> {
    match first_containing(m.cv_param@, "ms level"@) {
        Some(i) => parse_u16_spec(m.cv_param@[i].value@),
        None => None,
    }
}

impl MassScan for ScanWithoutData {
    open spec fn metadata(&self) -> ScanWithoutData {
        *self
    }

    fn rt(&self) -> (r: Option<RetentionTime>) {
        if self.scan_list.scan.len() == 0 {
            return None;
        }
        let cvs = &self.scan_list.scan[0].cv_param;
        match position_containing(cvs, "scan start time") {
            Some(i) => {
                let cv = &cvs[i];
                let unit = match &cv.unit_name {
                    Some(u) => {
                        if str_equal(u.as_str(), "second") {
                            TimeUnit::Second
                        } else {
                            TimeUnit::Minute
                        }
                    },
                    None => TimeUnit::Minute,
                };
                Some(RetentionTime { value: cv.value.clone(), unit })
            },
            None => None,
        }
    }

    fn ms_level(&self) -> (r: Option<u16>) {
        match position_containing(&self.cv_param, "ms level") {
            Some(i) => parse_u16(self.cv_param[i].value.as_str()),
            None => None,
        }
    }

    fn find_cv(&self, name: String) -> (r: Option<&ControlledVocabularyParameter>) {
        find_named(&self.cv_param, &name)
    }

    fn cvs(&self) -> (r: &Vec<ControlledVocabularyParameter>) {
        &self.cv_param
    }
}

} // verus!

verus! {

/// One encoded binary array of a scan.
#[derive(Debug, Clone, PartialEq)]
pub struct BinaryDataArray {
    pub encoded_length: usize,
    pub cv_param: Vec<ControlledVocabularyParameter>,
    pub binary: String,
}

/// Whether some record of the array has a name containing "zlib".
pub open spec fn zlib_flag_of(cvs: Seq<ControlledVocabularyParameter>) -> bool {
    exists|i: int| 0 <= i < cvs.len() && contains_seq(#[trigger] cvs[i].name@, "zlib"@)
}

/// The float width that the records declare: the last record whose name
/// contains "32-bit float" or "64-bit float" decides (64 where one name has
/// both); 64 where none does.
pub open spec fn float_size_of(cvs: Seq<ControlledVocabularyParameter>) -> u8
    decreases cvs.len(),
{
    if cvs.len() == 0 {
        64
    } else if contains_seq(cvs.last().name@, "64-bit float"@) {
        64
    } else if contains_seq(cvs.last().name@, "32-bit float"@) {
        32
    } else {
        float_size_of(cvs.drop_last())
    }
}

/// A decoded array: the float width in bits, and each value's raw
/// little-endian bits (a 32-bit value in the low half).
#[derive(Debug, Clone, PartialEq)]
pub struct DecodedArray {
    pub precision: u8,
    pub values: Vec<u64>,
}

impl DecodedArray {
    pub open spec fn words(&self) -> Seq<nat> {
        self.values@.map_values(|v: u64| v as nat)
    }
}

/// What an array decodes to: its float width and its words, or the error.
pub open spec fn decoded_spec(a: BinaryDataArray) -> Result<(u8, Seq<nat>), MzMLParseError> {
    match base64_decoded(a.binary@) {
        None => Err(MzMLParseError::Base64DecodeError(None)),
        Some(raw) => {
            let bytes = if zlib_flag_of(a.cv_param@) {
                zlib_inflated(raw)
            } else {
                Some(raw)
            };
            match bytes {
                None => Err(MzMLParseError::ZlibDecodeError(None)),
                Some(b) => {
                    let w = float_size_of(a.cv_param@);
                    if w == 32 || w == 64 {
                        Ok((w, le_words(b, (w / 8) as nat)))
                    } else {
                        Err(MzMLParseError::UnsupportedPrecisionError(w, None))
                    }
                },
            }
        },
    }
}

impl BinaryDataArray {
    /// Whether the array is zlib-compressed, and its float width in bits.
    pub fn find_zlib_and_float_size(&self) -> (r: (bool, u8))
        ensures
            r.0 == zlib_flag_of(self.cv_param@),
            r.1 == float_size_of(self.cv_param@),
    {
        let mut zlib = false;
        let mut float_size: u8 = 64;
        let mut i: usize = 0;
        while i < self.cv_param.len()
            invariant
                i <= self.cv_param@.len(),
                zlib == zlib_flag_of(self.cv_param@.subrange(0, i as int)),
                float_size == float_size_of(self.cv_param@.subrange(0, i as int)),
            decreases self.cv_param@.len() - i,
        {
            let ghost pre = self.cv_param@.subrange(0, i as int);
            let ghost nxt = self.cv_param@.subrange(0, i + 1);
            assert(nxt.drop_last() =~= pre);
            let name = self.cv_param[i].name.as_str();
            if str_contains(name, "32-bit float") {
                float_size = 32;
            }
            if str_contains(name, "64-bit float") {
                float_size = 64;
            }
            if str_contains(name, "zlib") {
                zlib = true;
                assert(contains_seq(nxt[i as int].name@, "zlib"@));
            } else {
                assert(zlib_flag_of(nxt) == zlib_flag_of(pre)) by {
                    if zlib_flag_of(nxt) {
                        let k = choose|k: int| 0 <= k < nxt.len() && contains_seq(#[trigger] nxt[k].name@, "zlib"@);
                        assert(k < i);
                        assert(pre[k] == nxt[k]);
                    }
                    if zlib_flag_of(pre) {
                        let k = choose|k: int| 0 <= k < pre.len() && contains_seq(#[trigger] pre[k].name@, "zlib"@);
                        assert(pre[k] == nxt[k]);
                    }
                }
            }
            i = i + 1;
        }
        assert(self.cv_param@.subrange(0, i as int) =~= self.cv_param@);
        (zlib, float_size)
    }

    /// The array's values: base64-decoded, inflated where the records say
    /// zlib, and cut into little-endian words of the declared width.
    pub fn decode(&self) -> (r: Result<DecodedArray, MzMLParseError>)
        ensures
            match r {
                Ok(d) => decoded_spec(*self) == Ok::<(u8, Seq<nat>), MzMLParseError>((d.precision, d.words())),
                Err(e) => decoded_spec(*self) == Err::<(u8, Seq<nat>), MzMLParseError>(e),
            },
    {
        let raw = match decode_base64(self.binary.as_str()) {
            Some(b) => b,
            None => return Err(MzMLParseError::Base64DecodeError(None)),
        };
        let (zlib, float_size) = self.find_zlib_and_float_size();
        let bytes = if zlib {
            match decompress_zlib(&raw) {
                Some(b) => b,
                None => return Err(MzMLParseError::ZlibDecodeError(None)),
            }
        } else {
            raw
        };
        let width: usize = if float_size == 64 {
            8
        } else if float_size == 32 {
            4
        } else {
            return Err(MzMLParseError::UnsupportedPrecisionError(float_size, None));
        };
        let values = decode_words(&bytes, width);
        let d = DecodedArray { precision: float_size, values };
        assert(d.words() =~= le_words(bytes@, width as nat));
        Ok(d)
    }
}

/// `i` is the first array with a record whose name contains `p`.
pub open spec fn is_first_tagged(arrays: Seq<BinaryDataArray>, p: Seq<char>, i: int) -> bool {
    &&& 0 <= i < arrays.len()
    &&& first_containing(arrays[i].cv_param@, p) is Some
    &&& forall|j: int| 0 <= j < i ==> (#[trigger] first_containing(arrays[j].cv_param@, p)) is None
}

/// The position of the first array with a record whose name contains `p`.
pub open spec fn first_tagged(arrays: Seq<BinaryDataArray>, p: Seq<char>) -> Option<int> {
    if exists|i: int| is_first_tagged(arrays, p, i) {
        Some(choose|i: int| is_first_tagged(arrays, p, i))
    } else {
        None
    }
}

/// The binary arrays of a scan.
#[derive(Debug, Clone, PartialEq)]
pub struct BinaryDataArrayList {
    pub count: u16,
    pub arrays: Vec<BinaryDataArray>,
}

impl BinaryDataArrayList {
    /// The first array that has a record whose name contains `cv_name`.
    pub fn find_binary_by_cv_name(&self, cv_name: &str) -> (r: Option<&BinaryDataArray>)
        ensures
            r is Some <==> first_tagged(self.arrays@, cv_name@) is Some,
            r is Some ==> *r->0 == self.arrays@[first_tagged(self.arrays@, cv_name@)->0],
    {
        let mut i: usize = 0;
        while i < self.arrays.len()
            invariant
                i <= self.arrays@.len(),
                forall|j: int| 0 <= j < i ==> (#[trigger] first_containing(self.arrays@[j].cv_param@, cv_name@)) is None,
            decreases self.arrays@.len() - i,
        {
            if position_containing(&self.arrays[i].cv_param, cv_name).is_some() {
                assert(is_first_tagged(self.arrays@, cv_name@, i as int));
                let ghost k = choose|k: int| is_first_tagged(self.arrays@, cv_name@, k);
                assert(k == i) by {
                    if k > i {
                        assert(first_containing(self.arrays@[i as int].cv_param@, cv_name@) is None);
                    }
                }
                return Some(&self.arrays[i]);
            }
            i = i + 1;
        }
        None
    }
}

/// A scan's peaks: its m/z and intensity arrays, of one length.
#[derive(Debug, Clone, PartialEq)]
pub struct Peaks {
    pub mz: DecodedArray,
    pub intensity: DecodedArray,
}

/// What `peaks` returns for these arrays and this declared peak count: the
/// first array tagged "m/z array" and the first tagged "intensity array",
/// decoded in that order; both must have the declared number of values.
pub open spec fn peaks_match(arrays: Seq<BinaryDataArray>, declared: usize, r: Result<Peaks, MzMLParseError>) -> bool {
    match first_tagged(arrays, "m/z array"@) {
        None => r == Err::<Peaks, MzMLParseError>(MzMLParseError::MissingArrayError(ArrayKind::Mz)),
        Some(i) => match first_tagged(arrays, "intensity array"@) {
            None => r == Err::<Peaks, MzMLParseError>(MzMLParseError::MissingArrayError(ArrayKind::Intensity)),
            Some(j) => match decoded_spec(arrays[i]) {
                Err(e) => r == Err::<Peaks, MzMLParseError>(in_array(e, ArrayKind::Mz)),
                Ok(m) => match decoded_spec(arrays[j]) {
                    Err(e) => r == Err::<Peaks, MzMLParseError>(in_array(e, ArrayKind::Intensity)),
                    Ok(t) => if m.1.len() != t.1.len() {
                        r == Err::<Peaks, MzMLParseError>(
                            MzMLParseError::ArrayLengthMismatchError(m.1.len() as usize, t.1.len() as usize),
                        )
                    } else if m.1.len() != declared {
                        r == Err::<Peaks, MzMLParseError>(
                            MzMLParseError::ArrayLengthMismatchError(m.1.len() as usize, declared),
                        )
                    } else {
                        r matches Ok(p) && m == (p.mz.precision, p.mz.words()) && t == (
                            p.intensity.precision,
                            p.intensity.words(),
                        )
                    },
                },
            },
        },
    }
}

/// A scan together with its binary arrays.
#[derive(Debug, Clone, PartialEq)]
pub struct ScanWithData {
    pub meta: ScanWithoutData,
    pub binary_data_array_list: BinaryDataArrayList,
}

impl ScanWithData {
    /// The id of the scan.
    pub fn id(&self) -> (r: &String)
        ensures
            r@ == self.meta.id@,
    {
        &self.meta.id
    }
}

impl MassScan for ScanWithData {
    open spec fn metadata(&self) -> ScanWithoutData {
        self.meta
    }

    fn rt(&self) -> (r: Option<RetentionTime>) {
        self.meta.rt()
    }

    fn ms_level(&self) -> (r: Option<u16>) {
        self.meta.ms_level()
    }

    fn find_cv(&self, name: String) -> (r: Option<&ControlledVocabularyParameter>) {
        self.meta.find_cv(name)
    }

    fn cvs(&self) -> (r: &Vec<ControlledVocabularyParameter>) {
        self.meta.cvs()
    }
}

impl MassSpectrum for ScanWithData {
    open spec fn binary_arrays(&self) -> Seq<BinaryDataArray> {
        self.binary_data_array_list.arrays@
    }

    open spec fn declared_peak_count(&self) -> usize {
        self.meta.default_array_length
    }

    fn peaks(&self) -> (r: Result<Peaks, MzMLParseError>) {
        let mz_array = match self.binary_data_array_list.find_binary_by_cv_name("m/z array") {
            Some(a) => a,
            None => return Err(MzMLParseError::MissingArrayError(ArrayKind::Mz)),
        };
        let intensity_array = match self.binary_data_array_list.find_binary_by_cv_name(
            "intensity array",
        ) {
            Some(a) => a,
            None => return Err(MzMLParseError::MissingArrayError(ArrayKind::Intensity)),
        };
        let mz = match mz_array.decode() {
            Ok(d) => d,
            Err(e) => return Err(tag_array(e, ArrayKind::Mz)),
        };
        let intensity = match intensity_array.decode() {
            Ok(d) => d,
            Err(e) => return Err(tag_array(e, ArrayKind::Intensity)),
        };
        if mz.values.len() != intensity.values.len() {
            return Err(MzMLParseError::ArrayLengthMismatchError(mz.values.len(), intensity.values.len()));
        }
        if mz.values.len() != self.meta.default_array_length {
            return Err(
                MzMLParseError::ArrayLengthMismatchError(mz.values.len(), self.meta.default_array_length),
            );
        }
        Ok(Peaks { mz, intensity })
    }
}

} // verus!
