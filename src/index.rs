//! Offset tables built from a file's index sections, and the store that
//! holds them beside the scans' metadata.

use crate::error::{IndexKind, MzMLParseError};
use crate::scan::{ScanWithData, ScanWithoutData};
use crate::text::str_equal;
use vstd::prelude::*;

verus! {

/// Where the element with id `id_ref` starts, in bytes from the file's start.
/// Two offsets are equal where their ids are.
#[derive(Debug, Clone)]
pub struct Offset {
    pub id_ref: String,
    pub offset: usize,
}

impl PartialEq for Offset {
    fn eq(&self, other: &Offset) -> (r: bool) {
        self.id_ref == other.id_ref
    }
}

impl vstd::std_specs::cmp::PartialEqSpecImpl for Offset {
    open spec fn obeys_eq_spec() -> bool {
        true
    }

    open spec fn eq_spec(&self, other: &Offset) -> bool {
        self.id_ref@ == other.id_ref@
    }
}

impl Eq for Offset {}

/// One index section: a category ("spectrum" or "chromatogram") and its
/// offsets, in file order.
#[derive(Debug, Clone)]
pub struct Index {
    pub name: String,
    pub offsets: Vec<Offset>,
}

/// The index sections of a file.
#[derive(Debug, Clone)]
pub struct IndexList {
    pub count: u32,
    pub indexs: Vec<Index>,
}

/// The map from id to offset that a sequence of offsets describes; where an
/// id occurs more than once, the last occurrence wins.
pub open spec fn table_of(s: Seq<Offset>) -> Map<Seq<char>, usize>
    decreases s.len(),
{
    if s.len() == 0 {
        Map::empty()
    } else {
        table_of(s.drop_last()).insert(s.last().id_ref@, s.last().offset)
    }
}

/// The ids of a sequence of offsets are pairwise distinct.
pub open spec fn distinct_ids(s: Seq<Offset>) -> bool {
    forall|a: int, b: int| 0 <= a < b < s.len() ==> #[trigger] s[a].id_ref@ != #[trigger] s[b].id_ref@
}

/// The table holds exactly the ids of the sequence, and finitely many.
pub proof fn lemma_table_domain(s: Seq<Offset>)
    ensures
        table_of(s).dom().finite(),
        forall|k: Seq<char>| #[trigger] table_of(s).contains_key(k) <==> exists|j: int| 0 <= j < s.len() && s[j].id_ref@ == k,
    decreases s.len(),
{
    if s.len() > 0 {
        let p = s.drop_last();
        lemma_table_domain(p);
        assert forall|k: Seq<char>| #[trigger] table_of(s).contains_key(k) <==> exists|j: int| 0 <= j < s.len() && s[j].id_ref@ == k by {
            if table_of(s).contains_key(k) && k != s.last().id_ref@ {
                let j = choose|j: int| 0 <= j < p.len() && p[j].id_ref@ == k;
                assert(s[j] == p[j]);
            }
            if exists|j: int| 0 <= j < s.len() && s[j].id_ref@ == k {
                let j = choose|j: int| 0 <= j < s.len() && s[j].id_ref@ == k;
                if j < s.len() - 1 {
                    assert(s[j] == p[j]);
                }
            }
        }
    }
}

/// The offset recorded for an id is that of its last occurrence.
pub proof fn lemma_table_last_wins(s: Seq<Offset>, k: int)
    requires
        0 <= k < s.len(),
        forall|j: int| k < j < s.len() ==> #[trigger] s[j].id_ref@ != s[k].id_ref@,
    ensures
        table_of(s).contains_key(s[k].id_ref@),
        table_of(s)[s[k].id_ref@] == s[k].offset,
    decreases s.len(),
{
    if k < s.len() - 1 {
        let p = s.drop_last();
        assert(p[k] == s[k]);
        assert forall|j: int| k < j < p.len() implies #[trigger] p[j].id_ref@ != p[k].id_ref@ by {
            assert(p[j] == s[j]);
        }
        lemma_table_last_wins(p, k);
    }
}

/// Distinct ids give a table with one entry per offset.
pub proof fn lemma_table_size(s: Seq<Offset>)
    requires
        distinct_ids(s),
    ensures
        table_of(s).dom().len() == s.len(),
    decreases s.len(),
{
    if s.len() > 0 {
        let p = s.drop_last();
        assert(distinct_ids(p)) by {
            assert forall|a: int, b: int| 0 <= a < b < p.len() implies #[trigger] p[a].id_ref@ != #[trigger] p[b].id_ref@ by {
                assert(p[a] == s[a] && p[b] == s[b]);
            }
        }
        lemma_table_size(p);
        lemma_table_domain(p);
        assert(!table_of(p).contains_key(s.last().id_ref@)) by {
            if table_of(p).contains_key(s.last().id_ref@) {
                let j = choose|j: int| 0 <= j < p.len() && p[j].id_ref@ == s.last().id_ref@;
                assert(p[j] == s[j]);
                assert(s[j].id_ref@ != s[s.len() - 1].id_ref@);
            }
        }
    }
}

/// The offset recorded for `id`: that of the last entry with this id.
pub fn lookup_offset(entries: &Vec<Offset>, id: &String) -> (r: Option<usize>)
    ensures
        match r {
            Some(o) => table_of(entries@).contains_key(id@) && table_of(entries@)[id@] == o,
            None => !table_of(entries@).contains_key(id@),
        },
{
    let mut i: usize = entries.len();
    while i > 0
        invariant
            i <= entries@.len(),
            forall|j: int| i <= j < entries@.len() ==> #[trigger] entries@[j].id_ref@ != id@,
        decreases i,
    {
        if entries[i - 1].id_ref == *id {
            proof {
                lemma_table_last_wins(entries@, i - 1);
            }
            return Some(entries[i - 1].offset);
        }
        i = i - 1;
    }
    proof {
        lemma_table_domain(entries@);
    }
    None
}

/// A spectrum section whose ids are distinct, one per scan, and cover every
/// scan gives a table with as many entries as there are scans, and an entry
/// for the id of each scan.
pub proof fn lemma_spectrum_table_covers_scans(secs: Seq<Index>, spectra: Seq<ScanWithoutData>)
    requires
        first_section(secs, "spectrum"@) is Some,
        distinct_ids(secs[first_section(secs, "spectrum"@)->0].offsets@),
        secs[first_section(secs, "spectrum"@)->0].offsets@.len() == spectra.len(),
        forall|k: int|
            0 <= k < spectra.len() ==> exists|j: int|
                0 <= j < secs[first_section(secs, "spectrum"@)->0].offsets@.len()
                    && secs[first_section(secs, "spectrum"@)->0].offsets@[j].id_ref@ == (
                #[trigger] spectra[k]).id@,
    ensures
        section_table(secs, "spectrum"@).dom().len() == spectra.len(),
        forall|k: int|
            0 <= k < spectra.len() ==> section_table(secs, "spectrum"@).contains_key(
                (#[trigger] spectra[k]).id@,
            ),
{
    let s = secs[first_section(secs, "spectrum"@)->0].offsets@;
    lemma_table_size(s);
    lemma_table_domain(s);
    assert forall|k: int| 0 <= k < spectra.len() implies table_of(s).contains_key((#[trigger] spectra[k]).id@) by {
        let j = choose|j: int| 0 <= j < s.len() && s[j].id_ref@ == spectra[k].id@;
        assert(exists|j: int| 0 <= j < s.len() && s[j].id_ref@ == spectra[k].id@);
    }
}

/// The index sections of a file: its list of sections, else its single bare
/// section, else none.
pub open spec fn sections_of(index_list: Option<IndexList>, index: Option<Index>) -> Seq<Index> {
    match index_list {
        Some(l) => l.indexs@,
        None => match index {
            Some(i) => seq![i],
            None => Seq::empty(),
        },
    }
}

/// `i` is the first section named `name`.
pub open spec fn is_first_section(secs: Seq<Index>, name: Seq<char>, i: int) -> bool {
    &&& 0 <= i < secs.len()
    &&& secs[i].name@ == name
    &&& forall|j: int| 0 <= j < i ==> #[trigger] secs[j].name@ != name
}

/// The position of the first section named `name`.
pub open spec fn first_section(secs: Seq<Index>, name: Seq<char>) -> Option<int> {
    if exists|i: int| is_first_section(secs, name, i) {
        Some(choose|i: int| is_first_section(secs, name, i))
    } else {
        None
    }
}

/// The offsets of the first section named `name`; none where no section is.
pub open spec fn section_table(secs: Seq<Index>, name: Seq<char>) -> Map<Seq<char>, usize> {
    match first_section(secs, name) {
        Some(i) => table_of(secs[i].offsets@),
        None => Map::empty(),
    }
}

fn position_of_section(secs: &Vec<Index>, name: &str) -> (r: Option<usize>)
    ensures
        match r {
            Some(i) => first_section(secs@, name@) == Some(i as int),
            None => first_section(secs@, name@) is None,
        },
{
    let mut i: usize = 0;
    while i < secs.len()
        invariant
            i <= secs@.len(),
            forall|j: int| 0 <= j < i ==> #[trigger] secs@[j].name@ != name@,
        decreases secs@.len() - i,
    {
        if str_equal(secs[i].name.as_str(), name) {
            assert(is_first_section(secs@, name@, i as int));
            let ghost k = choose|k: int| is_first_section(secs@, name@, k);
            assert(k == i) by {
                if k > i {
                    assert(secs@[i as int].name@ != name@);
                }
            }
            return Some(i);
        }
        i = i + 1;
    }
    None
}

/// A file's scans and offset tables, ready for access by id. The tables are
/// fixed once built.
#[derive(Debug)]
pub struct LazyMzML {
    indexed: bool,
    spectra: Vec<ScanWithoutData>,
    scan_offsets: Vec<Offset>,
    chromatogram_offsets: Vec<Offset>,
}

impl LazyMzML {
    /// The scans' metadata, in file order.
    pub closed spec fn scans(&self) -> Seq<ScanWithoutData> {
        self.spectra@
    }

    /// Whether the file had any index section. Where it had none, the tables
    /// are empty and scans cannot be reached by offset.
    pub closed spec fn indexed(&self) -> bool {
        self.indexed
    }

    /// The offset of each scan, by id.
    pub closed spec fn scan_table(&self) -> Map<Seq<char>, usize> {
        table_of(self.scan_offsets@)
    }

    /// The offset of each chromatogram, by id.
    pub closed spec fn chromatogram_table(&self) -> Map<Seq<char>, usize> {
        table_of(self.chromatogram_offsets@)
    }

    /// Builds the store from a file's scans and index sections. A file with
    /// no section at all has empty tables. A file with sections but none
    /// named "spectrum" is refused. A missing "chromatogram" section gives
    /// an empty chromatogram table. Where an id occurs twice in a section,
    /// its last offset is kept.
    pub fn new(spectra: Vec<ScanWithoutData>, index_list: Option<IndexList>, index: Option<Index>) -> (r: Result<Self, MzMLParseError>)
        ensures
            ({
                let secs = sections_of(index_list, index);
                if secs.len() > 0 && first_section(secs, "spectrum"@) is None {
                    r == Err::<Self, MzMLParseError>(MzMLParseError::IndexMissingError(IndexKind::Spectrum))
                } else {
                    r matches Ok(s) && s.scans() == spectra@ && s.indexed() == (secs.len() > 0)
                        && s.scan_table() == section_table(secs, "spectrum"@)
                        && s.chromatogram_table() == section_table(secs, "chromatogram"@)
                }
            }),
    {
        let ghost secs0 = sections_of(index_list, index);
        let mut secs: Vec<Index> = match index_list {
            Some(l) => l.indexs,
            None => match index {
                Some(i) => vec![i],
                None => Vec::new(),
            },
        };
        assert(secs@ =~= secs0);
        if secs.len() == 0 {
            let s = LazyMzML { indexed: false, spectra, scan_offsets: Vec::new(), chromatogram_offsets: Vec::new() };
            assert(s.scan_table() =~= section_table(secs0, "spectrum"@));
            assert(s.chromatogram_table() =~= section_table(secs0, "chromatogram"@));
            return Ok(s);
        }
        let si = match position_of_section(&secs, "spectrum") {
            Some(i) => i,
            None => return Err(MzMLParseError::IndexMissingError(IndexKind::Spectrum)),
        };
        let ci = position_of_section(&secs, "chromatogram");
        let (spectrum, chromatogram) = match ci {
            Some(c) => {
                if c > si {
                    let ch = secs.remove(c);
                    let sp = secs.remove(si);
                    (sp, ch.offsets)
                } else {
                    proof {
                        if c == si {
                            reveal_strlit("spectrum");
                            reveal_strlit("chromatogram");
                            assert("spectrum"@[0] != "chromatogram"@[0]);
                        }
                    }
                    let sp = secs.remove(si);
                    let ch = secs.remove(c);
                    (sp, ch.offsets)
                }
            },
            None => (secs.remove(si), Vec::new()),
        };
        let s = LazyMzML { indexed: true, spectra, scan_offsets: spectrum.offsets, chromatogram_offsets: chromatogram };
        assert(s.chromatogram_table() =~= section_table(secs0, "chromatogram"@));
        Ok(s)
    }

    /// Whether the file had an index; without one, no scan can be fetched
    /// by offset and the caller must parse the whole document instead.
    pub fn has_index(&self) -> (r: bool)
        ensures
            r == self.indexed(),
    {
        self.indexed
    }

    /// The scans' metadata, in file order; reading it takes no I/O.
    pub fn iter_scan(&self) -> (r: &Vec<ScanWithoutData>)
        ensures
            r@ == self.scans(),
    {
        &self.spectra
    }

    /// The offset of the scan with this id, if the index records one.
    pub fn scan_offset(&self, id: &String) -> (r: Option<usize>)
        ensures
            match r {
                Some(o) => self.scan_table().contains_key(id@) && self.scan_table()[id@] == o,
                None => !self.scan_table().contains_key(id@),
            },
    {
        lookup_offset(&self.scan_offsets, id)
    }

    /// The offset of the chromatogram with this id, if the index records one.
    pub fn chromatogram_offset(&self, id: &String) -> (r: Option<usize>)
        ensures
            match r {
                Some(o) => self.chromatogram_table().contains_key(id@) && self.chromatogram_table()[id@] == o,
                None => !self.chromatogram_table().contains_key(id@),
            },
    {
        lookup_offset(&self.chromatogram_offsets, id)
    }

    /// Accepts the scan parsed from the text found at the offset of `id`
    /// only where it carries that id; a different id means the index does
    /// not match the document.
    pub fn accept_scan(id: &String, scan: ScanWithData) -> (r: Result<ScanWithData, MzMLParseError>)
        ensures
            scan.meta.id@ == id@ ==> r == Ok::<ScanWithData, MzMLParseError>(scan),
            scan.meta.id@ != id@ ==> (r matches Err(MzMLParseError::MzMLFormatError(s)) && s@ == id@),
    {
        if scan.meta.id == *id {
            Ok(scan)
        } else {
            Err(MzMLParseError::MzMLFormatError(id.clone()))
        }
    }

    /// Where the scan with this id starts; `UnknownIdError` where the index
    /// has no offset for it.
    pub fn locate_scan(&self, id: &String) -> (r: Result<usize, MzMLParseError>)
        ensures
            match r {
                Ok(o) => self.scan_table().contains_key(id@) && self.scan_table()[id@] == o,
                Err(e) => !self.scan_table().contains_key(id@) && (e matches MzMLParseError::UnknownIdError(s) && s@ == id@),
            },
    {
        match self.scan_offset(id) {
            Some(o) => Ok(o),
            None => Err(MzMLParseError::UnknownIdError(id.clone())),
        }
    }
}

} // verus!
