use mzml::error::{IndexKind, MzMLParseError};
use mzml::extract::{ElementExtractor, ExtractStep};
use mzml::index::{Index, IndexList, LazyMzML, Offset};
use mzml::scan::{BinaryDataArrayList, ScanList, ScanWithData, ScanWithoutData};

fn meta(id: &str) -> ScanWithoutData {
    ScanWithoutData {
        index: 0,
        id: id.to_string(),
        default_array_length: 0,
        cv_param: Vec::new(),
        precursor_list: None,
        scan_list: ScanList { scan: Vec::new() },
    }
}

fn section(name: &str, entries: &[(&str, usize)]) -> Index {
    Index {
        name: name.to_string(),
        offsets: entries.iter().map(|(i, o)| Offset { id_ref: i.to_string(), offset: *o }).collect(),
    }
}

#[test]
fn offsets_from_index_list() {
    let list = IndexList {
        count: 2,
        indexs: vec![
            section("spectrum", &[("s1", 100), ("s2", 2000)]),
            section("chromatogram", &[("TIC", 9000)]),
        ],
    };
    let store = LazyMzML::new(vec![meta("s1"), meta("s2")], Some(list), None).unwrap();
    assert_eq!(store.iter_scan().len(), 2);
    for s in store.iter_scan() {
        assert!(store.locate_scan(&s.id).is_ok());
    }
    assert_eq!(store.scan_offset(&"s2".to_string()), Some(2000));
    assert_eq!(store.chromatogram_offset(&"TIC".to_string()), Some(9000));
    assert_eq!(
        store.locate_scan(&"s9".to_string()),
        Err(MzMLParseError::UnknownIdError("s9".to_string()))
    );
}

#[test]
fn offsets_from_bare_index() {
    let store = LazyMzML::new(vec![meta("a")], None, Some(section("spectrum", &[("a", 5)]))).unwrap();
    assert!(store.has_index());
    assert_eq!(store.locate_scan(&"a".to_string()), Ok(5));
    assert_eq!(store.chromatogram_offset(&"a".to_string()), None);
}

#[test]
fn no_index_gives_empty_tables() {
    let store = LazyMzML::new(vec![meta("a")], None, None).unwrap();
    assert!(!store.has_index());
    assert_eq!(store.scan_offset(&"a".to_string()), None);
}

#[test]
fn missing_spectrum_section_is_refused() {
    let list = IndexList { count: 1, indexs: vec![section("chromatogram", &[("TIC", 1)])] };
    assert_eq!(
        LazyMzML::new(vec![], Some(list), None).unwrap_err(),
        MzMLParseError::IndexMissingError(IndexKind::Spectrum)
    );
}

#[test]
fn duplicate_ids_keep_last_offset() {
    let list = IndexList {
        count: 2,
        indexs: vec![
            section("chromatogram", &[("TIC", 1)]),
            section("spectrum", &[("a", 10), ("b", 20), ("a", 30)]),
            section("spectrum", &[("a", 99)]),
        ],
    };
    let store = LazyMzML::new(vec![meta("a"), meta("b")], Some(list), None).unwrap();
    assert_eq!(store.scan_offset(&"a".to_string()), Some(30));
    assert_eq!(store.scan_offset(&"b".to_string()), Some(20));
}

#[test]
fn accept_scan_checks_id() {
    let s = ScanWithData {
        meta: meta("x"),
        binary_data_array_list: BinaryDataArrayList { count: 0, arrays: Vec::new() },
    };
    assert!(LazyMzML::accept_scan(&"x".to_string(), s.clone()).is_ok());
    assert_eq!(
        LazyMzML::accept_scan(&"y".to_string(), s),
        Err(MzMLParseError::MzMLFormatError("y".to_string()))
    );
}

fn run(chunks: &[&[u8]], ceiling: usize) -> Result<Vec<u8>, MzMLParseError> {
    let mut state = ElementExtractor::for_spectrum(42, ceiling);
    for c in chunks {
        match state.feed(c)? {
            ExtractStep::Complete(f) => return Ok(f),
            ExtractStep::Pending(n) => state = n,
        }
    }
    match state.feed(&[])? {
        ExtractStep::Complete(f) => Ok(f),
        ExtractStep::Pending(_) => panic!("an empty chunk never leaves the search pending"),
    }
}

#[test]
fn closing_tag_split_across_chunks() {
    let text = b"<spectrum id=\"a\"><x/></spectrum><spectrum id=\"b\"></spectrum>";
    let whole = run(&[text], 1000).unwrap();
    assert_eq!(whole, b"<spectrum id=\"a\"><x/></spectrum>".to_vec());
    for cut in 1..text.len() {
        let (a, b) = text.split_at(cut);
        assert_eq!(run(&[a, b], 1000).unwrap(), whole, "cut at {}", cut);
    }
    let pieces: Vec<&[u8]> = text.chunks(3).collect();
    assert_eq!(run(&pieces, 1000).unwrap(), whole);
}

#[test]
fn missing_closing_tag_at_end_of_file() {
    let text: &[u8] = b"<spectrum id=\"a\"><x/></spectr";
    assert_eq!(run(&[text], 1000), Err(MzMLParseError::BoundaryNotFoundError(42)));
    let pieces: Vec<&[u8]> = text.chunks(4).collect();
    assert_eq!(run(&pieces, 1000), Err(MzMLParseError::BoundaryNotFoundError(42)));
}

#[test]
fn ceiling_stops_the_search() {
    let long = vec![b'a'; 64];
    let pieces: Vec<&[u8]> = long.chunks(8).collect();
    assert_eq!(run(&pieces, 20), Err(MzMLParseError::BoundaryNotFoundError(42)));
}

#[test]
fn offsets_compare_by_id() {
    let a = Offset { id_ref: "s1".to_string(), offset: 1 };
    let b = Offset { id_ref: "s1".to_string(), offset: 2 };
    let c = Offset { id_ref: "s2".to_string(), offset: 1 };
    assert!(a == b);
    assert!(a != c);
}

#[test]
fn ceiling_applies_whatever_the_chunks() {
    let text: &[u8] = b"<spectrum id=\"a\">0123456789</spectrum>";
    let short = text.len() - 1;
    assert_eq!(run(&[text], short), Err(MzMLParseError::BoundaryNotFoundError(42)));
    let pieces: Vec<&[u8]> = text.chunks(5).collect();
    assert_eq!(run(&pieces, short), Err(MzMLParseError::BoundaryNotFoundError(42)));
    assert_eq!(run(&[text], text.len()).unwrap(), text.to_vec());
    assert_eq!(run(&pieces, text.len()).unwrap(), text.to_vec());
}
