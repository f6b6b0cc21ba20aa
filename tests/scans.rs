use mzml::mass_spectrum::{ControlledVocabularyParameter, MassScan, TimeUnit};
use mzml::scan::{
    BinaryDataArrayList, IsolationWindow, Scan, ScanList, ScanWithData, ScanWithoutData,
};
use mzml::text::{parse_u16, str_contains};

fn cv(name: &str, value: &str, unit: Option<&str>) -> ControlledVocabularyParameter {
    ControlledVocabularyParameter {
        name: name.to_string(),
        value: value.to_string(),
        unit_name: unit.map(|u| u.to_string()),
    }
}

fn scan(cvs: Vec<ControlledVocabularyParameter>, entry: Vec<ControlledVocabularyParameter>) -> ScanWithoutData {
    ScanWithoutData {
        index: 3,
        id: "controllerType=0 scan=4".to_string(),
        default_array_length: 0,
        cv_param: cvs,
        precursor_list: None,
        scan_list: ScanList { scan: vec![Scan { cv_param: entry }] },
    }
}

fn minutes(s: &dyn MassScan) -> Option<f64> {
    s.rt().map(|t| {
        let v: f64 = t.value.parse().unwrap();
        match t.unit {
            TimeUnit::Second => v / 60.0,
            TimeUnit::Minute => v,
        }
    })
}

#[test]
fn retention_time_in_seconds() {
    let s = scan(vec![], vec![cv("scan start time", "2.5", Some("second"))]);
    let t = s.rt().unwrap();
    assert_eq!(t.value, "2.5");
    assert_eq!(t.unit, TimeUnit::Second);
    assert_eq!(minutes(&s), Some(2.5 / 60.0));
}

#[test]
fn retention_time_without_unit_is_minutes() {
    let s = scan(vec![], vec![cv("filter string", "x", None), cv("scan start time", "5.9", None)]);
    assert_eq!(s.rt().unwrap().unit, TimeUnit::Minute);
    assert_eq!(minutes(&s), Some(5.9));
    let s = scan(vec![], vec![cv("scan start time", "1", Some("hour"))]);
    assert_eq!(s.rt().unwrap().unit, TimeUnit::Minute);
}

#[test]
fn retention_time_absent() {
    let s = scan(vec![cv("scan start time", "1", None)], vec![cv("ms level", "1", None)]);
    assert!(s.rt().is_none());
    let mut s = scan(vec![], vec![]);
    s.scan_list.scan.clear();
    assert!(s.rt().is_none());
}

#[test]
fn ms_level_parsing() {
    assert_eq!(scan(vec![cv("ms level", "2", None)], vec![]).ms_level(), Some(2));
    assert_eq!(scan(vec![cv("ms level", "+3", None)], vec![]).ms_level(), Some(3));
    assert_eq!(scan(vec![cv("ms level", "x", None)], vec![]).ms_level(), None);
    assert_eq!(scan(vec![cv("ms level", "70000", None)], vec![]).ms_level(), None);
    assert_eq!(scan(vec![cv("centroid spectrum", "", None)], vec![]).ms_level(), None);
}

#[test]
fn parse_u16_matches_std() {
    for s in ["0", "65535", "65536", "", "+", "+7", "-1", "007", "1 ", "99999999999"] {
        assert_eq!(parse_u16(s), s.parse::<u16>().ok(), "{}", s);
    }
}

#[test]
fn substring_search() {
    assert!(str_contains("MS:1000511 ms level", "ms level"));
    assert!(str_contains("abc", ""));
    assert!(!str_contains("ms leve", "ms level"));
    assert!(str_contains("µs level ms level", "ms level"));
}

#[test]
fn find_cv_is_exact_and_first() {
    let s = scan(
        vec![cv("ms level", "1", None), cv("ms level", "2", None), cv("ms level x", "3", None)],
        vec![cv("scan start time", "4", None)],
    );
    assert_eq!(s.find_cv("ms level".to_string()).unwrap().value, "1");
    assert!(s.find_cv("ms".to_string()).is_none());
    assert_eq!(s.cvs().len(), 3);
    let e = &s.scan_list.scan[0];
    assert_eq!(e.find_cv("scan start time".to_string()).unwrap().value, "4");
    assert!(e.find_cv("scan start".to_string()).is_none());
}

#[test]
fn scan_with_data_delegates_to_metadata() {
    let meta = scan(vec![cv("ms level", "2", None)], vec![cv("scan start time", "7", Some("minute"))]);
    let s = ScanWithData {
        meta: meta.clone(),
        binary_data_array_list: BinaryDataArrayList { count: 0, arrays: Vec::new() },
    };
    assert_eq!(s.ms_level(), Some(2));
    assert_eq!(s.rt(), meta.rt());
    assert_eq!(s.id(), "controllerType=0 scan=4");
    assert_eq!(s.find_cv("ms level".to_string()).unwrap().value, "2");
}

#[test]
fn isolation_window_default_is_empty() {
    assert!(IsolationWindow::default().cv_param.is_empty());
}
