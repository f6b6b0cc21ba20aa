use base64::Engine;
use mzml::error::{ArrayKind, MzMLParseError};
use mzml::mass_spectrum::{ControlledVocabularyParameter, MassSpectrum};
use mzml::scan::{
    BinaryDataArray, BinaryDataArrayList, DecodedArray, ScanList, ScanWithData, ScanWithoutData,
};

fn cv(name: &str) -> ControlledVocabularyParameter {
    ControlledVocabularyParameter { name: name.to_string(), value: String::new(), unit_name: None }
}

fn adler32(data: &[u8]) -> u32 {
    let mut a: u32 = 1;
    let mut b: u32 = 0;
    for &x in data {
        a = (a + x as u32) % 65521;
        b = (b + a) % 65521;
    }
    (b << 16) | a
}

/// A zlib stream holding `data` in one stored block.
fn zlib_stored(data: &[u8]) -> Vec<u8> {
    let mut out = vec![0x78, 0x01, 0x01];
    let len = data.len() as u16;
    out.extend_from_slice(&len.to_le_bytes());
    out.extend_from_slice(&(!len).to_le_bytes());
    out.extend_from_slice(data);
    out.extend_from_slice(&adler32(data).to_be_bytes());
    out
}

fn b64(data: &[u8]) -> String {
    base64::engine::general_purpose::STANDARD.encode(data)
}

fn array(names: &[&str], text: String) -> BinaryDataArray {
    BinaryDataArray {
        encoded_length: text.len(),
        cv_param: names.iter().map(|n| cv(n)).collect(),
        binary: text,
    }
}

fn as_f64(d: &DecodedArray) -> Vec<f64> {
    d.values
        .iter()
        .map(|&v| if d.precision == 32 { f32::from_bits(v as u32) as f64 } else { f64::from_bits(v) })
        .collect()
}

fn scan_with(declared: usize, arrays: Vec<BinaryDataArray>) -> ScanWithData {
    ScanWithData {
        meta: ScanWithoutData {
            index: 0,
            id: "scan=1".to_string(),
            default_array_length: declared,
            cv_param: Vec::new(),
            precursor_list: None,
            scan_list: ScanList { scan: Vec::new() },
        },
        binary_data_array_list: BinaryDataArrayList { count: arrays.len() as u16, arrays },
    }
}

#[test]
fn zlib_single_precision_round_trip() {
    let floats: [f32; 4] = [1.5, -2.25, 1000.125, 0.1];
    let bytes: Vec<u8> = floats.iter().flat_map(|f| f.to_le_bytes()).collect();
    let a = array(&["32-bit float", "zlib compression", "m/z array"], b64(&zlib_stored(&bytes)));
    let d = a.decode().unwrap();
    assert_eq!(d.precision, 32);
    let expected: Vec<f64> = floats.iter().map(|&f| f as f64).collect();
    assert_eq!(as_f64(&d), expected);
}

#[test]
fn plain_double_precision_round_trip() {
    let floats: [f64; 3] = [445.34, -0.000123, 1.0e300];
    let bytes: Vec<u8> = floats.iter().flat_map(|f| f.to_le_bytes()).collect();
    let a = array(&["64-bit float", "no compression"], b64(&bytes));
    let d = a.decode().unwrap();
    assert_eq!(d.precision, 64);
    assert_eq!(d.values, floats.iter().map(|f| f.to_bits()).collect::<Vec<u64>>());
    assert_eq!(as_f64(&d), floats.to_vec());
}

#[test]
fn trailing_bytes_are_dropped() {
    let a = array(&["32-bit float"], b64(&[1, 0, 0, 0, 2, 0, 0, 0, 9, 9]));
    let d = a.decode().unwrap();
    assert_eq!(d.values, vec![1, 2]);
}

#[test]
fn words_are_little_endian() {
    let a = array(&[], b64(&[0x01, 0x02, 0x03, 0x04, 0x05, 0x06, 0x07, 0x08]));
    let d = a.decode().unwrap();
    assert_eq!(d.precision, 64);
    assert_eq!(d.values, vec![0x0807060504030201]);
}

#[test]
fn invalid_base64_is_reported() {
    let a = array(&["64-bit float"], "not*base64!".to_string());
    assert_eq!(a.decode(), Err(MzMLParseError::Base64DecodeError(None)));
}

#[test]
fn malformed_zlib_is_reported() {
    let a = array(&["zlib compression"], b64(&[1, 2, 3, 4, 5]));
    assert_eq!(a.decode(), Err(MzMLParseError::ZlibDecodeError(None)));
}

#[test]
fn precision_and_compression_flags() {
    assert_eq!(array(&[], String::new()).find_zlib_and_float_size(), (false, 64));
    assert_eq!(array(&["32-bit float"], String::new()).find_zlib_and_float_size(), (false, 32));
    assert_eq!(
        array(&["zlib compression", "32-bit float", "64-bit float"], String::new())
            .find_zlib_and_float_size(),
        (true, 64)
    );
    assert_eq!(
        array(&["64-bit float", "32-bit float"], String::new()).find_zlib_and_float_size(),
        (false, 32)
    );
}

#[test]
fn find_binary_by_cv_name_takes_first_match() {
    let list = BinaryDataArrayList {
        count: 3,
        arrays: vec![
            array(&["64-bit float", "m/z array"], "A".to_string()),
            array(&["intensity array"], "B".to_string()),
            array(&["m/z array"], "C".to_string()),
        ],
    };
    assert_eq!(list.find_binary_by_cv_name("m/z array").unwrap().binary, "A");
    assert_eq!(list.find_binary_by_cv_name("intensity").unwrap().binary, "B");
    assert!(list.find_binary_by_cv_name("charge array").is_none());
}

#[test]
fn peaks_pair_mz_with_intensity() {
    let mz: [f64; 2] = [100.5, 200.25];
    let it: [f32; 2] = [10.0, 20.0];
    let mzb: Vec<u8> = mz.iter().flat_map(|f| f.to_le_bytes()).collect();
    let itb: Vec<u8> = it.iter().flat_map(|f| f.to_le_bytes()).collect();
    let s = scan_with(2, vec![
        array(&["m/z array", "64-bit float"], b64(&mzb)),
        array(&["intensity array", "32-bit float", "zlib compression"], b64(&zlib_stored(&itb))),
    ]);
    let p = s.peaks().unwrap();
    assert_eq!(as_f64(&p.mz), vec![100.5, 200.25]);
    assert_eq!(as_f64(&p.intensity), vec![10.0, 20.0]);
}

#[test]
fn peaks_missing_arrays() {
    let s = scan_with(0, vec![array(&["intensity array"], String::new())]);
    assert_eq!(s.peaks(), Err(MzMLParseError::MissingArrayError(ArrayKind::Mz)));
    let s = scan_with(0, vec![array(&["m/z array"], String::new())]);
    assert_eq!(s.peaks(), Err(MzMLParseError::MissingArrayError(ArrayKind::Intensity)));
}

#[test]
fn peaks_length_mismatch() {
    let s = scan_with(2, vec![
        array(&["m/z array"], b64(&[0u8; 16])),
        array(&["intensity array"], b64(&[0u8; 8])),
    ]);
    assert_eq!(s.peaks(), Err(MzMLParseError::ArrayLengthMismatchError(2, 1)));
}

#[test]
fn peaks_report_decode_errors() {
    let s = scan_with(0, vec![
        array(&["m/z array"], "%%%".to_string()),
        array(&["intensity array"], String::new()),
    ]);
    assert_eq!(s.peaks(), Err(MzMLParseError::Base64DecodeError(Some(ArrayKind::Mz))));
    let s = scan_with(0, vec![
        array(&["m/z array"], String::new()),
        array(&["intensity array", "zlib compression"], b64(&[7, 7, 7])),
    ]);
    assert_eq!(s.peaks(), Err(MzMLParseError::ZlibDecodeError(Some(ArrayKind::Intensity))));
}

#[test]
fn peaks_must_match_declared_count() {
    let s = scan_with(5, vec![
        array(&["m/z array"], b64(&[0u8; 8])),
        array(&["intensity array"], b64(&[0u8; 8])),
    ]);
    assert_eq!(s.peaks(), Err(MzMLParseError::ArrayLengthMismatchError(1, 5)));
    let s = scan_with(1, vec![
        array(&["m/z array"], b64(&[0u8; 8])),
        array(&["intensity array"], b64(&[0u8; 8])),
    ]);
    assert_eq!(s.peaks().unwrap().mz.values, vec![0]);
}
