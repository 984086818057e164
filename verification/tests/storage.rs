use parquet_sma::manager::SMAManager;
use parquet_sma::paths::{in_base_folder, sma_file_name};
use parquet_sma::results::{OutlierEntry, Results};
use parquet_sma::sma::{SMAHeader, SmaError, SMA};
use std::collections::HashMap;

fn entry(column: &str, outliers: Option<Vec<u8>>) -> OutlierEntry {
    OutlierEntry {
        predicate: column.to_string(),
        min: 1.5f64.to_bits(),
        max: 99.0f64.to_bits(),
        lower_threshold: (-3.25f64).to_bits(),
        upper_threshold: 70.0f64.to_bits(),
        outliers,
    }
}

type FloatEntry = (String, f64, f64, f64, f64, Option<Vec<u8>>);

#[test]
fn sma_name_exchanges_the_extension() {
    assert_eq!(sma_file_name("sales.parquet"), "sales.sma");
    assert_eq!(sma_file_name("a/b.parquet/c.parquet"), "a/b.sma/c.sma");
    assert_eq!(sma_file_name("données.parquet"), "données.sma");
    assert_eq!(sma_file_name(".parquet.parquet"), ".sma.sma");
}

#[test]
fn sma_name_without_extension_stays() {
    assert_eq!(sma_file_name("sales.csv"), "sales.csv");
    assert_eq!(sma_file_name(".parque"), ".parque");
    assert_eq!(sma_file_name(""), "");
}

#[test]
fn files_lie_in_the_base_folder() {
    assert_eq!(
        in_base_folder("x.sma"),
        "/Users/u.oezdemir/Desktop/thesis/data/x.sma"
    );
}

#[test]
fn new_file_is_empty() {
    let sma = SMA::new();
    assert_eq!(sma.header.version, "SMA");
    assert_eq!(sma.header.predicate_count, 0);
    assert!(!sma.results.contains_key("price"));
}

#[test]
fn insert_replaces_the_entry_of_a_column() {
    let mut results = Results::new();
    results.insert("a".to_string(), entry("a", None));
    results.insert("b".to_string(), entry("b", Some(vec![1])));
    results.insert("a".to_string(), entry("a", Some(vec![2, 3])));
    assert_eq!(results.get("a").unwrap().outliers, Some(vec![2, 3]));
    assert_eq!(results.get("b").unwrap().outliers, Some(vec![1]));
    assert!(results.get("c").is_none());
    assert_eq!(results.into_entries().len(), 2);
}

#[test]
fn reading_gives_back_what_was_written() {
    let manager = SMAManager::new();
    let mut sma = SMA::new();
    sma.header.predicate_count = 4;
    sma.results.insert("price".to_string(), entry("price", Some(vec![9, 8, 7])));
    sma.results.insert("größe".to_string(), entry("größe", None));
    let file = manager.update_sma_file("x.sma", sma);
    assert_eq!(file.path, "/Users/u.oezdemir/Desktop/thesis/data/x.sma");
    let back = manager.deserialize_sma_file(&file.contents).unwrap();
    assert_eq!(back.header.version, "SMA");
    assert_eq!(back.header.predicate_count, 4);
    let price = back.results.get("price").unwrap();
    assert_eq!(price.predicate, "price");
    assert_eq!(f64::from_bits(price.min), 1.5);
    assert_eq!(f64::from_bits(price.max), 99.0);
    assert_eq!(f64::from_bits(price.lower_threshold), -3.25);
    assert_eq!(f64::from_bits(price.upper_threshold), 70.0);
    assert_eq!(price.outliers, Some(vec![9, 8, 7]));
    assert_eq!(back.results.get("größe").unwrap().outliers, None);
}

#[test]
fn bytes_are_those_of_a_map_with_floats() {
    let mut sma = SMA::new();
    sma.results.insert("price".to_string(), entry("price", Some(vec![9, 8, 7])));
    let mut map: HashMap<String, FloatEntry> = HashMap::new();
    map.insert(
        "price".to_string(),
        ("price".to_string(), 1.5, 99.0, -3.25, 70.0, Some(vec![9, 8, 7])),
    );
    let same = bincode::serialize(&(("SMA", 0usize), map)).unwrap();
    assert_eq!(sma.encode(), same);
}

#[test]
fn bytes_of_a_new_file() {
    let file = SMAManager::new().create_sma_file("x.sma");
    assert_eq!(file.path, "/Users/u.oezdemir/Desktop/thesis/data/x.sma");
    let mut bytes = vec![3, 0, 0, 0, 0, 0, 0, 0];
    bytes.extend_from_slice(b"SMA");
    bytes.extend_from_slice(&[0; 16]);
    assert_eq!(file.contents, bytes);
    let back = SMA::decode(&file.contents).unwrap();
    assert!(back.results.into_entries().is_empty());
}

#[test]
fn last_of_several_entries_counts() {
    let list: Vec<(String, FloatEntry)> = vec![
        ("a".to_string(), ("a".to_string(), 0.0, 0.0, 0.0, 0.0, Some(vec![1]))),
        ("b".to_string(), ("b".to_string(), 0.0, 0.0, 0.0, 0.0, Some(vec![2]))),
        ("a".to_string(), ("a".to_string(), 0.0, 0.0, 0.0, 0.0, Some(vec![3]))),
    ];
    let bytes = bincode::serialize(&(("SMA", 2u64), list)).unwrap();
    let sma = SMA::decode(&bytes).unwrap();
    assert_eq!(sma.results.get("a").unwrap().outliers, Some(vec![3]));
    assert_eq!(sma.results.get("b").unwrap().outliers, Some(vec![2]));
    assert_eq!(sma.results.into_entries().len(), 2);
}

#[test]
fn malformed_bytes_are_refused() {
    let manager = SMAManager::new();
    assert!(matches!(manager.deserialize_sma_file(&vec![]), Err(SmaError::Malformed)));
    assert!(matches!(manager.deserialize_sma_file(&vec![255; 40]), Err(SmaError::Malformed)));
    let mut bytes = SMA::new().encode();
    bytes.pop();
    assert!(matches!(SMA::decode(&bytes), Err(SmaError::Malformed)));
}

#[test]
fn bytes_that_begin_with_no_record_are_refused() {
    let mut sma = SMA::new();
    sma.results.insert("q".to_string(), entry("q", Some(vec![9])));
    let bytes = sma.encode();
    // Everything shorter than the record.
    for n in 0..bytes.len() {
        assert!(SMA::decode(&bytes[..n].to_vec()).is_err());
    }
    // A byte that says neither that there are outliers nor that there are none.
    let tag = bytes.len() - 10;
    assert_eq!(bytes[tag], 1);
    let mut other = bytes.clone();
    other[tag] = 2;
    assert!(SMA::decode(&other).is_err());
    // A string that is no text.
    let mut other = bytes.clone();
    other[8] = 0xff;
    assert!(SMA::decode(&other).is_err());
    // A length that no file can have.
    let mut other = bytes;
    for b in &mut other[19..27] {
        *b = 0xff;
    }
    assert!(SMA::decode(&other).is_err());
}

#[test]
fn bytes_behind_the_contents_are_ignored() {
    let mut sma = SMA::new();
    sma.results.insert("price".to_string(), entry("price", Some(vec![9])));
    let mut bytes = sma.encode();
    bytes.extend_from_slice(&[17, 0, 1]);
    let back = SMA::decode(&bytes).unwrap();
    assert_eq!(back.results.get("price").unwrap().outliers, Some(vec![9]));
}

#[test]
fn record_holds_the_fields_in_order() {
    let mut sma = SMA::new();
    sma.results.insert("b".to_string(), entry("b", Some(vec![2])));
    sma.results.insert("a".to_string(), entry("a", None));
    let ((version, count), list) = sma.into_record();
    assert_eq!((version.as_str(), count), ("SMA", 0));
    assert_eq!(list.len(), 2);
    assert_eq!(list[0].0, "b");
    assert_eq!(
        list[0].1,
        (
            "b".to_string(),
            1.5f64.to_bits(),
            99.0f64.to_bits(),
            (-3.25f64).to_bits(),
            70.0f64.to_bits(),
            Some(vec![2])
        )
    );
    assert_eq!(list[1].0, "a");
    let back = SMA::from_record((("v".to_string(), 7), list)).unwrap();
    assert_eq!(back.header.version, "v");
    assert_eq!(back.header.predicate_count, 7);
    assert_eq!(back.results.get("b").unwrap().outliers, Some(vec![2]));
    assert!(back.results.contains_key("a"));
}

#[test]
fn header_is_free() {
    let sma = SMA {
        header: SMAHeader { version: "other".to_string(), predicate_count: usize::MAX },
        results: Results::new(),
    };
    let back = SMA::decode(&sma.encode()).unwrap();
    assert_eq!(back.header.version, "other");
    assert_eq!(back.header.predicate_count, usize::MAX);
}

#[test]
fn known_files_are_not_looked_for() {
    let mut manager = SMAManager::new();
    assert!(!manager.sma_file_exist("nowhere.sma"));
    manager.insert_sma("nowhere.sma".to_string());
    assert!(manager.sma_file_exist("nowhere.sma"));
    assert!(!manager.sma_file_exist("elsewhere.sma"));
}

#[test]
fn query_needs_the_file_and_the_entry() {
    let mut manager = SMAManager::new();
    let new = manager.create_sma_file("x.sma").contents;
    let mut sma = SMA::new();
    sma.results.insert("price".to_string(), entry("price", None));
    let filled = manager.update_sma_file("x.sma", sma).contents;

    // The file does not exist.
    assert_eq!(manager.can_retrieve_from_sma("x.sma", "price", &filled), Ok(false));
    assert_eq!(manager.can_retrieve_from_sma("x.sma", "price", &vec![]), Ok(false));
    let written: Result<(), ()> = Ok(());
    manager.sma_file_created("x.sma", written).unwrap();
    // The file holds no entry at all, or none for the column.
    assert_eq!(manager.can_retrieve_from_sma("x.sma", "price", &new), Ok(false));
    assert_eq!(manager.can_retrieve_from_sma("x.sma", "size", &filled), Ok(false));
    assert_eq!(manager.can_retrieve_from_sma("x.sma", "price", &filled), Ok(true));
    assert_eq!(
        manager.can_retrieve_from_sma("x.sma", "price", &vec![1]),
        Err(SmaError::Malformed)
    );
    assert!(manager.sma_file_exist("x.sma"));

    assert_eq!(SMAManager::holds_entry(false, "price", &filled), Ok(false));
    assert_eq!(SMAManager::holds_entry(true, "price", &filled), Ok(true));
    assert_eq!(SMAManager::holds_entry(true, "size", &filled), Ok(false));
}

#[test]
fn bytes_of_an_entry() {
    let mut sma = SMA::new();
    sma.results.insert("ö".to_string(), entry("p", Some(vec![9, 8])));
    sma.results.insert("q".to_string(), entry("", None));
    let mut bytes: Vec<u8> = Vec::new();
    let word = |bytes: &mut Vec<u8>, w: u64| bytes.extend_from_slice(&w.to_le_bytes());
    word(&mut bytes, 3);
    bytes.extend_from_slice(b"SMA");
    word(&mut bytes, 0);
    word(&mut bytes, 2);
    for (key, predicate, outliers) in [("ö", "p", true), ("q", "", false)] {
        word(&mut bytes, key.len() as u64);
        bytes.extend_from_slice(key.as_bytes());
        word(&mut bytes, predicate.len() as u64);
        bytes.extend_from_slice(predicate.as_bytes());
        for v in [1.5f64, 99.0, -3.25, 70.0] {
            word(&mut bytes, v.to_bits());
        }
        if outliers {
            bytes.push(1);
            word(&mut bytes, 2);
            bytes.extend_from_slice(&[9, 8]);
        } else {
            bytes.push(0);
        }
    }
    assert_eq!(sma.encode(), bytes);
}

#[test]
fn file_found_in_the_base_folder_is_known() {
    let mut manager = SMAManager::new();
    assert!(!manager.note_probe("x.sma", false));
    assert!(!manager.sma_file_exist("x.sma"));
    assert!(manager.note_probe("x.sma", true));
    assert!(manager.sma_file_exist("x.sma"));
    assert!(manager.note_probe("x.sma", false));
}

#[test]
fn only_a_file_that_was_written_is_known() {
    let mut manager = SMAManager::new();
    assert_eq!(manager.sma_file_created("x.sma", Err("disk full")), Err("disk full"));
    assert!(!manager.sma_file_exist("x.sma"));
    let written: Result<(), &str> = Ok(());
    assert_eq!(manager.sma_file_created("x.sma", written), Ok(()));
    assert!(manager.sma_file_exist("x.sma"));
}
