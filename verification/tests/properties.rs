//! Concrete checks of the codec's and the checker's stated behavior.

use topic_manifest::Conventional;
use topic_manifest::Cumulative;
use topic_manifest::Locale;
use topic_manifest::Localized;
use topic_manifest::Manifest;
use topic_manifest::ManifestCollection;
use topic_manifest::ManifestError;
use topic_manifest::Packages;
use topic_manifest::Raw;

fn sample_localized() -> Localized {
    Localized::new(
        Some("Sample".to_string()),
        vec![(Locale::new("zh-CN"), "样例".to_string())],
    )
}

fn sample_conventional() -> Conventional {
    Conventional::new(
        sample_localized(),
        true,
        sample_localized(),
        Packages::new(vec![
            ("konsole".to_string(), Some("23.04.1-1".to_string())),
            ("pykde".to_string(), None),
        ]),
    )
}

fn sample_cumulative() -> Cumulative {
    Cumulative::new(
        sample_localized(),
        vec!["alpha".to_string(), "beta".to_string(), "alpha".to_string()],
    )
}

#[test]
fn round_trip_conventional() {
    let m = Manifest::Conventional(sample_conventional());
    assert_eq!(Manifest::decode(&m.encode()).unwrap(), m);
}

#[test]
fn round_trip_cumulative() {
    let m = Manifest::Cumulative(sample_cumulative());
    assert_eq!(Manifest::decode(&m.encode()).unwrap(), m);
}

#[test]
fn tri_state_version_string() {
    let raw = Raw::Table(vec![("x".to_string(), Raw::Str("1.0-2".to_string()))]);
    let p = Packages::decode(&raw).unwrap();
    assert_eq!(p.get("x"), Some(&Some("1.0-2".to_string())));
}

#[test]
fn tri_state_false_is_removal() {
    let raw = Raw::Table(vec![("x".to_string(), Raw::Bool(false))]);
    let p = Packages::decode(&raw).unwrap();
    assert_eq!(p.get("x"), Some(&None));
}

#[test]
fn tri_state_null_is_removal() {
    let raw = Raw::Table(vec![("x".to_string(), Raw::Null)]);
    let p = Packages::decode(&raw).unwrap();
    assert_eq!(p.get("x"), Some(&None));
}

#[test]
fn tri_state_true_fails() {
    let raw = Raw::Table(vec![("x".to_string(), Raw::Bool(true))]);
    assert_eq!(
        Packages::decode(&raw).unwrap_err(),
        ManifestError::InvalidPackageVersion
    );
}

#[test]
fn package_entry_scenario() {
    let raw = Raw::Table(vec![
        ("konsole".to_string(), Raw::Str("23.04.1-1".to_string())),
        ("pykde".to_string(), Raw::Bool(false)),
    ]);
    let p = Packages::decode(&raw).unwrap();
    assert_eq!(p.get("konsole"), Some(&Some("23.04.1-1".to_string())));
    assert_eq!(p.get("pykde"), Some(&None));
    match p.encode() {
        Raw::Table(es) => {
            assert_eq!(es.len(), 2);
            assert_eq!(es[0].0, "konsole");
            assert!(matches!(&es[0].1, Raw::Str(s) if s == "23.04.1-1"));
            assert_eq!(es[1].0, "pykde");
            assert!(matches!(&es[1].1, Raw::Null));
        }
        _ => panic!("a version set must encode as a table"),
    }
}

#[test]
fn packages_sorted_by_name() {
    let raw = Raw::Table(vec![
        ("zsh".to_string(), Raw::Str("5".to_string())),
        ("bash".to_string(), Raw::Str("4".to_string())),
    ]);
    let p = Packages::decode(&raw).unwrap();
    let entries = p.as_ref();
    assert_eq!(entries[0].0, "bash");
    assert_eq!(entries[1].0, "zsh");
}

#[test]
fn ambiguous_shape_prefers_conventional() {
    let raw = Raw::Table(vec![
        (
            "name".to_string(),
            Raw::Table(vec![("default".to_string(), Raw::Str("Both".to_string()))]),
        ),
        ("security".to_string(), Raw::Bool(false)),
        (
            "caution".to_string(),
            Raw::Table(vec![("default".to_string(), Raw::Str("None".to_string()))]),
        ),
        ("packages".to_string(), Raw::Table(vec![])),
        (
            "topics".to_string(),
            Raw::Arr(vec![Raw::Str("alpha".to_string())]),
        ),
    ]);
    let m = Manifest::decode(&raw).unwrap();
    assert!(m.is_conventional());
    assert!(!m.is_cumulative());
}

#[test]
fn unrecognized_shape_fails() {
    assert_eq!(
        Manifest::decode(&Raw::Table(vec![])).unwrap_err(),
        ManifestError::UnrecognizedManifestShape
    );
    assert_eq!(
        Manifest::decode(&Raw::Str("not a topic".to_string())).unwrap_err(),
        ManifestError::UnrecognizedManifestShape
    );
}

#[test]
fn package_set_must_be_a_table() {
    assert_eq!(
        Packages::decode(&Raw::Str("oops".to_string())).unwrap_err(),
        ManifestError::InvalidStructure
    );
    let raw = Raw::Table(vec![("x".to_string(), Raw::Arr(vec![]))]);
    assert_eq!(
        Packages::decode(&raw).unwrap_err(),
        ManifestError::InvalidStructure
    );
}

#[test]
fn missing_reference_reported() {
    let a = Manifest::Cumulative(Cumulative::new(
        sample_localized(),
        vec!["B".to_string()],
    ));
    let coll = ManifestCollection::from_entries(vec![("A".to_string(), a)]);
    assert_eq!(coll.len(), 1);
    assert!(!coll.is_empty());
    assert_eq!(
        coll.find_missing_topics(),
        vec![("A".to_string(), vec!["B".to_string()])]
    );
    assert!(!coll.is_consistent());
}

#[test]
fn satisfied_reference_is_consistent() {
    let a = Manifest::Cumulative(Cumulative::new(
        sample_localized(),
        vec!["B".to_string()],
    ));
    let b = Manifest::Conventional(sample_conventional());
    let coll =
        ManifestCollection::from_entries(vec![("A".to_string(), a), ("B".to_string(), b)]);
    assert_eq!(coll.find_missing_topics(), vec![]);
    assert!(coll.is_consistent());
}

#[test]
fn self_reference_counts_as_present() {
    let a = Manifest::Cumulative(Cumulative::new(
        sample_localized(),
        vec!["A".to_string()],
    ));
    let coll = ManifestCollection::from_entries(vec![("A".to_string(), a)]);
    assert!(coll.is_consistent());
}

#[test]
fn empty_collection_is_consistent() {
    let coll = ManifestCollection::from_entries(vec![]);
    assert_eq!(coll.len(), 0);
    assert!(coll.is_empty());
    assert!(coll.is_consistent());
}

#[test]
fn locale_separator_is_canonicalized() {
    assert_eq!(Locale::new("zh_CN"), Locale::new("zh-CN"));
    assert_eq!(Locale::new("zh_CN").as_str(), "zh_CN");
    assert!(!(Locale::new("zh-CN") == Locale::new("zh-TW")));
}

#[test]
fn localized_lookup_falls_back_to_default() {
    let l = Localized::new(
        Some("hello".to_string()),
        vec![(Locale::new("zh-CN"), "你好".to_string())],
    );
    assert_eq!(l.get(&Locale::new("zh_CN")).unwrap(), "你好");
    assert_eq!(l.get(&Locale::new("fr-FR")).unwrap(), "hello");
    let bare = Localized::new(None, vec![]);
    assert_eq!(
        bare.get(&Locale::new("fr-FR")).unwrap_err(),
        ManifestError::MissingLocalization
    );
}

#[test]
fn localized_rejects_non_string_entry() {
    let raw = Raw::Table(vec![("en".to_string(), Raw::Bool(true))]);
    assert!(Localized::decode(&raw).is_none());
}

#[test]
fn later_entry_overrides_earlier_key() {
    let a1 = Manifest::Cumulative(Cumulative::new(sample_localized(), vec!["B".to_string()]));
    let a2 = Manifest::Conventional(sample_conventional());
    let coll = ManifestCollection::from_entries(vec![
        ("A".to_string(), a1),
        ("A".to_string(), a2.clone()),
    ]);
    assert_eq!(coll.len(), 1);
    assert!(coll.is_consistent());
}

#[test]
fn later_locale_entry_overrides_same_locale() {
    let l = Localized::new(
        None,
        vec![
            (Locale::new("zh-CN"), "第一".to_string()),
            (Locale::new("zh_CN"), "第二".to_string()),
        ],
    );
    assert_eq!(l.get(&Locale::new("zh-CN")).unwrap(), "第二");
}
