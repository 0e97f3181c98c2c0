//! Decoding of topic manifests from TOML and JSON sources, and tagged
//! re-encoding of a manifest collection.

use topic_manifest::Conventional;
use topic_manifest::Cumulative;
use topic_manifest::Locale;
use topic_manifest::Localized;
use topic_manifest::Manifest;
use topic_manifest::ManifestCollection;
use topic_manifest::Packages;
use topic_manifest::Raw;

fn toml_value_to_raw(v: &toml::Value) -> Raw {
    match v {
        toml::Value::String(s) => Raw::Str(s.clone()),
        toml::Value::Boolean(b) => Raw::Bool(*b),
        toml::Value::Array(a) => Raw::Arr(a.iter().map(toml_value_to_raw).collect()),
        toml::Value::Table(t) => Raw::Table(
            t.iter().map(|(k, v)| (k.clone(), toml_value_to_raw(v))).collect(),
        ),
        _ => Raw::Other,
    }
}

fn toml_to_raw(text: &str) -> Raw {
    let table: toml::Table = text.parse().expect("source is not valid TOML");
    Raw::Table(table.iter().map(|(k, v)| (k.clone(), toml_value_to_raw(v))).collect())
}

fn json_to_raw(v: &serde_json::Value) -> Raw {
    match v {
        serde_json::Value::Null => Raw::Null,
        serde_json::Value::Bool(b) => Raw::Bool(*b),
        serde_json::Value::String(s) => Raw::Str(s.clone()),
        serde_json::Value::Array(a) => Raw::Arr(a.iter().map(json_to_raw).collect()),
        serde_json::Value::Object(m) => Raw::Table(
            m.iter().map(|(k, v)| (k.clone(), json_to_raw(v))).collect(),
        ),
        serde_json::Value::Number(_) => Raw::Other,
    }
}

fn raw_to_json(r: &Raw) -> serde_json::Value {
    match r {
        Raw::Null => serde_json::Value::Null,
        Raw::Bool(b) => serde_json::Value::Bool(*b),
        Raw::Str(s) => serde_json::Value::String(s.clone()),
        Raw::Arr(items) => serde_json::Value::Array(items.iter().map(raw_to_json).collect()),
        Raw::Table(es) => {
            let mut m = serde_json::Map::new();
            for (k, v) in es {
                m.insert(k.clone(), raw_to_json(v));
            }
            serde_json::Value::Object(m)
        }
        Raw::Other => panic!("no JSON counterpart"),
    }
}

#[test]
fn conventional_test_de() {
    let example = r#"
        name.default = "KDE Updates (Winter 2023)"
        name.zh_CN = "KDE 更新（2023 年冬季）"
        # Security update (true/false)?
        security = true
        # OPTIONAL: PSA message for users.
        caution.default = """This topic may use significantly more memory after reboot. Our testing finds that the new KDE version may use up to 16GiB of RAM."""
        caution.zh_CN = """本次更新重启后可能会需要更多内存。据我社维护者测试，新版 KDE 可能需要接近 16GiB 内存。"""

        [packages]
        konsole = "23.04.1-1"
        dolphin = "23.04.1"
        # Package removed as part of the topic.
        pykde = false
        "#;

    let converted = Conventional::decode(&toml_to_raw(example)).unwrap();
    assert_eq!(
        converted.get_name(),
        &Localized::new(
            Some("KDE Updates (Winter 2023)".into()),
            vec![(Locale::new("zh-CN"), "KDE 更新（2023 年冬季）".into())],
        )
    );
    assert_eq!(converted.is_security_update(), true);
    assert_eq!(
        converted.get_caution(),
        &Localized::new(
            Some(r#"This topic may use significantly more memory after reboot. Our testing finds that the new KDE version may use up to 16GiB of RAM."#.into()),
            vec![(
                Locale::new("zh-CN"),
                "本次更新重启后可能会需要更多内存。据我社维护者测试，新版 KDE 可能需要接近 16GiB 内存。".into(),
            )],
        )
    );
    assert_eq!(converted.get_packages().as_ref().len(), 3);
    assert_eq!(
        converted.get_packages().get("konsole"),
        Some(&Some("23.04.1-1".to_string()))
    );
    assert_eq!(
        converted.get_packages().get("dolphin"),
        Some(&Some("23.04.1".to_string()))
    );
    assert_eq!(converted.get_packages().get("pykde"), Some(&None));
}

#[test]
fn cumulative_test_de() {
    let example = r#"
        name.default = "Winter 2023 Cumulative Update for amd64 AOSC OS systems"
        name.zh_MS = "适用于 amd64 AOSC OS 版本的 23 冬季累计更新"

        # Must not exist alongside [packages].
        topics = [
            "kde-survey-20231201",
            "core-12.1.0"
        ]
        "#;

    let converted = Cumulative::decode(&toml_to_raw(example)).unwrap();
    assert_eq!(
        converted.get_name(),
        &Localized::new(
            Some("Winter 2023 Cumulative Update for amd64 AOSC OS systems".into()),
            vec![(
                Locale::new("zh_MS"),
                "适用于 amd64 AOSC OS 版本的 23 冬季累计更新".into(),
            )],
        )
    );
    assert_eq!(
        converted.get_topics(),
        &vec!["kde-survey-20231201".to_string(), "core-12.1.0".to_string()]
    );
}

#[test]
fn de_test_de() {
    let example_packages = r#"
        konsole = "23.04.1-1"
        dolphin = "23.04.1"
        # Package removed as part of the topic
        pykde = false
        "#;

    let converted = Packages::decode(&toml_to_raw(example_packages)).unwrap();
    println!("{:?}", converted);
    assert_eq!(converted.as_ref().len(), 3);
    assert_eq!(converted.get("konsole"), Some(&Some("23.04.1-1".to_string())));
    assert_eq!(converted.get("dolphin"), Some(&Some("23.04.1".to_string())));
    assert_eq!(converted.get("pykde"), Some(&None));
}

#[test]
fn test_manifest_serde() {
    let example1 = r#"
        name.default = "KDE Updates (Winter 2023)"
        name.zh_CN = "KDE 更新（2023 年冬季）"
        # Security update (true/false)?
        security = true
        # OPTIONAL: PSA message for users.
        caution.default = """This topic may use significantly more memory after reboot. Our testing finds that the new KDE version may use up to 16GiB of RAM."""
        caution.zh_CN = """本次更新重启后可能会需要更多内存。据我社维护者测试，新版 KDE 可能需要接近 16GiB 内存。"""

        [packages]
        konsole = "23.04.1-1"
        dolphin = "23.04.1"
        # Package removed as part of the topic.
        pykde = false
        "#;

    let example2 = r#"
        name.default = "Winter 2023 Cumulative Update for amd64 AOSC OS systems"
        name.zh_MS = "适用于 amd64 AOSC OS 版本的 23 冬季累计更新"

        # Must not exist alongside [packages].
        topics = [
            "kde-survey-20231201",
            "core-12.1.0"
        ]
        "#;

    let converted1 = Manifest::decode(&toml_to_raw(example1)).unwrap();
    let converted2 = Manifest::decode(&toml_to_raw(example2)).unwrap();
    assert!(matches!(converted1, Manifest::Conventional(_)));
    assert!(matches!(converted2, Manifest::Cumulative(_)));

    let manifests = ManifestCollection::from_entries(vec![
        ("kde-survey-20231201".to_string(), converted1),
        ("cumulative-2023H3".to_string(), converted2),
    ]);
    assert_eq!(
        manifests.find_missing_topics(),
        vec![("cumulative-2023H3".to_string(), vec!["core-12.1.0".to_string()])]
    );
    assert!(!manifests.is_consistent());

    let manifests_text = "{\"cumulative-2023H3\":{\"type\":\"cumulative\",\"name\":{\"default\":\"Winter 2023 Cumulative Update for amd64 AOSC OS systems\",\"zh_MS\":\"适用于 amd64 AOSC OS 版本的 23 冬季累计更新\"},\"topics\":[\"kde-survey-20231201\",\"core-12.1.0\"]},\"kde-survey-20231201\":{\"type\":\"conventional\",\"name\":{\"default\":\"KDE Updates (Winter 2023)\",\"zh_CN\":\"KDE 更新（2023 年冬季）\"},\"security\":true,\"caution\":{\"default\":\"This topic may use significantly more memory after reboot. Our testing finds that the new KDE version may use up to 16GiB of RAM.\",\"zh_CN\":\"本次更新重启后可能会需要更多内存。据我社维护者测试，新版 KDE 可能需要接近 16GiB 内存。\"},\"packages\":{\"dolphin\":\"23.04.1\",\"konsole\":\"23.04.1-1\",\"pykde\":null}}}";
    let collection_json: serde_json::Value = serde_json::from_str(
        r#"
            {
                "cumulative-2023H3": {
                    "type": "cumulative",
                    "name": {
                        "default": "Winter 2023 Cumulative Update for amd64 AOSC OS systems",
                        "zh_MS": "适用于 amd64 AOSC OS 版本的 23 冬季累计更新"
                    },
                    "topics": [
                        "kde-survey-20231201",
                        "core-12.1.0"
                    ]
                },
                "kde-survey-20231201": {
                    "type": "conventional",
                    "name": {
                        "default": "KDE Updates (Winter 2023)",
                        "zh_CN": "KDE 更新（2023 年冬季）"
                    },
                    "security": true,
                    "caution": {
                        "default": "This topic may use significantly more memory after reboot. Our testing finds that the new KDE version may use up to 16GiB of RAM.",
                        "zh_CN": "本次更新重启后可能会需要更多内存。据我社维护者测试，新版 KDE 可能需要接近 16GiB 内存。"
                    },
                    "packages": {
                        "dolphin": "23.04.1",
                        "konsole": "23.04.1-1",
                        "pykde": null
                    }
                }
            }"#,
    )
    .unwrap();
    let _: ManifestCollection = match json_to_raw(&collection_json) {
        Raw::Table(entries) => ManifestCollection::from_entries(
            entries
                .iter()
                .map(|(k, v)| {
                    (
                        k.clone(),
                        Manifest::decode(v).expect("Failed to parse manifest collection"),
                    )
                })
                .collect(),
        ),
        _ => panic!("Failed to parse manifest collection"),
    };
    assert_eq!(
        manifests_text,
        serde_json::to_string(&raw_to_json(&manifests.encode())).unwrap()
    );
}
