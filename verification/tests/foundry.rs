use foundry_stats::foundry::{Foundry, FoundryFeature, FoundryMetadata, NodeData};

fn irc27_json() -> String {
    r#"{"standard":"IRC27","version":"v1.0","type":"image/jpeg","uri":"https://example.com/nft.jpeg","name":"Test NFT"}"#
        .to_string()
}

fn irc30_json() -> String {
    r#"{"standard":"IRC30","name":"FooCoin","symbol":"FOO","decimals":3}"#.to_string()
}

fn foundry_with_metadata(payload: Vec<u8>) -> Foundry {
    Foundry {
        immutable_features: vec![FoundryFeature::Other, FoundryFeature::Metadata(payload)],
    }
}

#[test]
fn classify_irc27_payload() {
    let m = FoundryMetadata::from_bytes(irc27_json().as_bytes());
    assert!(matches!(m, FoundryMetadata::Irc27(_)));
}

#[test]
fn classify_irc30_payload() {
    let m = FoundryMetadata::from_bytes(irc30_json().as_bytes());
    assert!(matches!(m, FoundryMetadata::Irc30(_)));
}

#[test]
fn classify_empty_payload_is_deserialization_error() {
    let m = FoundryMetadata::from_bytes(&[]);
    match m {
        FoundryMetadata::DeserializationError { text, .. } => {
            assert_eq!(text, "");
        }
        _ => panic!("empty payload must fail both schemas"),
    }
}

#[test]
fn classify_plain_json_is_deserialization_error() {
    let m = FoundryMetadata::from_bytes(br#"{"hello":"world"}"#);
    match m {
        FoundryMetadata::DeserializationError { text, .. } => {
            assert_eq!(text, r#"{"hello":"world"}"#);
        }
        _ => panic!("unrelated JSON must fail both schemas"),
    }
}

#[test]
fn classify_invalid_utf8_is_encoding_error() {
    let m = FoundryMetadata::from_bytes(&[0xFF, 0xFE]);
    match m {
        FoundryMetadata::Utf8Error(bytes, _) => {
            assert_eq!(bytes, vec![0xFF, 0xFE]);
        }
        _ => panic!("invalid UTF-8 must never reach a schema parse"),
    }
}

#[test]
fn classify_is_deterministic() {
    let a = FoundryMetadata::from_bytes(irc27_json().as_bytes());
    let b = FoundryMetadata::from_bytes(irc27_json().as_bytes());
    match (a, b) {
        (FoundryMetadata::Irc27(x), FoundryMetadata::Irc27(y)) => {
            assert_eq!(x, y);
        }
        _ => panic!("identical bytes must classify identically"),
    }

    let c = FoundryMetadata::from_bytes(&[0xC0]);
    let d = FoundryMetadata::from_bytes(&[0xC0]);
    assert!(matches!(c, FoundryMetadata::Utf8Error(_, _)));
    assert!(matches!(d, FoundryMetadata::Utf8Error(_, _)));
}

#[test]
fn extract_returns_none_without_metadata_feature() {
    let empty = Foundry {
        immutable_features: vec![],
    };
    assert!(empty.metadata().is_none());

    let no_meta = Foundry {
        immutable_features: vec![FoundryFeature::Other, FoundryFeature::Other],
    };
    assert!(no_meta.metadata().is_none());
}

#[test]
fn extract_returns_first_metadata_payload() {
    let f = Foundry {
        immutable_features: vec![
            FoundryFeature::Other,
            FoundryFeature::Metadata(vec![1, 2, 3]),
            FoundryFeature::Metadata(vec![9, 9]),
        ],
    };
    assert_eq!(f.metadata(), Some(&vec![1, 2, 3]));
}

#[test]
fn absent_without_metadata_feature() {
    let f = Foundry {
        immutable_features: vec![FoundryFeature::Other],
    };
    assert!(matches!(
        FoundryMetadata::from_foundry(&f),
        FoundryMetadata::Absent
    ));
}

#[test]
fn end_to_end_irc27() {
    let outputs = vec![foundry_with_metadata(irc27_json().into_bytes())];
    let data = NodeData::from_foundries("https://example.com".to_string(), &outputs);
    let stats = data.stats();
    assert_eq!(stats.node_url, "https://example.com");
    assert_eq!(stats.number, 1);
    assert_eq!(stats.with_meta, 1);
    assert_eq!(stats.without_meta, 0);
    assert_eq!(stats.irc27, 1);
    assert_eq!(stats.irc30, 0);
    assert_eq!(stats.broken_utf8, 0);
    assert_eq!(stats.deserialization_error, 0);
}

#[test]
fn end_to_end_invalid_utf8() {
    let outputs = vec![foundry_with_metadata(vec![0xFF, 0xFE])];
    let data = NodeData::from_foundries("node".to_string(), &outputs);
    let stats = data.stats();
    assert_eq!(stats.number, 1);
    assert_eq!(stats.with_meta, 1);
    assert_eq!(stats.without_meta, 0);
    assert_eq!(stats.irc27, 0);
    assert_eq!(stats.irc30, 0);
    assert_eq!(stats.broken_utf8, 1);
    assert_eq!(stats.deserialization_error, 0);
}

#[test]
fn end_to_end_no_metadata() {
    let outputs = vec![Foundry {
        immutable_features: vec![FoundryFeature::Other],
    }];
    let data = NodeData::from_foundries("node".to_string(), &outputs);
    let stats = data.stats();
    assert_eq!(stats.number, 1);
    assert_eq!(stats.with_meta, 0);
    assert_eq!(stats.without_meta, 1);
    assert_eq!(stats.irc27, 0);
    assert_eq!(stats.irc30, 0);
    assert_eq!(stats.broken_utf8, 0);
    assert_eq!(stats.deserialization_error, 0);
}

#[test]
fn stats_partition_total_on_mixed_outputs() {
    let outputs = vec![
        foundry_with_metadata(irc27_json().into_bytes()),
        foundry_with_metadata(irc30_json().into_bytes()),
        foundry_with_metadata(vec![0xFF]),
        foundry_with_metadata(b"not json".to_vec()),
        Foundry {
            immutable_features: vec![],
        },
    ];
    let data = NodeData::from_foundries("node".to_string(), &outputs);
    let stats = data.stats();
    assert_eq!(stats.number, 5);
    assert_eq!(stats.with_meta + stats.without_meta, stats.number);
    assert_eq!(stats.with_meta, 4);
    assert_eq!(stats.without_meta, 1);
    assert_eq!(stats.irc27, 1);
    assert_eq!(stats.irc30, 1);
    assert_eq!(stats.broken_utf8, 1);
    assert_eq!(stats.deserialization_error, 1);
}
