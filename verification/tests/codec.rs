use csub::codec::decode;
use csub::codec::encode;
use csub::probe::StreamInfo;
use csub::probe::StreamTags;

fn track(index: i32, language: &str, title: Option<&str>) -> StreamInfo {
    StreamInfo {
        index,
        codec_type: "subtitle".to_string(),
        tags: StreamTags {
            language: language.to_string(),
            title: title.map(|t| t.to_string()),
        },
    }
}

#[test]
fn encode_without_title() {
    let d = track(2, "chi", None);
    assert_eq!(encode(&d, "Chinese"), "#2 Chinese");
}

#[test]
fn encode_with_title() {
    let d = track(3, "eng", Some("Commentary"));
    assert_eq!(encode(&d, "English"), "#3 English - Commentary");
}

#[test]
fn decode_plain_label() {
    assert_eq!(decode("#2 Chinese"), Ok(2));
    assert_eq!(decode("#3 English - Commentary"), Ok(3));
    assert_eq!(decode("#0 x"), Ok(0));
    assert_eq!(decode("#2147483647 big"), Ok(2147483647));
}

#[test]
fn round_trip_simple() {
    for index in [0, 1, 7, 41, 100, 65535] {
        let d = track(index, "eng", None);
        let label = encode(&d, "English");
        assert_eq!(decode(&label), Ok(index));
    }
}

#[test]
fn round_trip_title_with_index_shaped_text() {
    let d = track(7, "eng", Some("reel #12 outtakes"));
    let label = encode(&d, "English");
    assert_eq!(label, "#7 English - reel #12 outtakes");
    assert_eq!(decode(&label), Ok(7));
}

#[test]
fn round_trip_language_starting_with_digits() {
    let d = track(12, "und", Some("x"));
    let label = encode(&d, "3D commentary");
    assert_eq!(label, "#12 3D commentary - x");
    assert_eq!(decode(&label), Ok(12));
}

#[test]
fn decode_rejects_missing_marker() {
    assert!(decode("Chinese").is_err());
    assert!(decode("").is_err());
    assert!(decode("2 Chinese").is_err());
}

#[test]
fn decode_rejects_marker_without_space() {
    assert!(decode("#2").is_err());
    assert!(decode("#2Chinese").is_err());
}

#[test]
fn decode_rejects_marker_without_digits() {
    assert!(decode("# 2 Chinese").is_err());
    assert!(decode("#-1 x").is_err());
}

#[test]
fn decode_rejects_oversized_index() {
    assert!(decode("#2147483648 big").is_err());
    assert!(decode("#99999999999999999999 huge").is_err());
}
