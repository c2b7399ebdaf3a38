use csub::codec::decode;
use csub::codec::encode;
use csub::lang::lang_code_to_name;
use csub::probe::filter_subtitles;
use csub::probe::parse_probe_output;
use csub::probe::StreamInfo;
use csub::probe::StreamTags;

fn track(index: i32, codec_type: &str, language: &str, title: Option<&str>) -> StreamInfo {
    StreamInfo {
        index,
        codec_type: codec_type.to_string(),
        tags: StreamTags {
            language: language.to_string(),
            title: title.map(|t| t.to_string()),
        },
    }
}

#[test]
fn parse_full_report() {
    let report = r#"
    {
        "streams": [
            { "index": 0, "codec_type": "video",
              "width": 1920, "disposition": { "default": 1 },
              "tags": { "language": "und" } },
            { "index": 1, "codec_type": "audio",
              "tags": { "language": "eng", "title": "Stereo" } },
            { "index": 2, "codec_type": "subtitle",
              "tags": { "language": "chi" } },
            { "index": 3, "codec_type": "subtitle",
              "tags": { "language": "eng", "title": "Commentary" } }
        ],
        "format": { "duration": "12.000000", "probe_score": 100 }
    }"#;
    let streams = parse_probe_output(report).unwrap();
    assert_eq!(streams.len(), 4);
    assert_eq!(streams[2].index, 2);
    assert_eq!(streams[2].codec_type, "subtitle");
    assert_eq!(streams[2].tags.language, "chi");
    assert!(streams[2].tags.title.is_none());
    assert_eq!(streams[3].index, 3);
    assert_eq!(streams[3].tags.title.as_deref(), Some("Commentary"));
}

#[test]
fn probe_example_end_to_end() {
    let report = r#"{"streams":[
        {"index":2,"codec_type":"subtitle","tags":{"language":"chi"}},
        {"index":3,"codec_type":"subtitle","tags":{"language":"eng","title":"Commentary"}}]}"#;
    let streams = parse_probe_output(report).unwrap();
    let subs = filter_subtitles(streams);
    assert_eq!(subs.len(), 2);
    let mut labels = Vec::new();
    for s in &subs {
        let language = lang_code_to_name(&s.tags.language);
        labels.push(encode(s, &language));
    }
    assert_eq!(labels[0], "#2 Chinese");
    assert_eq!(labels[1], "#3 English - Commentary");
    assert_eq!(decode(&labels[0]), Ok(2));
    assert_eq!(decode(&labels[1]), Ok(3));
}

#[test]
fn filter_keeps_only_subtitles_in_order() {
    let streams = vec![
        track(0, "video", "und", None),
        track(1, "audio", "eng", None),
        track(2, "subtitle", "chi", None),
        track(3, "audio", "fre", None),
        track(4, "subtitle", "eng", Some("SDH")),
        track(5, "attachment", "", None),
    ];
    let subs = filter_subtitles(streams);
    assert_eq!(subs.len(), 2);
    assert_eq!(subs[0].index, 2);
    assert_eq!(subs[1].index, 4);
}

#[test]
fn filter_of_no_subtitles_is_empty() {
    let subs = filter_subtitles(vec![track(0, "video", "und", None)]);
    assert!(subs.is_empty());
}

#[test]
fn parse_track_without_tags() {
    let report = r#"{"streams":[{"index":5,"codec_type":"video"}]}"#;
    let streams = parse_probe_output(report).unwrap();
    assert_eq!(streams[0].index, 5);
    assert_eq!(streams[0].tags.language, "");
    assert!(streams[0].tags.title.is_none());
}

#[test]
fn parse_empty_streams() {
    let streams = parse_probe_output(r#"{"streams":[]}"#).unwrap();
    assert!(streams.is_empty());
}

#[test]
fn parse_unescapes_strings() {
    let report = r#"{"streams":[{"index":1,"codec_type":"subtitle",
        "tags":{"language":"eng","title":"a\"b\\cA é\n"}}]}"#;
    let streams = parse_probe_output(report).unwrap();
    assert_eq!(streams[0].tags.title.as_deref(), Some("a\"b\\cA \u{e9}\n"));
}

#[test]
fn parse_unescapes_code_point() {
    let report = "{\"streams\":[{\"index\":1,\"codec_type\":\"subtitle\",
        \"tags\":{\"language\":\"eng\",\"title\":\"\\u0041\\u00e9\"}}]}";
    let streams = parse_probe_output(report).unwrap();
    assert_eq!(streams[0].tags.title.as_deref(), Some("A\u{e9}"));
}

#[test]
fn parse_unescapes_surrogate_pair() {
    let report = r#"{"streams":[{"index":1,"codec_type":"subtitle",
        "tags":{"language":"eng","title":"🎬"}}]}"#;
    let streams = parse_probe_output(report).unwrap();
    assert_eq!(streams[0].tags.title.as_deref(), Some("\u{1f3ac}"));
}

#[test]
fn parse_rejects_malformed_text() {
    assert!(parse_probe_output("").is_err());
    assert!(parse_probe_output("not a report").is_err());
    assert!(parse_probe_output("{").is_err());
    assert!(parse_probe_output(r#"{"streams":[}"#).is_err());
    assert!(parse_probe_output(r#"{"streams":[]} trailing"#).is_err());
}

#[test]
fn parse_rejects_missing_streams() {
    assert!(parse_probe_output("{}").is_err());
    assert!(parse_probe_output(r#"{"format":{}}"#).is_err());
    assert!(parse_probe_output(r#"{"streams":{}}"#).is_err());
}

#[test]
fn parse_rejects_bad_track_entries() {
    // no index
    assert!(parse_probe_output(r#"{"streams":[{"codec_type":"video"}]}"#).is_err());
    // no codec_type
    assert!(parse_probe_output(r#"{"streams":[{"index":0}]}"#).is_err());
    // index is no integer
    assert!(parse_probe_output(r#"{"streams":[{"index":"2","codec_type":"video"}]}"#).is_err());
    assert!(parse_probe_output(r#"{"streams":[{"index":2.5,"codec_type":"video"}]}"#).is_err());
    // leading zero
    assert!(parse_probe_output(r#"{"streams":[{"index":01,"codec_type":"video"}]}"#).is_err());
    // repeated member
    assert!(
        parse_probe_output(r#"{"streams":[{"index":1,"index":2,"codec_type":"video"}]}"#).is_err()
    );
    // index too large for a track index
    assert!(
        parse_probe_output(r#"{"streams":[{"index":3000000000,"codec_type":"video"}]}"#).is_err()
    );
}

#[test]
fn parse_skips_unknown_values() {
    let report = r#"{
        "programs": [ { "nested": [1, -2.5e3, true, false, null, "s"] } ],
        "streams": [ { "index": 9, "codec_type": "subtitle", "extra": {"a": []},
                       "tags": { "language": "jpn", "byte_rate": 12 } } ]
    }"#;
    let streams = parse_probe_output(report).unwrap();
    assert_eq!(streams.len(), 1);
    assert_eq!(streams[0].index, 9);
    assert_eq!(streams[0].tags.language, "jpn");
}
