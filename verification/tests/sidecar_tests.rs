//! The sidecar metadata document: rendering, the sidecar path, and the
//! render/parse round trip.

use screen_recorder::AnalyticsPipeline;
use screen_recorder::Frame;
use screen_recorder::parse_sidecar;
use screen_recorder::render_sidecar;
use screen_recorder::sidecar_path;

fn solid_frame(v: u8, pixels: usize, timestamp: u64) -> Frame {
    let mut data = Vec::new();
    for _ in 0..pixels {
        data.push(v);
        data.push(v);
        data.push(v);
    }
    Frame { data, width: pixels as u32, height: 1, timestamp }
}

#[test]
fn sidecar_path_replaces_the_extension() {
    assert_eq!(
        sidecar_path("/v/ScreenRecordings/recording_20250102_030405.mkv"),
        "/v/ScreenRecordings/recording_20250102_030405.meta.json"
    );
    assert_eq!(sidecar_path("clip.mkv"), "clip.meta.json");
}

#[test]
fn sidecar_path_appends_when_there_is_no_extension() {
    assert_eq!(sidecar_path("/a/b/noext"), "/a/b/noext.meta.json");
    assert_eq!(sidecar_path("/a/.hidden"), "/a/.hidden.meta.json");
    // A dot before the last separator is not an extension.
    assert_eq!(sidecar_path("a.b/c"), "a.b/c.meta.json");
}

#[test]
fn rendered_document_has_the_expected_shape() {
    let mut p = AnalyticsPipeline::new();
    p.process_frame(&solid_frame(255, 2, 1_500_000_000));
    let doc = render_sidecar("/tmp/clip.mkv", &p.get_timeline_data());
    assert!(doc.starts_with("{\"video_path\":\"/tmp/clip.mkv\",\"entries\":["));
    assert!(doc.contains("\"time\":1.500000000"));
    assert!(doc.contains("\"colorDominance\":1.000000"));
    assert!(doc.contains("\"brightness\":1.000000"));
    assert!(doc.contains("\"audioLevel\":0.000000"));
    assert!(doc.contains("\"sceneChange\":false"));
    assert!(doc.ends_with("}]}"));
}

#[test]
fn rendered_document_is_valid_json() {
    let mut p = AnalyticsPipeline::new();
    p.process_frame(&solid_frame(10, 3, 250_000_000));
    p.process_frame(&solid_frame(200, 3, 500_000_000));
    let doc = render_sidecar("/tmp/clip.mkv", &p.get_timeline_data());
    let v: serde_json::Value = serde_json::from_str(&doc).unwrap();
    assert_eq!(v["video_path"], "/tmp/clip.mkv");
    let entries = v["entries"].as_array().unwrap();
    assert_eq!(entries.len(), 2);
    assert_eq!(entries[0]["time"].as_f64().unwrap(), 0.25);
    assert_eq!(entries[1]["sceneChange"].as_bool().unwrap(), true);
}

#[test]
fn reparsing_the_sidecar_gives_back_the_snapshot() {
    let mut p = AnalyticsPipeline::new();
    p.process_frame(&solid_frame(0, 5, 100));
    p.process_frame(&solid_frame(255, 5, 1_000_000_123));
    p.process_frame(&solid_frame(255, 5, 2_000_000_456));
    let snapshot = p.get_timeline_data();
    let doc = render_sidecar("/videos/session one.mkv", &snapshot);
    let (path, entries) = parse_sidecar(&doc).unwrap();
    assert_eq!(path, "/videos/session one.mkv");
    assert_eq!(entries, snapshot);
}

#[test]
fn round_trip_escapes_quotes_and_backslashes_in_the_path() {
    let p = AnalyticsPipeline::new();
    let snapshot = p.get_timeline_data();
    let tricky = "C:\\Users\\me\\\"clips\"\\v.mkv";
    let doc = render_sidecar(tricky, &snapshot);
    let (path, entries) = parse_sidecar(&doc).unwrap();
    assert_eq!(path, tricky);
    assert!(entries.is_empty());
}

#[test]
fn empty_timeline_renders_an_empty_list() {
    let doc = render_sidecar("/x.mkv", &Vec::new());
    assert_eq!(doc, "{\"video_path\":\"/x.mkv\",\"entries\":[]}");
    let (path, entries) = parse_sidecar(&doc).unwrap();
    assert_eq!(path, "/x.mkv");
    assert!(entries.is_empty());
}

#[test]
fn garbage_does_not_parse() {
    assert!(parse_sidecar("").is_none());
    assert!(parse_sidecar("{\"video_path\":\"x\"}").is_none());
    assert!(parse_sidecar("{\"video_path\":\"x\",\"entries\":[").is_none());
    assert!(parse_sidecar("{\"video_path\":\"x\",\"entries\":[]}trailing").is_none());
}

#[test]
fn out_of_range_numbers_do_not_parse() {
    // Seconds beyond what a nanosecond u64 can hold.
    let mut doc = String::from("{\"video_path\":\"x\",\"entries\":[");
    doc.push_str("{\"time\":99999999999.000000000,\"colorDominance\":0.000000,");
    doc.push_str("\"brightness\":0.000000,\"audioLevel\":0.000000,\"sceneChange\":false}]}");
    assert!(parse_sidecar(&doc).is_none());
    // A fraction with the wrong number of digits.
    let mut doc2 = String::from("{\"video_path\":\"x\",\"entries\":[");
    doc2.push_str("{\"time\":1.000000000,\"colorDominance\":0.00000,");
    doc2.push_str("\"brightness\":0.000000,\"audioLevel\":0.000000,\"sceneChange\":false}]}");
    assert!(parse_sidecar(&doc2).is_none());
}
