use std::io::Read;

use rdns::blacklist::Blacklist;
use rdns::fingerprint::fingerprint;
use rdns::pipeline::{
    auth_header_value, finish_entry, intercept, prepare_flush, render_line, QueryAction,
    TelemetryBatch, TelemetryEntry, write_endpoint_path,
};

fn entry(blocked: bool) -> TelemetryEntry {
    finish_entry(
        1700000000123,
        1700000000140,
        b"192.168.1.7".to_vec(),
        b"udp".to_vec(),
        b"www.example.com.".to_vec(),
        b"A".to_vec(),
        b"No Error".to_vec(),
        blocked,
    )
}

#[test]
fn blocked_names_are_answered_without_delegation() {
    let mut bl = Blacklist::new();
    bl.merge_source(&vec![fingerprint(&b"ads.example.com.".to_vec())]);
    assert_eq!(
        intercept(&bl, &b"ads.example.com.".to_vec()),
        QueryAction::RespondBlocked
    );
    assert_eq!(
        intercept(&bl, &b"good.example.com.".to_vec()),
        QueryAction::Delegate
    );
}

#[test]
fn duration_is_elapsed_time_clamped_at_zero() {
    let e = entry(false);
    assert_eq!(e.timestamp_ms, 1700000000123);
    assert_eq!(e.duration_ms, 17);
    let backwards = finish_entry(
        10,
        5,
        Vec::new(),
        Vec::new(),
        Vec::new(),
        Vec::new(),
        Vec::new(),
        false,
    );
    assert_eq!(backwards.duration_ms, 0);
}

#[test]
fn each_handled_query_appends_exactly_one_record() {
    let mut batch = TelemetryBatch::new();
    assert_eq!(batch.len(), 0);
    batch.push(entry(false));
    assert_eq!(batch.len(), 1);
    batch.push(entry(true));
    assert_eq!(batch.len(), 2);
}

#[test]
fn taking_the_batch_leaves_it_empty() {
    let mut batch = TelemetryBatch::new();
    batch.push(entry(false));
    let taken = batch.take();
    assert_eq!(taken.len(), 1);
    assert_eq!(batch.len(), 0);
    assert!(batch.take().is_empty());
}

#[test]
fn line_encoding_is_exact() {
    let line = render_line(&entry(false));
    assert_eq!(
        String::from_utf8(line).unwrap(),
        "queries,src=192.168.1.7,protocol=udp,query=www.example.com.,type=A,\
         response_code=No\\ Error,blocked=false duration=17u 1700000000123\n"
    );
}

#[test]
fn blocked_sentinel_overrides_the_outcome_text() {
    let line = render_line(&entry(true));
    assert_eq!(
        String::from_utf8(line).unwrap(),
        "queries,src=192.168.1.7,protocol=udp,query=www.example.com.,type=A,\
         response_code=Blocked,blocked=true duration=17u 1700000000123\n"
    );
}

#[test]
fn line_encoding_of_zero_values() {
    let e = finish_entry(0, 0, b"::1".to_vec(), b"tcp".to_vec(), b"a.".to_vec(), b"AAAA".to_vec(), b"NXDomain".to_vec(), false);
    assert_eq!(
        String::from_utf8(render_line(&e)).unwrap(),
        "queries,src=::1,protocol=tcp,query=a.,type=AAAA,response_code=NXDomain,blocked=false duration=0u 0\n"
    );
}

#[test]
fn flushing_an_empty_batch_sends_nothing() {
    assert!(prepare_flush(&Vec::new()).is_none());
}

#[test]
fn flush_payload_is_the_gzipped_lines() {
    let entries = vec![entry(false), entry(true)];
    let payload = prepare_flush(&entries).unwrap();
    // gzip magic
    assert_eq!(&payload[0..2], &[0x1f, 0x8b]);
    let mut decoder = flate2::read::GzDecoder::new(payload.as_slice());
    let mut text = Vec::new();
    decoder.read_to_end(&mut text).unwrap();
    let mut expected = render_line(&entries[0]);
    expected.extend(render_line(&entries[1]));
    assert_eq!(text, expected);
}

#[test]
fn auth_header_is_the_bearer_scheme_plus_token() {
    assert_eq!(
        auth_header_value(&b"SECRET-REDACTED".to_vec()),
        b"Token SECRET-REDACTED".to_vec()
    );
}

#[test]
fn write_endpoint_carries_bucket_org_and_precision() {
    assert_eq!(
        write_endpoint_path(&b"dns".to_vec(), &b"home".to_vec()),
        b"api/v2/write?bucket=dns&org=home&precision=ms".to_vec()
    );
}
