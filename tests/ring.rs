use sensor_node::page::{page_body, PAGE_FOOTER, PAGE_HEADER, RENDER_ERROR_PREFIX};
use sensor_node::ring::{extract_channel, Sample, TelemetryRing, CHANNELS};
use sensor_node::shared::SharedTelemetry;

fn sample(time: i64, a: i32, b: i32) -> Sample {
    Sample { time, readings: [a, b] }
}

#[test]
fn full_ring_evicts_oldest() {
    let (a, b, c, d) = (sample(0, 1, 1), sample(1, 2, 2), sample(2, 3, 3), sample(3, 4, 4));
    let mut ring = TelemetryRing::new(3);
    for s in [a, b, c, d] {
        ring.push(s);
    }
    assert_eq!(ring.len(), 3);
    assert_eq!(ring.capacity(), 3);
    assert_eq!(ring.snapshot(), vec![b, c, d]);
}

#[test]
fn pushing_capacity_plus_k_keeps_newest() {
    let mut ring = TelemetryRing::new(5);
    for t in 0..12 {
        ring.push(sample(t, t as i32, 0));
    }
    let snap = ring.snapshot();
    assert_eq!(snap.len(), 5);
    let times: Vec<i64> = snap.iter().map(|s| s.time).collect();
    assert_eq!(times, vec![7, 8, 9, 10, 11]);
}

#[test]
fn ring_below_capacity_keeps_all() {
    let mut ring = TelemetryRing::new(4);
    ring.push(sample(5, 1, 2));
    ring.push(sample(6, 3, 4));
    assert_eq!(ring.len(), 2);
    assert_eq!(ring.snapshot(), vec![sample(5, 1, 2), sample(6, 3, 4)]);
}

#[test]
fn ring_of_one() {
    let mut ring = TelemetryRing::new(1);
    ring.push(sample(1, 1, 1));
    ring.push(sample(2, 2, 2));
    assert_eq!(ring.snapshot(), vec![sample(2, 2, 2)]);
}

#[test]
fn empty_snapshot_is_empty() {
    let ring = TelemetryRing::new(8);
    assert_eq!(ring.len(), 0);
    assert!(ring.snapshot().is_empty());
    let shared = SharedTelemetry::new(8);
    assert!(shared.snapshot().is_empty());
}

#[test]
fn extract_channel_end_to_end() {
    let mut ring = TelemetryRing::new(2048);
    ring.push(sample(0, 20000, 50000));
    ring.push(sample(2, 21500, 49000));
    let series = extract_channel(&ring.snapshot(), 0);
    assert_eq!(series, vec![(0, 20000), (2, 21500)]);
    let as_units: Vec<(i64, f32)> = series.iter().map(|&(t, v)| (t, v as f32 / 1000.0)).collect();
    assert_eq!(as_units, vec![(0, 20.0), (2, 21.5)]);
    let humidity = extract_channel(&ring.snapshot(), 1);
    assert_eq!(humidity, vec![(0, 50000), (2, 49000)]);
    assert_eq!(CHANNELS, 2);
}

#[test]
fn extract_channel_of_nothing() {
    assert!(extract_channel(&vec![], 1).is_empty());
}

#[test]
fn shared_ring_interleaved_readers_stay_bounded() {
    let shared = SharedTelemetry::new(3);
    let mut pushed: Vec<Sample> = Vec::new();
    for t in 0..10 {
        let s = sample(t, t as i32, -(t as i32));
        shared.push(s);
        pushed.push(s);
        let snap = shared.snapshot();
        assert!(snap.len() <= 3);
        let start = pushed.len() - snap.len();
        assert_eq!(snap, pushed[start..].to_vec());
        assert_eq!(snap.last(), Some(&s));
    }
}

#[test]
fn page_with_chart() {
    let body = page_body(&Ok("<svg/>".to_string()));
    assert_eq!(body, format!("{}<svg/>{}", PAGE_HEADER, PAGE_FOOTER));
    assert_eq!(
        body,
        "<html><head><meta charset=\"UTF-8\"></head><body><svg/></body></html>"
    );
}

#[test]
fn page_with_render_error() {
    let body = page_body(&Err("no data".to_string()));
    assert_eq!(
        body,
        "<html><head><meta charset=\"UTF-8\"></head><body>Error creating svg plot: no data</body></html>"
    );
    assert!(body.contains(RENDER_ERROR_PREFIX));
}
