use openrdc_host::backends::{FrameMeta, FrameStore};

fn meta(created: u64) -> FrameMeta {
    FrameMeta {
        monitor_id: "m0".into(),
        source_width: 1920,
        source_height: 1080,
        output_width: 1280,
        output_height: 720,
        scale_num: 1280,
        scale_den: 1920,
        created,
    }
}

/// The host's floating-point mapping: `floor(x / scale)` per axis.
fn scaled(m: &FrameMeta, x: u32, y: u32) -> (u32, u32) {
    let s = m.scale_num as f64 / m.scale_den as f64;
    ((x as f64 / s).floor() as u32, (y as f64 / s).floor() as u32)
}

fn to_native(m: &FrameMeta, x: u32, y: u32) -> Option<(u32, u32)> {
    FrameStore::to_native(m, x, y, scaled(m, x, y))
}

#[test]
fn transform_roundtrip() {
    let m = FrameMeta {
        monitor_id: "m0".into(),
        source_width: 1920,
        source_height: 1080,
        output_width: 1280,
        output_height: 720,
        scale_num: 1280,
        scale_den: 1920,
        created: 0,
    };
    assert_eq!(to_native(&m, 640, 360), Some((960, 540)));
    assert_eq!(to_native(&m, 1280, 0), None);
}

#[test]
fn to_native_floors_and_bounds() {
    let m = meta(0);
    assert_eq!(to_native(&m, 0, 0), Some((0, 0)));
    assert_eq!(to_native(&m, 1, 1), Some((1, 1)));
    assert_eq!(to_native(&m, 1279, 719), Some((1918, 1078)));
    assert_eq!(to_native(&m, 0, 720), None);
    let unscaled = FrameMeta { output_width: 1920, output_height: 1080, scale_num: 1920, ..meta(0) };
    assert_eq!(to_native(&unscaled, 1919, 1079), Some((1919, 1079)));
}

#[test]
fn to_native_takes_the_floating_point_floor() {
    // 1280x720 captured at width 352: 33 / fl(0.275) is just below 120.
    let m = FrameMeta {
        monitor_id: "m0".into(),
        source_width: 1280,
        source_height: 720,
        output_width: 352,
        output_height: 198,
        scale_num: 352,
        scale_den: 1280,
        created: 0,
    };
    assert_eq!(to_native(&m, 33, 33), Some((119, 119)));
    // The scaled point is checked against the source.
    assert_eq!(FrameStore::to_native(&m, 1, 1, (1280, 0)), None);
    assert_eq!(FrameStore::to_native(&m, 1, 1, (1279, 719)), Some((1279, 719)));
}

#[test]
fn stored_frame_is_found_until_it_expires() {
    let mut s = FrameStore::new();
    let id = s.insert(meta(1_000), 1_000);
    assert_eq!(id.len(), 36);
    let b = id.as_bytes();
    assert_eq!((b[8], b[13], b[14], b[18], b[23]), (b'-', b'-', b'4', b'-', b'-'));
    assert!(matches!(b[19], b'8' | b'9' | b'a' | b'b'));
    assert!(id.chars().all(|c| c == '-' || c.is_ascii_digit() || ('a'..='f').contains(&c)));
    let got = s.get(&id, 1_000 + 59_999).unwrap();
    assert_eq!(got.output_width, 1280);
    assert_eq!(got.monitor_id, "m0");
    assert!(s.get(&id, 1_000 + 60_000).is_none());
    // Expired entries are dropped on lookup: even an earlier clock cannot
    // bring the frame back.
    assert!(s.get(&id, 1_000).is_none());
}

#[test]
fn unknown_frame_is_none() {
    let mut s = FrameStore::new();
    assert!(s.get("00000000-0000-0000-0000-000000000000", 0).is_none());
}

#[test]
fn store_keeps_at_most_32_frames() {
    let mut s = FrameStore::new();
    let mut ids = Vec::new();
    for i in 0..40u64 {
        ids.push(s.insert(meta(i), i));
    }
    let live = ids.iter().filter(|id| s.get(id, 40).is_some()).count();
    assert_eq!(live, 32);
    // The newest frame is always kept.
    assert!(s.get(ids.last().unwrap(), 40).is_some());
}

#[test]
fn expired_frames_make_room() {
    let mut s = FrameStore::new();
    let mut old = Vec::new();
    for i in 0..32u64 {
        old.push(s.insert(meta(0), i));
    }
    let fresh = s.insert(meta(70_000), 70_000);
    assert!(s.get(&fresh, 70_000).is_some());
    assert!(old.iter().all(|id| s.get(id, 70_000).is_none()));
}

#[test]
fn default_store_is_empty() {
    let mut s = FrameStore::default();
    assert!(s.get("00000000-0000-0000-0000-000000000000", 0).is_none());
    let id = s.insert(meta(10), 10);
    assert_eq!(s.get(&id, 60_009).map(|m| m.output_width), Some(1280));
    assert!(s.get(&id, 60_010).is_none());
}

#[test]
fn no_eviction_below_32_live_frames() {
    let mut s = FrameStore::new();
    let mut ids = Vec::new();
    for i in 0..32u64 {
        ids.push(s.insert(meta(i), i));
    }
    assert!(ids.iter().all(|id| s.get(id, 40).is_some()));
}
