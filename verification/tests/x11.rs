use openrdc_host::backends::x11::{
    bgrx_to_rgba, captures_root, crtc_search_step, find_monitor, list_outputs, map_button,
    map_key, map_modifier, monitors_or_root, press_plan, KeyCode, KeyStep, ModifierKey, MouseButton,
    OutputProbe,
};
use openrdc_host::backends::MonitorInfo;

fn mon(id: &str, w: u32, h: u32, primary: bool) -> MonitorInfo {
    MonitorInfo { monitor_id: id.to_string(), source_width: w, source_height: h, is_primary: primary }
}

#[test]
fn buttons_map() {
    assert_eq!(map_button("left"), Ok(MouseButton::Left));
    assert_eq!(map_button("right"), Ok(MouseButton::Right));
    assert_eq!(map_button("middle"), Ok(MouseButton::Middle));
    assert_eq!(map_button("Left"), Err("unknown button".to_string()));
}

#[test]
fn keys_map() {
    assert_eq!(map_key("Enter"), Ok(KeyCode::Return));
    assert_eq!(map_key("Tab"), Ok(KeyCode::Tab));
    assert_eq!(map_key("Up"), Ok(KeyCode::UpArrow));
    assert_eq!(map_key("F4"), Ok(KeyCode::F4));
    assert_eq!(map_key("a"), Ok(KeyCode::Unicode('a')));
    assert_eq!(map_key("Nope"), Err("unknown key: Nope".to_string()));
    assert_eq!(map_key(""), Err("unknown key: ".to_string()));
    // One character but two bytes: not a single-byte key.
    assert_eq!(map_key("é"), Err("unknown key: é".to_string()));
}

#[test]
fn modifiers_map() {
    assert_eq!(map_modifier("ctrl"), Ok(ModifierKey::Control));
    assert_eq!(map_modifier("shift"), Ok(ModifierKey::Shift));
    assert_eq!(map_modifier("alt"), Ok(ModifierKey::Alt));
    assert_eq!(map_modifier("meta"), Err("unknown modifier: meta".to_string()));
}

#[test]
fn outputs_become_monitors() {
    let outs = vec![
        OutputProbe { crtc: Some(5), crtc_size: Some((1920, 1080)) },
        OutputProbe { crtc: Some(0), crtc_size: None },
        OutputProbe { crtc: None, crtc_size: None },
        OutputProbe { crtc: Some(7), crtc_size: Some((0, 768)) },
        OutputProbe { crtc: Some(9), crtc_size: Some((1024, 768)) },
    ];
    let ms = list_outputs(&outs);
    assert_eq!(ms.len(), 2);
    assert_eq!(ms[0].monitor_id, "m0");
    assert_eq!((ms[0].source_width, ms[0].source_height, ms[0].is_primary), (1920, 1080, true));
    assert_eq!(ms[1].monitor_id, "m4");
    assert_eq!((ms[1].source_width, ms[1].source_height, ms[1].is_primary), (1024, 768, false));
}

#[test]
fn no_outputs_fall_back_to_root() {
    let ms = monitors_or_root(Vec::new(), 800, 600);
    assert_eq!(ms.len(), 1);
    assert_eq!(ms[0].monitor_id, "m0");
    assert_eq!((ms[0].source_width, ms[0].source_height, ms[0].is_primary), (800, 600, true));
    let kept = monitors_or_root(vec![mon("m1", 10, 20, false)], 800, 600);
    assert_eq!(kept.len(), 1);
    assert_eq!(kept[0].monitor_id, "m1");
}

#[test]
fn root_capture_and_monitor_lookup() {
    assert!(captures_root(None));
    assert!(captures_root(Some("m0")));
    assert!(!captures_root(Some("m1")));
    let ms = vec![mon("m0", 1, 1, true), mon("m2", 2, 2, false), mon("m2", 3, 3, false)];
    assert_eq!(find_monitor(&ms, "m2"), Some(1));
    assert_eq!(find_monitor(&ms, "m9"), None);
}

#[test]
fn crtc_search_counts_active_outputs() {
    assert_eq!(crtc_search_step(0, 1, 0), (false, 0));
    assert_eq!(crtc_search_step(0, 1, 3), (false, 1));
    assert_eq!(crtc_search_step(1, 1, 4), (true, 1));
}

#[test]
fn bgrx_becomes_rgba() {
    let data = vec![1u8, 2, 3, 0, 10, 20, 30, 0];
    assert_eq!(bgrx_to_rgba(&data, 2, 1), Ok(vec![3, 2, 1, 255, 30, 20, 10, 255]));
    // Three bytes per pixel are refused.
    assert_eq!(bgrx_to_rgba(&[1, 2, 3, 4, 5, 6], 2, 1), Err("unsupported depth".to_string()));
    // Wider pixels: only the first three bytes of each count.
    let wide = vec![1u8, 2, 3, 9, 9, 9, 9, 9];
    assert_eq!(bgrx_to_rgba(&wide, 1, 1), Ok(vec![3, 2, 1, 255]));
}

#[test]
fn press_holds_taps_and_releases_in_reverse() {
    let mods = vec!["ctrl".to_string(), "shift".to_string()];
    let steps = press_plan("Tab", &mods).unwrap();
    assert_eq!(
        steps,
        vec![
            KeyStep::Hold(ModifierKey::Control),
            KeyStep::Hold(ModifierKey::Shift),
            KeyStep::Tap(KeyCode::Tab),
            KeyStep::Release(ModifierKey::Shift),
            KeyStep::Release(ModifierKey::Control),
        ]
    );
    assert_eq!(press_plan("a", &vec![]).unwrap(), vec![KeyStep::Tap(KeyCode::Unicode('a'))]);
}

#[test]
fn press_plan_errors() {
    let (held, e) = press_plan("Nope", &vec!["ctrl".to_string()]).unwrap_err();
    assert!(held.is_empty());
    assert_eq!(e, "unknown key: Nope");
    let mods = vec!["alt".to_string(), "meta".to_string(), "ctrl".to_string()];
    let (held, e) = press_plan("Tab", &mods).unwrap_err();
    assert_eq!(held, vec![ModifierKey::Alt]);
    assert_eq!(e, "unknown modifier: meta");
}
