use riamify::app::{effective_speed, total_delay};
use riamify::settings::{ResamplingQuality, Settings, SlotType};
use riamify::{Preset, Presets};

fn preset(name: &str) -> Preset {
    Preset { name: name.to_string(), speed: 100, pitch: 100, slot: 0, delay: 0, description: String::new() }
}

#[test]
fn presets_len_and_names() {
    let p = Presets { presets: vec![preset("れいむ"), preset("まりさ")] };
    assert_eq!(p.len(), 2);
    assert!(!p.is_empty());
    assert_eq!(p.name(0), "れいむ");
    assert_eq!(p.name(1), "まりさ");
    assert_eq!(p.name(2), "");
    assert!(Presets::default().is_empty());
    assert_eq!(Presets::default().len(), 0);
}

#[test]
fn selecting_a_preset() {
    let p = Presets { presets: vec![preset("a"), preset("b")] };
    assert_eq!(p.select(0, 1), 1);
    assert_eq!(p.select(1, 2), 1);
    assert_eq!(p.select(1, -1), -1);
}

#[test]
fn speeds_and_delays() {
    assert_eq!(effective_speed(100, 150), 150);
    assert_eq!(effective_speed(120, 50), 60);
    assert_eq!(effective_speed(-150, 1), -1);
    assert_eq!(total_delay(None, 100), 22150);
    assert_eq!(total_delay(Some(1000), -10), 990);
}

#[test]
fn settings_defaults() {
    assert_eq!(ResamplingQuality::default(), ResamplingQuality::Medium);
    assert_eq!(SlotType::default(), SlotType::ExternalDll);
    let mut s = Settings::default();
    assert!(!s.bouyomi_mode());
    s.bouyomi = Some(true);
    assert!(s.bouyomi_mode());
    assert!(s.custom_patterns().is_empty());
}
