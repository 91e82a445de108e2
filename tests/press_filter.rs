use press_stats::{Key, KeyAction, PressFilter};

const TPS: u64 = 1_000_000;

#[test]
fn first_press_only_cues() {
    let mut f = PressFilter::new(5);
    assert_eq!(f.on_key(Key::Z, true, 1_000_000, TPS), KeyAction::Cue);
    assert_eq!(f.prev_tm, 1_000_000);
}

#[test]
fn second_press_records_interval() {
    let mut f = PressFilter::new(5);
    f.on_key(Key::Z, true, 1_000_000, TPS);
    assert_eq!(f.on_key(Key::X, true, 1_250_000, TPS), KeyAction::CueAndRecord(250_000, false));
    f.on_key(Key::Z, false, 1_260_000, TPS);
    assert_eq!(f.release_z_tm, 1_260_000);
    assert_eq!(f.on_key(Key::Z, true, 1_500_000, TPS), KeyAction::CueAndRecord(250_000, true));
}

#[test]
fn chattering_press_is_not_recorded() {
    let mut f = PressFilter::new(0);
    f.on_key(Key::X, true, 1_000_000, TPS);
    f.on_key(Key::X, false, 1_100_000, TPS);
    // released 30 ms before: not more than the threshold
    assert_eq!(f.on_key(Key::X, true, 1_130_000, TPS), KeyAction::Cue);
    f.on_key(Key::X, false, 1_140_000, TPS);
    assert_eq!(f.on_key(Key::X, true, 1_170_001, TPS), KeyAction::CueAndRecord(40_001, false));
}

#[test]
fn reset_forgets_previous_press() {
    let mut f = PressFilter::new(0);
    f.on_key(Key::Z, true, 1_000_000, TPS);
    assert_eq!(f.on_key(Key::Reset, true, 1_100_000, TPS), KeyAction::ExportAndReset);
    assert_eq!(f.prev_tm, 0);
    assert_eq!(f.on_key(Key::Reset, false, 1_100_000, TPS), KeyAction::Ignore);
    assert_eq!(f.on_key(Key::X, true, 2_000_000, TPS), KeyAction::Cue);
    assert_eq!(f.on_key(Key::Other, true, 2_000_000, TPS), KeyAction::Unassigned);
    assert_eq!(f.on_key(Key::Other, false, 2_000_000, TPS), KeyAction::Ignore);
}
