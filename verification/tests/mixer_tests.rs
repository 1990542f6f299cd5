use raw_util::mixer::{Mixer, PlayCommand};

fn cmd(asset: usize, limit: usize, clear_all: bool) -> PlayCommand<u8> {
    PlayCommand { asset, limit, vol: 1, music: false, clear_all }
}

#[test]
fn start_appends_voices() {
    let mut m: Mixer<u8> = Mixer::new();
    m.start(cmd(0, 0, false));
    m.start(cmd(1, 0, false));
    assert_eq!(m.voices.len(), 2);
    assert_eq!(m.count_active(0), 1);
    assert_eq!(m.count_active(1), 1);
    assert_eq!(m.voices[1].n, 0);
    assert!(!m.voices[1].free);
}

#[test]
fn limit_caps_voices_of_a_sound() {
    let mut m: Mixer<u8> = Mixer::new();
    m.start(cmd(3, 2, false));
    m.start(cmd(3, 2, false));
    m.start(cmd(3, 2, false));
    assert_eq!(m.count_active(3), 2);
    assert_eq!(m.voices.len(), 2);
    m.start(cmd(3, 0, false));
    assert_eq!(m.count_active(3), 3);
}

#[test]
fn clear_all_drops_voices_first() {
    let mut m: Mixer<u8> = Mixer::new();
    m.start(cmd(0, 0, false));
    m.start(cmd(1, 0, false));
    m.start(cmd(2, 0, true));
    assert_eq!(m.voices.len(), 1);
    assert_eq!(m.voices[0].com.asset, 2);
}

#[test]
fn tick_plays_then_frees_and_slot_is_reused() {
    let mut m: Mixer<u8> = Mixer::new();
    m.start(cmd(0, 0, false));
    m.start(cmd(1, 0, false));
    let lens = [1usize, 3];
    assert_eq!(m.tick(&lens), vec![(0, 0), (1, 0)]);
    assert_eq!(m.tick(&lens), vec![(1, 1)]);
    assert!(m.voices[0].free);
    assert_eq!(m.voices[0].n, 2);
    assert_eq!(m.count_active(0), 0);
    m.start(cmd(1, 0, false));
    assert_eq!(m.voices.len(), 2);
    assert_eq!(m.voices[0].com.asset, 1);
    assert_eq!(m.tick(&lens), vec![(0, 0), (1, 2)]);
    assert_eq!(m.tick(&lens), vec![(0, 1)]);
    assert!(m.voices[1].free);
}
