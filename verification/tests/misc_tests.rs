use raw_util::signal::{decode_pcm16_le, is_mono_pcm16};
use raw_util::MyDirEntry;
use std::path::PathBuf;
use raw_util::rng::seed_from_nanos;
use raw_util::{ivec2, khash_next, random_seed, ExpectWith, UnwrapMut, UnwrapRef};

#[test]
fn ivec2_arithmetic() {
    let a = ivec2(3, -4);
    let b = ivec2(1, 2);
    assert_eq!(a.sub(b), ivec2(2, -6));
    assert_eq!(a.add(b), ivec2(4, -2));
    assert_eq!(a.dot(&a), 25);
    assert_eq!(a.dot(&b), -5);
}

#[test]
fn khash_known_values() {
    assert_eq!(khash_next(0), 1739749167);
    assert_eq!(khash_next(1), 150776505);
    assert_eq!(khash_next(12345), 3826328255);
}

#[test]
fn seed_from_clock_reading() {
    assert_eq!(seed_from_nanos(None), 1);
    assert_eq!(seed_from_nanos(Some(5)), 5);
    assert_eq!(seed_from_nanos(Some((1u128 << 32) + 7)), 7);
    let _ = random_seed();
}

#[test]
fn option_and_result_helpers() {
    let o: Option<u8> = Some(3);
    assert_eq!(o.expect_with(|| "missing".to_string()), 3);
    let r: Result<u8, ()> = Ok(4);
    assert_eq!(ExpectWith::<u8, String>::expect_with(r, || "missing".to_string()), 4);

    let mut o2: Option<u8> = Some(1);
    *o2.unwrap_mut() = 9;
    assert_eq!(o2, Some(9));
    let mut r2: Result<u8, ()> = Ok(1);
    *r2.unwrap_mut() = 8;
    assert_eq!(r2, Ok(8));

    let o3: Option<u8> = Some(2);
    assert_eq!(*o3.unwrap_ref(), 2);
    let r3: Result<u8, ()> = Ok(6);
    assert_eq!(*r3.unwrap_ref(), 6);
}

#[test]
fn dir_entry_from_parts() {
    let e = MyDirEntry::from_parts(
        PathBuf::from("data/a.wav"),
        Some(false),
        Some("a".to_string()),
        Some("wav".to_string()),
    )
    .unwrap();
    assert_eq!(e.path, PathBuf::from("data/a.wav"));
    assert!(!e.is_dir);
    assert_eq!(e.stem, "a");
    assert_eq!(e.extension, "wav");

    let d = MyDirEntry::from_parts(PathBuf::from("data"), Some(true), Some("data".to_string()), None).unwrap();
    assert!(d.is_dir);
    assert_eq!(d.extension, "");

    assert!(MyDirEntry::from_parts(PathBuf::from("x"), None, None, None).is_none());
}

#[test]
fn decode_pcm16_samples() {
    let bytes = [0x01u8, 0x00, 0xff, 0xff, 0x00, 0x80, 0xff, 0x7f, 0x05];
    assert_eq!(decode_pcm16_le(&bytes), vec![1i16, -1, -32768, 32767]);
    assert_eq!(decode_pcm16_le(&[]), Vec::<i16>::new());
}

#[test]
fn only_mono_16_bit_loads() {
    assert!(is_mono_pcm16(1, 16));
    assert!(!is_mono_pcm16(2, 16));
    assert!(!is_mono_pcm16(1, 8));
}

#[test]
fn pcm16_width_check() {
    assert!(raw_util::signal::is_pcm16(16));
    assert!(!raw_util::signal::is_pcm16(8));
}

#[test]
fn khash_distinct_states_step_apart() {
    let mut seen = std::collections::HashSet::new();
    for x in 0u32..5000 {
        assert!(seen.insert(khash_next(x)));
    }
}
