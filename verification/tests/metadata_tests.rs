use yama::errors::YamaError;
use yama::metadata::VideoMetadata;

fn record(duration: u64, current: u64, watched: bool) -> VideoMetadata {
    VideoMetadata { duration, current, watched }
}

#[test]
fn persist_exact_text() {
    let m = record(1000, 0, false);
    assert_eq!(m.persist(), "duration=1000\ncurrent=0\nwatched=false\n");
    let w = record(5400000, 5400000, true);
    assert_eq!(w.persist(), "duration=5400000\ncurrent=5400000\nwatched=true\n");
}

#[test]
fn parse_exact_text() {
    let r = VideoMetadata::parse("duration=1000\ncurrent=250\nwatched=false\n");
    assert_eq!(r, Ok(record(1000, 250, false)));
    let r = VideoMetadata::parse("duration=0\ncurrent=0\nwatched=true\n");
    assert_eq!(r, Ok(record(0, 0, true)));
}

#[test]
fn round_trip_unwatched() {
    let m = record(3600000, 125400, false);
    assert_eq!(VideoMetadata::parse(&m.persist()), Ok(m));
}

#[test]
fn round_trip_watched() {
    let m = record(3600000, 3600000, true);
    assert_eq!(VideoMetadata::parse(&m.persist()), Ok(m));
}

#[test]
fn round_trip_extremes() {
    for m in [
        record(0, 0, false),
        record(u64::MAX, u64::MAX, true),
        record(u64::MAX, 0, false),
        record(1, 1, true),
    ] {
        assert_eq!(VideoMetadata::parse(&m.persist()), Ok(m));
    }
}

#[test]
fn parse_rejects_garbage() {
    for bad in [
        "",
        "duration=",
        "duration=12",
        "duration=12\ncurrent=3\nwatched=",
        "duration=12\ncurrent=3\nwatched=maybe\n",
        "duration=12\ncurrent=3\nwatched=true",
        "duration=12\ncurrent=3\nwatched=true\nextra",
        "Duration=12\ncurrent=3\nwatched=true\n",
        "duration=a2\ncurrent=3\nwatched=true\n",
        "duration = 12\ncurrent=3\nwatched=true\n",
    ] {
        assert_eq!(
            VideoMetadata::parse(bad),
            Err(YamaError::CorruptMetadata),
            "accepted: {bad:?}"
        );
    }
}

#[test]
fn parse_rejects_leading_zero() {
    let r = VideoMetadata::parse("duration=007\ncurrent=0\nwatched=false\n");
    assert_eq!(r, Err(YamaError::CorruptMetadata));
}

#[test]
fn parse_rejects_overflow() {
    // One past u64::MAX.
    let r = VideoMetadata::parse("duration=18446744073709551616\ncurrent=0\nwatched=false\n");
    assert_eq!(r, Err(YamaError::CorruptMetadata));
    // Exactly u64::MAX still fits.
    let r = VideoMetadata::parse("duration=18446744073709551615\ncurrent=0\nwatched=false\n");
    assert_eq!(r, Ok(record(u64::MAX, 0, false)));
}

#[test]
fn load_missing_file() {
    assert_eq!(
        VideoMetadata::load(None),
        Err(YamaError::NotFound)
    );
    assert_eq!(
        VideoMetadata::load(Some("duration=9\ncurrent=1\nwatched=false\n")),
        Ok(record(9, 1, false))
    );
}

#[test]
fn create_default_is_unwatched_at_zero() {
    let m = VideoMetadata::create_default(123456);
    assert_eq!(m, record(123456, 0, false));
}

#[test]
fn format_zero() {
    assert_eq!(VideoMetadata::format_duration(0), "0:00");
}

#[test]
fn format_h_mm_ss() {
    assert_eq!(VideoMetadata::format_duration(3661 * 1000), "1:01:01");
}

#[test]
fn format_truncates_fractions() {
    let ms = (59.9_f64 * 1000.0) as u64;
    assert_eq!(VideoMetadata::format_duration(ms), "0:59");
}

#[test]
fn format_more_shapes() {
    assert_eq!(VideoMetadata::format_duration(3600 * 1000), "1:00:00");
    assert_eq!(VideoMetadata::format_duration(600 * 1000), "10:00");
    assert_eq!(VideoMetadata::format_duration(59 * 1000 + 999), "0:59");
    assert_eq!(VideoMetadata::format_duration(36061 * 1000), "10:01:01");
    assert_eq!(VideoMetadata::format_duration(90 * 1000), "1:30");
    assert_eq!(VideoMetadata::format_duration(100 * 3600 * 1000), "100:00:00");
}
