use yama::episode::{
    plan_generation, settle_extract, settle_probe, Episode, ProbeOutcome, SidecarLayout,
};
use yama::errors::YamaError;
use yama::metadata::VideoMetadata;

const GOOD: &str = "duration=5400000\ncurrent=90000\nwatched=false\n";

fn episode() -> Episode {
    Episode::new("/videos/show/ep1.mkv", 3, Some(GOOD)).unwrap()
}

#[test]
fn layout_paths() {
    let l = SidecarLayout::new("/videos/show/ep1.mkv", 3).unwrap();
    assert_eq!(l.name, "ep1.mkv");
    assert_eq!(l.dir, "/videos/show/.metadata/episode_3");
    assert_eq!(l.md_path, "/videos/show/.metadata/episode_3/ep1.md");
    assert_eq!(l.thumbnail_path, "/videos/show/.metadata/episode_3/thumbnail.jpg");
    assert_eq!(l.player_output, "/videos/show/ep1.md");
}

#[test]
fn layout_multi_digit_number() {
    let l = SidecarLayout::new("/videos/show/ep1.mkv", 42).unwrap();
    assert_eq!(l.dir, "/videos/show/.metadata/episode_42");
    assert_eq!(l.md_path, "/videos/show/.metadata/episode_42/ep1.md");
}

#[test]
fn layout_rejects_bad_paths() {
    assert!(matches!(
        SidecarLayout::new("ep1.mkv", 0),
        Err(YamaError::InvalidPath)
    ));
    assert!(matches!(
        SidecarLayout::new("/videos/show/", 0),
        Err(YamaError::InvalidPath)
    ));
}

#[test]
fn layout_extension_edges() {
    // A hidden file keeps its name whole; multiple extensions lose the last.
    let l = SidecarLayout::new("/d/.bashrc", 0).unwrap();
    assert_eq!(l.md_path, "/d/.metadata/episode_0/.bashrc.md");
    let l = SidecarLayout::new("/d/a.tar.gz", 1).unwrap();
    assert_eq!(l.md_path, "/d/.metadata/episode_1/a.tar.md");
    let l = SidecarLayout::new("/d/noext", 2).unwrap();
    assert_eq!(l.md_path, "/d/.metadata/episode_2/noext.md");
}

#[test]
fn new_builds_episode() {
    let e = episode();
    assert_eq!(e.name, "ep1.mkv");
    assert_eq!(e.path, "/videos/show/ep1.mkv");
    assert_eq!(e.number, 3);
    assert_eq!(e.md_path, "/videos/show/.metadata/episode_3/ep1.md");
    assert_eq!(e.thumbnail_path, "/videos/show/.metadata/episode_3/thumbnail.jpg");
    assert_eq!(e.metadata, VideoMetadata { duration: 5400000, current: 90000, watched: false });
}

#[test]
fn new_surfaces_errors() {
    assert!(matches!(
        Episode::new("no-slash", 0, Some(GOOD)),
        Err(YamaError::InvalidPath)
    ));
    assert!(matches!(
        Episode::new("/videos/ep1.mkv", 0, None),
        Err(YamaError::NotFound)
    ));
    assert!(matches!(
        Episode::new("/videos/ep1.mkv", 0, Some("not a record")),
        Err(YamaError::CorruptMetadata)
    ));
}

#[test]
fn player_output_path_is_beside_video() {
    let e = episode();
    assert_eq!(e.player_output_path(), "/videos/show/ep1.md");
}

#[test]
fn as_watched_pins_position() {
    let mut e = episode();
    let content = e.as_watched();
    assert!(e.metadata.watched);
    assert_eq!(e.metadata.current, e.metadata.duration);
    assert_eq!(content, e.metadata.persist());

    // Toggling back lands on unwatched at position zero, not the old resume
    // point.
    let content = e.as_watched();
    assert!(!e.metadata.watched);
    assert_eq!(e.metadata.current, 0);
    assert_eq!(content, e.metadata.persist());
}

#[test]
fn run_resumes_unwatched() {
    let e = episode();
    assert_eq!(e.run(), 90000);
}

#[test]
fn run_restarts_watched() {
    let mut e = episode();
    e.as_watched();
    assert!(e.metadata.watched);
    assert_eq!(e.run(), 0);
}

#[test]
fn update_metadata_reloads() {
    let mut e = episode();
    let r = e.update_metadata("duration=5400000\ncurrent=2000000\nwatched=false\n");
    assert_eq!(r, Ok(()));
    assert_eq!(e.metadata, VideoMetadata { duration: 5400000, current: 2000000, watched: false });

    let before = e.metadata;
    let r = e.update_metadata("scrambled");
    assert_eq!(r, Err(YamaError::CorruptMetadata));
    assert_eq!(e.metadata, before);
}

#[test]
fn generation_is_gated_by_absence() {
    let p = plan_generation(true, true);
    assert!(!p.probe_needed && !p.extract_needed);
    let p = plan_generation(false, true);
    assert!(p.probe_needed && !p.extract_needed);
    let p = plan_generation(true, false);
    assert!(!p.probe_needed && p.extract_needed);
    let p = plan_generation(false, false);
    assert!(p.probe_needed && p.extract_needed);
}

#[test]
fn probe_success_creates_default_record() {
    match settle_probe(Some(5400000)) {
        ProbeOutcome::Create { record, content } => {
            assert_eq!(record, VideoMetadata { duration: 5400000, current: 0, watched: false });
            assert_eq!(VideoMetadata::parse(&content), Ok(record));
        }
        ProbeOutcome::Rollback { .. } => panic!("a probed duration must create the record"),
    }
}

#[test]
fn probe_failure_demands_rollback() {
    match settle_probe(None) {
        ProbeOutcome::Rollback { error } => assert_eq!(error, YamaError::InvalidVideo),
        ProbeOutcome::Create { .. } => panic!("a failed probe must roll back"),
    }
}

#[test]
fn extraction_failure_is_surfaced() {
    assert_eq!(settle_extract(true), Ok(()));
    assert_eq!(settle_extract(false), Err(YamaError::IoError));
}

#[test]
fn description_includes_current_when_resumed() {
    let e = episode();
    assert_eq!(
        e.description(),
        "Name: ep1.mkv\n\nDuration: 1:30:00\nCurrent: 1:30\nWatched: No"
    );
}

#[test]
fn description_omits_current_when_watched() {
    let mut e = episode();
    e.as_watched();
    assert_eq!(
        e.description(),
        "Name: ep1.mkv\n\nDuration: 1:30:00\nWatched: Yes"
    );
}

#[test]
fn description_omits_current_when_barely_started() {
    let mut e = episode();
    e.update_metadata("duration=5400000\ncurrent=1000\nwatched=false\n")
        .unwrap();
    assert_eq!(
        e.description(),
        "Name: ep1.mkv\n\nDuration: 1:30:00\nWatched: No"
    );
    // Just past the one-second threshold the line appears.
    e.update_metadata("duration=5400000\ncurrent=1001\nwatched=false\n")
        .unwrap();
    assert_eq!(
        e.description(),
        "Name: ep1.mkv\n\nDuration: 1:30:00\nCurrent: 0:01\nWatched: No"
    );
}

#[test]
fn thumbnail_is_reported() {
    let e = episode();
    assert_eq!(e.thumbnail(), Some(e.thumbnail_path.clone()));
}
