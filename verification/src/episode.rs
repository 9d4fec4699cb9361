use vstd::prelude::*;

use crate::digits::push_decimal;
use crate::errors::YamaError;
use crate::metadata::{spec_format_duration, spec_parse, spec_serialize, VideoMetadata};
use crate::paths::{
    lemma_last_pos, rfind, spec_file_name, spec_md_name, spec_md_path, spec_parent,
    spec_player_output, spec_sidecar_dir, spec_thumbnail_path, spec_valid_path,
};

verus! {

/// Where one episode's sidecar artifacts live, and what the episode is
/// called.  Computed before any artifact exists, so the embedding
/// application knows which files to test, create, or remove.
pub struct SidecarLayout {
    /// The video's file name.
    pub name: String,
    /// The per-episode sidecar directory.
    pub dir: String,
    /// The metadata record's path inside `dir`.
    pub md_path: String,
    /// The thumbnail's path inside `dir`.
    pub thumbnail_path: String,
    /// Where the external player writes its own resume record.
    pub player_output: String,
}

impl SidecarLayout {
    /// Every field agrees with the path rules for this video and number.
    pub open spec fn wf(self, path: Seq<char>, number: nat) -> bool {
        &&& self.name@ == spec_file_name(path)
        &&& self.dir@ == spec_sidecar_dir(path, number)
        &&& self.md_path@ == spec_md_path(path, number)
        &&& self.thumbnail_path@ == spec_thumbnail_path(path, number)
        &&& self.player_output@ == spec_player_output(path)
    }

    /// Lay out the sidecar paths for a video, validating the path: it must
    /// have a parent directory and a nonempty file name.
    pub fn new(path: &str, number: usize) -> (r: Result<SidecarLayout, YamaError>)
        ensures
            match r {
                Ok(l) => spec_valid_path(path@) && l.wf(path@, number as nat),
                Err(e) => !spec_valid_path(path@) && e == YamaError::InvalidPath,
            },
    {
        let len: usize = path.unicode_len();
        proof {
            lemma_last_pos(path@, '/');
        }
        let lp: usize = match rfind(path, len, '/') {
            Some(i) => i,
            None => {
                return Err(YamaError::InvalidPath);
            },
        };
        if lp + 1 >= len {
            return Err(YamaError::InvalidPath);
        }
        let name: &str = path.substring_char(lp + 1, len);
        let parent: &str = path.substring_char(0, lp);
        let nlen: usize = name.unicode_len();
        proof {
            lemma_last_pos(name@, '.');
        }
        let mut md_name: String = match rfind(name, nlen, '.') {
            Some(d) => {
                if d > 0 {
                    name.substring_char(0, d).to_owned()
                } else {
                    name.to_owned()
                }
            },
            None => name.to_owned(),
        };
        md_name.append(".md");
        let mut dir: String = parent.to_owned();
        dir.append("/.metadata/episode_");
        push_decimal(&mut dir, number as u64);
        let mut md_path: String = dir.clone();
        md_path.append("/");
        md_path.append(md_name.as_str());
        let mut thumbnail_path: String = dir.clone();
        thumbnail_path.append("/thumbnail.jpg");
        let mut player_output: String = parent.to_owned();
        player_output.append("/");
        player_output.append(md_name.as_str());
        proof {
            assert(md_name@ =~= spec_md_name(spec_file_name(path@)));
            assert(dir@ =~= spec_sidecar_dir(path@, number as nat));
            assert(md_path@ =~= spec_md_path(path@, number as nat));
            assert(thumbnail_path@ =~= spec_thumbnail_path(path@, number as nat));
            assert(player_output@ =~= spec_player_output(path@));
        }
        Ok(SidecarLayout { name: name.to_owned(), dir, md_path, thumbnail_path, player_output })
    }
}

/// Which derived artifacts must be generated for one episode.
#[derive(Clone, Copy, Debug, PartialEq, Eq, Structural)]
pub struct ArtifactPlan {
    /// The metadata sidecar is absent: the video must be probed.
    pub probe_needed: bool,
    /// The thumbnail is absent: a frame must be extracted.
    pub extract_needed: bool,
}

/// Each artifact is regenerated exactly when it is missing, independently of
/// the other.
pub open spec fn spec_plan(md_exists: bool, thumbnail_exists: bool) -> ArtifactPlan {
    ArtifactPlan { probe_needed: !md_exists, extract_needed: !thumbnail_exists }
}

/// Decide artifact generation from the two existence tests.
pub fn plan_generation(md_exists: bool, thumbnail_exists: bool) -> (p: ArtifactPlan)
    ensures
        p == spec_plan(md_exists, thumbnail_exists),
{
    ArtifactPlan { probe_needed: !md_exists, extract_needed: !thumbnail_exists }
}

/// Artifact generation is idempotent and its two gates are decoupled: when
/// both artifacts already exist, no generation step is requested at all, and
/// each gate depends only on its own artifact's absence, so a past failure
/// of one never blocks the other.
pub proof fn lemma_generation_idempotent(md_exists: bool, thumbnail_exists: bool)
    ensures
        spec_plan(true, true) == (ArtifactPlan { probe_needed: false, extract_needed: false }),
        spec_plan(md_exists, thumbnail_exists).probe_needed == !md_exists,
        spec_plan(md_exists, thumbnail_exists).extract_needed == !thumbnail_exists,
{
}

/// What must happen after the probe collaborator ran for a first-time video.
pub enum ProbeOutcome {
    /// Write `content`, the default record's sidecar text, to the metadata
    /// path.
    Create { record: VideoMetadata, content: String },
    /// Remove the episode's freshly made sidecar directory, then surface the
    /// error: a failed video must not leave a half-initialized sidecar
    /// behind.
    Rollback { error: YamaError },
}

/// Settle a probe result.  A duration yields the first-time default record
/// (position zero, unwatched); a failed probe demands rollback of the
/// sidecar directory and reports the video as invalid.
pub fn settle_probe(probe: Option<u64>) -> (o: ProbeOutcome)
    ensures
        match probe {
            Some(d) => o matches ProbeOutcome::Create { record, content } && record == (
            VideoMetadata { duration: d, current: 0, watched: false }) && content@
                == spec_serialize(record),
            None => o matches ProbeOutcome::Rollback { error } && error
                == YamaError::InvalidVideo,
        },
{
    match probe {
        Some(d) => {
            let record = VideoMetadata::create_default(d);
            let content = record.persist();
            ProbeOutcome::Create { record, content }
        },
        None => ProbeOutcome::Rollback { error: YamaError::InvalidVideo },
    }
}

/// Settle an extraction result.  The thumbnail is non-critical to watch
/// state, but a failed extraction is surfaced as an I/O failure, never
/// swallowed, so the presentation layer can decide whether to retry or show
/// a placeholder.
pub fn settle_extract(extracted: bool) -> (r: Result<(), YamaError>)
    ensures
        extracted <==> r == Ok::<(), YamaError>(()),
        !extracted <==> r == Err::<(), YamaError>(YamaError::IoError),
{
    if extracted {
        Ok(())
    } else {
        Err(YamaError::IoError)
    }
}

/// The "Current" line of a description: present exactly when the episode is
/// unwatched and more than one second in.
pub open spec fn spec_current_line(m: VideoMetadata) -> Seq<char> {
    if !m.watched && m.current > 1000 {
        "\nCurrent: "@ + spec_format_duration(m.current)
    } else {
        Seq::<char>::empty()
    }
}

/// The presentation summary of an episode.
pub open spec fn spec_description(name: Seq<char>, m: VideoMetadata) -> Seq<char> {
    "Name: "@ + name + "\n\nDuration: "@ + spec_format_duration(m.duration) + spec_current_line(m)
        + "\nWatched: "@ + (if m.watched {
        "Yes"@
    } else {
        "No"@
    })
}

/// One tracked video's state: its identity, its sidecar paths, and its
/// loaded metadata record.
#[derive(Debug)]
pub struct Episode {
    /// The video's file name.
    pub name: String,
    /// The video's location.
    pub path: String,
    /// Ordinal position within the containing collection, supplied by the
    /// caller.
    pub number: usize,
    /// The thumbnail's path.
    pub thumbnail_path: String,
    /// The metadata record's path.
    pub md_path: String,
    /// The loaded watch state.
    pub metadata: VideoMetadata,
}

impl Episode {
    /// The identity fields agree with the path rules.
    pub open spec fn wf(self) -> bool {
        &&& spec_valid_path(self.path@)
        &&& self.name@ == spec_file_name(self.path@)
        &&& self.md_path@ == spec_md_path(self.path@, self.number as nat)
        &&& self.thumbnail_path@ == spec_thumbnail_path(self.path@, self.number as nat)
    }

    /// Assemble an episode once both artifacts exist: validate the path, lay
    /// out the sidecar paths, and load the record from the metadata sidecar's
    /// text (`None` when that file is absent).
    pub fn new(path: &str, number: usize, md_content: Option<&str>) -> (r: Result<
        Episode,
        YamaError,
    >)
        ensures
            match r {
                Ok(e) => {
                    &&& spec_valid_path(path@)
                    &&& e.wf()
                    &&& e.path@ == path@
                    &&& e.number == number
                    &&& md_content matches Some(c) && spec_parse(c@) == Some(e.metadata)
                },
                Err(err) => if !spec_valid_path(path@) {
                    err == YamaError::InvalidPath
                } else {
                    match md_content {
                        None => err == YamaError::NotFound,
                        Some(c) => spec_parse(c@) is None && err == YamaError::CorruptMetadata,
                    }
                },
            },
    {
        let layout = match SidecarLayout::new(path, number) {
            Ok(l) => l,
            Err(e) => {
                return Err(e);
            },
        };
        let metadata = match VideoMetadata::load(md_content) {
            Ok(m) => m,
            Err(e) => {
                return Err(e);
            },
        };
        Ok(
            Episode {
                name: layout.name,
                path: path.to_owned(),
                number,
                thumbnail_path: layout.thumbnail_path,
                md_path: layout.md_path,
                metadata,
            },
        )
    }

    /// Where the external player writes its resume record after playback:
    /// next to the video, under the sidecar extension.  The application
    /// moves that file onto `md_path` before reloading.
    pub fn player_output_path(&self) -> (p: String)
        requires
            spec_valid_path(self.path@),
        ensures
            p@ == spec_player_output(self.path@),
    {
        let path = self.path.as_str();
        let len: usize = path.unicode_len();
        proof {
            lemma_last_pos(path@, '/');
        }
        let lp: usize = match rfind(path, len, '/') {
            Some(i) => i,
            None => {
                proof {
                    assert(false);
                }
                0
            },
        };
        let name: &str = path.substring_char(lp + 1, len);
        let parent: &str = path.substring_char(0, lp);
        let nlen: usize = name.unicode_len();
        proof {
            lemma_last_pos(name@, '.');
        }
        let mut out: String = parent.to_owned();
        out.append("/");
        match rfind(name, nlen, '.') {
            Some(d) => {
                if d > 0 {
                    out.append(name.substring_char(0, d));
                } else {
                    out.append(name);
                }
            },
            None => {
                out.append(name);
            },
        }
        out.append(".md");
        proof {
            assert(out@ =~= spec_player_output(self.path@));
        }
        out
    }

    /// Flip the watched flag and pin the position: to the full duration when
    /// the result is watched, to zero when it is unwatched, whatever the
    /// prior position was.  Returns the sidecar text the application must
    /// persist to `md_path`.
    pub fn as_watched(&mut self) -> (content: String)
        ensures
            final(self).metadata.watched == !old(self).metadata.watched,
            final(self).metadata.current == if final(self).metadata.watched {
                final(self).metadata.duration
            } else {
                0
            },
            final(self).metadata.duration == old(self).metadata.duration,
            final(self).metadata.wf(),
            final(self).name == old(self).name,
            final(self).path == old(self).path,
            final(self).number == old(self).number,
            final(self).thumbnail_path == old(self).thumbnail_path,
            final(self).md_path == old(self).md_path,
            content@ == spec_serialize(final(self).metadata),
    {
        self.metadata.watched = !self.metadata.watched;
        self.metadata.current = if !self.metadata.watched {
            0
        } else {
            self.metadata.duration
        };
        self.metadata.persist()
    }

    /// The start offset, in milliseconds, that playback must request from
    /// the external player: a watched episode restarts from the beginning,
    /// an unwatched one resumes from its current position.  The application
    /// launches the player on `path` with this offset, waits for it to exit,
    /// moves `player_output_path` onto `md_path`, and hands the reread text
    /// to `update_metadata`.
    pub fn run(&self) -> (start_ms: u64)
        ensures
            start_ms == if self.metadata.watched {
                0u64
            } else {
                self.metadata.current
            },
    {
        if self.metadata.watched {
            0
        } else {
            self.metadata.current
        }
    }

    /// Replace the in-memory record with the player's rewritten sidecar
    /// text; on a malformed text the episode is left unchanged.
    pub fn update_metadata(&mut self, content: &str) -> (r: Result<(), YamaError>)
        ensures
            match spec_parse(content@) {
                Some(m) => r == Ok::<(), YamaError>(()) && *final(self) == (Episode {
                    metadata: m,
                    ..*old(self)
                }),
                None => r == Err::<(), YamaError>(YamaError::CorruptMetadata) && *final(self)
                    == *old(self),
            },
    {
        let m = match VideoMetadata::parse(content) {
            Ok(m) => m,
            Err(e) => {
                return Err(e);
            },
        };
        self.metadata = m;
        Ok(())
    }

    /// The thumbnail artifact's location.
    pub fn thumbnail(&self) -> (t: Option<String>)
        ensures
            t matches Some(p) && p@ == self.thumbnail_path@,
    {
        Some(self.thumbnail_path.clone())
    }

    /// The presentation summary: name, formatted duration, the current
    /// position (only when unwatched and more than a second in), and a
    /// watched indicator.
    pub fn description(&self) -> (out: String)
        ensures
            out@ == spec_description(self.name@, self.metadata),
            spec_current_line(self.metadata) == Seq::<char>::empty() <==> (self.metadata.watched
                || self.metadata.current <= 1000),
    {
        let mut out: String = "Name: ".to_owned();
        out.append(self.name.as_str());
        out.append("\n\nDuration: ");
        let dur = VideoMetadata::format_duration(self.metadata.duration);
        out.append(dur.as_str());
        if !self.metadata.watched && self.metadata.current > 1000 {
            out.append("\nCurrent: ");
            let cur = VideoMetadata::format_duration(self.metadata.current);
            out.append(cur.as_str());
        }
        out.append("\nWatched: ");
        if self.metadata.watched {
            out.append("Yes");
        } else {
            out.append("No");
        }
        proof {
            reveal_strlit("\nCurrent: ");
            assert(out@ =~= spec_description(self.name@, self.metadata));
        }
        out
    }
}

} // verus!
