use vstd::prelude::*;

use crate::digits::{
    all_digits, canonical_digits, dec_digits, dec_val, digit_run_end, is_digit,
    lemma_dec_digits_canonical, lemma_dec_digits_val, lemma_dec_val_digits,
    lemma_digit_run_end, lemma_digit_run_end_is, push_decimal, scan_u64, spec_scan,
};
use crate::errors::YamaError;

verus! {

/// One video's persisted watch state.  Times are whole milliseconds.
#[derive(Clone, Copy, Debug, PartialEq, Eq, Structural)]
pub struct VideoMetadata {
    /// Total length of the video.
    pub duration: u64,
    /// Last resume position reached.
    pub current: u64,
    /// Whether the video counts as fully watched.
    pub watched: bool,
}

/// The canonical sidecar encoding of a record: three `key=value` lines.
pub open spec fn spec_serialize(m: VideoMetadata) -> Seq<char> {
    "duration="@ + dec_digits(m.duration as nat) + "\ncurrent="@ + dec_digits(m.current as nat)
        + "\nwatched="@ + (if m.watched {
        "true\n"@
    } else {
        "false\n"@
    })
}

/// What parsing a sidecar text yields: the record, or nothing when the text
/// is not a well-formed encoding.
pub open spec fn spec_parse(s: Seq<char>) -> Option<VideoMetadata> {
    if s.len() < 9 || s.subrange(0, 9) != "duration="@ {
        None
    } else {
        match spec_scan(s, 9) {
            None => None,
            Some((dur, j1)) => {
                if j1 + 9 > s.len() || s.subrange(j1, j1 + 9) != "\ncurrent="@ {
                    None
                } else {
                    match spec_scan(s, j1 + 9) {
                        None => None,
                        Some((cur, j2)) => {
                            if j2 + 9 > s.len() || s.subrange(j2, j2 + 9) != "\nwatched="@ {
                                None
                            } else {
                                let rest = s.subrange(j2 + 9, s.len() as int);
                                if rest == "true\n"@ {
                                    Some(
                                        VideoMetadata {
                                            duration: dur as u64,
                                            current: cur as u64,
                                            watched: true,
                                        },
                                    )
                                } else if rest == "false\n"@ {
                                    Some(
                                        VideoMetadata {
                                            duration: dur as u64,
                                            current: cur as u64,
                                            watched: false,
                                        },
                                    )
                                } else {
                                    None
                                }
                            }
                        },
                    }
                }
            },
        }
    }
}

/// Whether `s` continues with `pat` at position `i`.
fn matches_at(s: &str, len: usize, i: usize, pat: &str) -> (b: bool)
    requires
        len == s@.len(),
        i + pat@.len() <= len,
    ensures
        b == (s@.subrange(i as int, i as int + pat@.len() as int) == pat@),
{
    let plen: usize = pat.unicode_len();
    let mut k: usize = 0;
    while k < plen
        invariant
            k <= plen == pat@.len(),
            len == s@.len(),
            i + plen <= len,
            forall|t: int| 0 <= t < k ==> s@[i + t] == pat@[t],
        decreases plen - k,
    {
        if s.get_char(i + k) != pat.get_char(k) {
            assert(s@.subrange(i as int, i as int + pat@.len() as int)[k as int] == s@[i + k]);
            return false;
        }
        k = k + 1;
    }
    assert(s@.subrange(i as int, i as int + pat@.len() as int) =~= pat@);
    true
}

impl VideoMetadata {
    /// A soft well-formedness bound: records written by this library keep the
    /// resume position inside the video.
    pub open spec fn wf(self) -> bool {
        self.current <= self.duration
    }

    /// The record a video gets the first time it is seen.
    pub fn create_default(duration: u64) -> (m: VideoMetadata)
        ensures
            m == (VideoMetadata { duration, current: 0, watched: false }),
            m.wf(),
    {
        VideoMetadata { duration, current: 0, watched: false }
    }

    /// The sidecar text for this record, exactly `spec_serialize`.
    pub fn persist(&self) -> (out: String)
        ensures
            out@ == spec_serialize(*self),
    {
        let mut out: String = "duration=".to_owned();
        push_decimal(&mut out, self.duration);
        out.append("\ncurrent=");
        push_decimal(&mut out, self.current);
        out.append("\nwatched=");
        if self.watched {
            out.append("true\n");
        } else {
            out.append("false\n");
        }
        out
    }

    /// Parse a sidecar text, exactly as `spec_parse` describes: the encoded
    /// record, or `CorruptMetadata` for any other text.
    pub fn parse(s: &str) -> (r: Result<VideoMetadata, YamaError>)
        ensures
            match spec_parse(s@) {
                Some(m) => r == Ok::<VideoMetadata, YamaError>(m),
                None => r == Err::<VideoMetadata, YamaError>(YamaError::CorruptMetadata),
            },
    {
        proof {
            reveal_strlit("duration=");
            reveal_strlit("\ncurrent=");
            reveal_strlit("\nwatched=");
            reveal_strlit("true\n");
            reveal_strlit("false\n");
        }
        let len: usize = s.unicode_len();
        if len < 9 {
            return Err(YamaError::CorruptMetadata);
        }
        if !matches_at(s, len, 0, "duration=") {
            return Err(YamaError::CorruptMetadata);
        }
        let first = match scan_u64(s, len, 9) {
            None => {
                return Err(YamaError::CorruptMetadata);
            },
            Some(p) => p,
        };
        let dur: u64 = first.0;
        let j1: usize = first.1;
        proof {
            lemma_digit_run_end(s@, 9);
        }
        if j1 > len - 9 {
            return Err(YamaError::CorruptMetadata);
        }
        if !matches_at(s, len, j1, "\ncurrent=") {
            return Err(YamaError::CorruptMetadata);
        }
        let second = match scan_u64(s, len, j1 + 9) {
            None => {
                return Err(YamaError::CorruptMetadata);
            },
            Some(p) => p,
        };
        let cur: u64 = second.0;
        let j2: usize = second.1;
        proof {
            lemma_digit_run_end(s@, j1 as int + 9);
        }
        if j2 > len - 9 {
            return Err(YamaError::CorruptMetadata);
        }
        if !matches_at(s, len, j2, "\nwatched=") {
            return Err(YamaError::CorruptMetadata);
        }
        let rem: usize = len - (j2 + 9);
        if rem == 5 && matches_at(s, len, j2 + 9, "true\n") {
            Ok(VideoMetadata { duration: dur, current: cur, watched: true })
        } else if rem == 6 && matches_at(s, len, j2 + 9, "false\n") {
            Ok(VideoMetadata { duration: dur, current: cur, watched: false })
        } else {
            proof {
                let rest = s@.subrange(j2 as int + 9, s@.len() as int);
                assert(rest.len() == rem);
                if rem == 5 {
                    assert(rest == s@.subrange(j2 as int + 9, j2 as int + 9 + 5));
                    assert(rest != "true\n"@);
                    assert(rest != "false\n"@);
                } else if rem == 6 {
                    assert(rest == s@.subrange(j2 as int + 9, j2 as int + 9 + 6));
                    assert(rest != "false\n"@);
                    assert(rest != "true\n"@);
                } else {
                    assert(rest != "true\n"@);
                    assert(rest != "false\n"@);
                }
            }
            Err(YamaError::CorruptMetadata)
        }
    }

    /// Load a record from a sidecar file's content, or report that the file
    /// was absent: `None` stands for a missing file.
    pub fn load(content: Option<&str>) -> (r: Result<VideoMetadata, YamaError>)
        ensures
            match content {
                None => r == Err::<VideoMetadata, YamaError>(YamaError::NotFound),
                Some(s) => match spec_parse(s@) {
                    Some(m) => r == Ok::<VideoMetadata, YamaError>(m),
                    None => r == Err::<VideoMetadata, YamaError>(YamaError::CorruptMetadata),
                },
            },
    {
        match content {
            None => Err(YamaError::NotFound),
            Some(s) => VideoMetadata::parse(s),
        }
    }
}

/// Two decimal digits, zero-padded.
pub open spec fn spec_pad2(n: nat) -> Seq<char> {
    if n < 10 {
        "0"@ + dec_digits(n)
    } else {
        dec_digits(n)
    }
}

/// A time in whole milliseconds as `H:MM:SS`, or `M:SS` under an hour;
/// fractions of a second are truncated.
pub open spec fn spec_format_duration(ms: u64) -> Seq<char> {
    let total = ms as nat / 1000;
    let hours = total / 3600;
    let minutes = (total % 3600) / 60;
    let seconds = total % 60;
    if hours > 0 {
        dec_digits(hours) + ":"@ + spec_pad2(minutes) + ":"@ + spec_pad2(seconds)
    } else {
        dec_digits(minutes) + ":"@ + spec_pad2(seconds)
    }
}

fn push_pad2(out: &mut String, n: u64)
    ensures
        final(out)@ == old(out)@ + spec_pad2(n as nat),
{
    if n < 10 {
        out.append("0");
    }
    push_decimal(out, n);
    assert(out@ =~= old(out)@ + spec_pad2(n as nat));
}

impl VideoMetadata {
    /// Human-readable time for display, exactly `spec_format_duration`.
    pub fn format_duration(ms: u64) -> (out: String)
        ensures
            out@ == spec_format_duration(ms),
    {
        let total: u64 = ms / 1000;
        let hours: u64 = total / 3600;
        let minutes: u64 = (total % 3600) / 60;
        let seconds: u64 = total % 60;
        let mut out = String::new();
        if hours > 0 {
            push_decimal(&mut out, hours);
            out.append(":");
            push_pad2(&mut out, minutes);
            out.append(":");
            push_pad2(&mut out, seconds);
        } else {
            push_decimal(&mut out, minutes);
            out.append(":");
            push_pad2(&mut out, seconds);
        }
        assert(out@ =~= spec_format_duration(ms));
        out
    }
}

/// Parsing inverts serialization: every record round-trips exactly through
/// its sidecar text.  Together with the contracts of `persist` and `parse`,
/// loading what was persisted returns the original record.
pub proof fn lemma_parse_serialize(m: VideoMetadata)
    ensures
        spec_parse(spec_serialize(m)) == Some(m),
{
    reveal_strlit("duration=");
    reveal_strlit("\ncurrent=");
    reveal_strlit("\nwatched=");
    reveal_strlit("true\n");
    reveal_strlit("false\n");
    let s = spec_serialize(m);
    let d1 = dec_digits(m.duration as nat);
    let d2 = dec_digits(m.current as nat);
    let w = if m.watched {
        "true\n"@
    } else {
        "false\n"@
    };
    lemma_dec_digits_canonical(m.duration as nat);
    lemma_dec_digits_canonical(m.current as nat);
    lemma_dec_digits_val(m.duration as nat);
    lemma_dec_digits_val(m.current as nat);
    let j1 = 9 + d1.len() as int;
    let j2 = j1 + 9 + d2.len() as int;
    assert(s.len() == j2 + 9 + w.len());
    assert(s.subrange(0, 9) =~= "duration="@);
    assert(s.subrange(9, j1) =~= d1);
    assert(s.subrange(j1, j1 + 9) =~= "\ncurrent="@);
    assert(s.subrange(j1 + 9, j2) =~= d2);
    assert(s.subrange(j2, j2 + 9) =~= "\nwatched="@);
    assert(s.subrange(j2 + 9, s.len() as int) =~= w);
    assert(!is_digit('\n'));
    assert(s[j1] == '\n');
    lemma_digit_run_end_is(s, 9, j1);
    assert(s.subrange(9, j1) == d1);
    assert(spec_scan(s, 9) == Some((m.duration as nat, j1)));
    assert(s[j2] == '\n');
    lemma_digit_run_end_is(s, j1 + 9, j2);
    assert(spec_scan(s, j1 + 9) == Some((m.current as nat, j2)));
    if m.watched {
        assert(s.subrange(j2 + 9, s.len() as int) == "true\n"@);
    } else {
        assert(s.subrange(j2 + 9, s.len() as int) != "true\n"@);
        assert(s.subrange(j2 + 9, s.len() as int) == "false\n"@);
    }
    assert(spec_parse(s) == Some(m));
}

/// Serialization inverts parsing: a text that parses as a record is exactly
/// that record's sidecar text.  With `lemma_parse_serialize`, persisting and
/// parsing are mutually inverse bijections between records and well-formed
/// sidecar texts.
pub proof fn lemma_serialize_parse(s: Seq<char>, m: VideoMetadata)
    requires
        spec_parse(s) == Some(m),
    ensures
        spec_serialize(m) == s,
{
    reveal_strlit("duration=");
    reveal_strlit("\ncurrent=");
    reveal_strlit("\nwatched=");
    reveal_strlit("true\n");
    reveal_strlit("false\n");
    let j1 = digit_run_end(s, 9);
    lemma_digit_run_end(s, 9);
    let d1 = s.subrange(9, j1);
    assert(all_digits(d1));
    assert(canonical_digits(d1));
    lemma_dec_val_digits(d1);
    assert(m.duration as nat == dec_val(d1));
    assert(dec_digits(m.duration as nat) == d1);
    let j2 = digit_run_end(s, j1 + 9);
    lemma_digit_run_end(s, j1 + 9);
    let d2 = s.subrange(j1 + 9, j2);
    assert(all_digits(d2));
    assert(canonical_digits(d2));
    lemma_dec_val_digits(d2);
    assert(m.current as nat == dec_val(d2));
    assert(dec_digits(m.current as nat) == d2);
    let rest = s.subrange(j2 + 9, s.len() as int);
    if m.watched {
        assert(rest == "true\n"@);
    } else {
        assert(rest == "false\n"@);
    }
    assert(spec_serialize(m) =~= s);
}

} // verus!
