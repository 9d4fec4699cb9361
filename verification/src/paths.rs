use vstd::prelude::*;

use crate::digits::dec_digits;

verus! {

/// Index of the last occurrence of `c` in `s`, or -1 when `c` is absent.
pub open spec fn last_pos(s: Seq<char>, c: char) -> int
    decreases s.len(),
{
    if s.len() == 0 {
        -1
    } else if s.last() == c {
        s.len() - 1
    } else {
        last_pos(s.drop_last(), c)
    }
}

pub proof fn lemma_last_pos(s: Seq<char>, c: char)
    ensures
        -1 <= last_pos(s, c) < s.len(),
        last_pos(s, c) >= 0 ==> s[last_pos(s, c)] == c,
        forall|k: int| last_pos(s, c) < k < s.len() ==> s[k] != c,
    decreases s.len(),
{
    if s.len() > 0 && s.last() != c {
        lemma_last_pos(s.drop_last(), c);
        assert(forall|k: int| 0 <= k < s.len() - 1 ==> s[k] == s.drop_last()[k]);
    }
}

/// The last position is pinned by any witness with its properties.
pub proof fn lemma_last_pos_is(s: Seq<char>, c: char, r: int)
    requires
        -1 <= r < s.len(),
        r >= 0 ==> s[r] == c,
        forall|k: int| r < k < s.len() ==> s[k] != c,
    ensures
        last_pos(s, c) == r,
    decreases s.len(),
{
    if s.len() == 0 {
    } else if s.last() == c {
        assert(r == s.len() - 1);
    } else {
        assert(r < s.len() - 1);
        assert(forall|k: int| 0 <= k < s.len() - 1 ==> s.drop_last()[k] == s[k]);
        lemma_last_pos_is(s.drop_last(), c, r);
    }
}

/// A usable video path: it has a parent directory separator and a nonempty
/// file name after it.
pub open spec fn spec_valid_path(p: Seq<char>) -> bool {
    last_pos(p, '/') >= 0 && last_pos(p, '/') + 1 < p.len()
}

/// Everything before the last separator.
pub open spec fn spec_parent(p: Seq<char>) -> Seq<char> {
    p.subrange(0, last_pos(p, '/'))
}

/// Everything after the last separator.
pub open spec fn spec_file_name(p: Seq<char>) -> Seq<char> {
    p.subrange(last_pos(p, '/') + 1, p.len() as int)
}

/// The file name with its extension replaced by the sidecar extension, as
/// `set_extension` would: the suffix from the last interior dot is dropped.
pub open spec fn spec_md_name(name: Seq<char>) -> Seq<char> {
    let d = last_pos(name, '.');
    if d > 0 {
        name.subrange(0, d) + ".md"@
    } else {
        name + ".md"@
    }
}

/// The per-episode sidecar directory, namespaced by the episode number.
pub open spec fn spec_sidecar_dir(p: Seq<char>, number: nat) -> Seq<char> {
    spec_parent(p) + "/.metadata/episode_"@ + dec_digits(number)
}

/// The metadata record's path inside the sidecar directory.
pub open spec fn spec_md_path(p: Seq<char>, number: nat) -> Seq<char> {
    spec_sidecar_dir(p, number) + "/"@ + spec_md_name(spec_file_name(p))
}

/// The thumbnail's path inside the sidecar directory.
pub open spec fn spec_thumbnail_path(p: Seq<char>, number: nat) -> Seq<char> {
    spec_sidecar_dir(p, number) + "/thumbnail.jpg"@
}

/// Where the external player writes its own resume record: next to the
/// video, under the video's name with the sidecar extension.
pub open spec fn spec_player_output(p: Seq<char>) -> Seq<char> {
    spec_parent(p) + "/"@ + spec_md_name(spec_file_name(p))
}

/// Position of the last occurrence of `c` in `s`, exactly `last_pos`.
pub fn rfind(s: &str, len: usize, c: char) -> (r: Option<usize>)
    requires
        len == s@.len(),
    ensures
        match r {
            Some(i) => i as int == last_pos(s@, c),
            None => last_pos(s@, c) == -1,
        },
{
    let mut k: usize = len;
    while k > 0
        invariant
            k <= len == s@.len(),
            forall|t: int| k <= t < len ==> s@[t] != c,
        decreases k,
    {
        let kk: usize = k - 1;
        if s.get_char(kk) == c {
            proof {
                lemma_last_pos_is(s@, c, kk as int);
            }
            return Some(kk);
        }
        k = kk;
    }
    proof {
        lemma_last_pos_is(s@, c, -1);
    }
    None
}

} // verus!
