//! Recording files: their names, which files a request may touch, and
//! which old recordings are cleaned up.

use vstd::prelude::*;

verus! {

/// Start of every recording file name.
pub const RECORDING_PREFIX: &'static str = "voice_input_";

/// End of every recording file name.
pub const RECORDING_SUFFIX: &'static str = ".wav";

/// Number of most recent recordings kept by the cleanup.
pub const KEPT_RECORDINGS: usize = 3;

pub open spec fn has_prefix(s: Seq<char>, p: Seq<char>) -> bool {
    p.len() <= s.len() && s.take(p.len() as int) == p
}

pub open spec fn has_suffix(s: Seq<char>, p: Seq<char>) -> bool {
    p.len() <= s.len() && s.skip(s.len() - p.len()) == p
}

/// Whether `s` starts with `p`.
pub fn starts_with(s: &str, p: &str) -> (b: bool)
    ensures
        b == has_prefix(s@, p@),
{
    let n: usize = s.unicode_len();
    let m: usize = p.unicode_len();
    if m > n {
        return false;
    }
    let mut i: usize = 0;
    while i < m
        invariant
            m <= n,
            n == s@.len(),
            m == p@.len(),
            i <= m,
            forall|j: int| 0 <= j < i ==> s@[j] == p@[j],
        decreases m - i,
    {
        if s.get_char(i) != p.get_char(i) {
            assert(s@.take(m as int)[i as int] != p@[i as int]);
            return false;
        }
        i = i + 1;
    }
    assert(s@.take(m as int) =~= p@);
    true
}

/// Whether `s` ends with `p`.
pub fn ends_with(s: &str, p: &str) -> (b: bool)
    ensures
        b == has_suffix(s@, p@),
{
    let n: usize = s.unicode_len();
    let m: usize = p.unicode_len();
    if m > n {
        return false;
    }
    let off: usize = n - m;
    let mut i: usize = 0;
    while i < m
        invariant
            m <= n,
            off == n - m,
            n == s@.len(),
            m == p@.len(),
            i <= m,
            forall|j: int| 0 <= j < i ==> s@[off + j] == p@[j],
        decreases m - i,
    {
        if s.get_char(off + i) != p.get_char(i) {
            assert(s@.skip(off as int)[i as int] != p@[i as int]);
            return false;
        }
        i = i + 1;
    }
    assert(s@.skip(off as int) =~= p@);
    true
}

/// Whether a file name is that of a recording of this application.
pub open spec fn is_recording_name(name: Seq<char>) -> bool {
    has_prefix(name, RECORDING_PREFIX@) && has_suffix(name, RECORDING_SUFFIX@)
}

/// Whether a file name is that of a recording of this application.
pub fn is_recording_file_name(name: &str) -> (b: bool)
    ensures
        b == is_recording_name(name@),
{
    starts_with(name, RECORDING_PREFIX) && ends_with(name, RECORDING_SUFFIX)
}

/// Name of the recording file, in the system's temporary directory.
pub const RECORDING_FILE: &'static str = "voice_input_temp.wav";

/// The file name a finished recording is written to.
pub fn recording_file_name() -> (name: String)
    ensures
        name@ == RECORDING_FILE@,
        is_recording_name(name@),
{
    proof {
        lemma_recording_name_accepted();
    }
    String::from_str(RECORDING_FILE)
}

/// The name recordings are written to is one that the access checks and
/// the cleanup recognise as a recording.
pub proof fn lemma_recording_name_accepted()
    ensures
        is_recording_name(RECORDING_FILE@),
{
    reveal_strlit("voice_input_temp.wav");
    reveal_strlit("voice_input_");
    reveal_strlit(".wav");
    let name = RECORDING_FILE@;
    assert(name.take(RECORDING_PREFIX@.len() as int) =~= RECORDING_PREFIX@);
    assert(name.skip(name.len() - RECORDING_SUFFIX@.len()) =~= RECORDING_SUFFIX@);
}

/// Why a request for a recording file is refused.
#[derive(PartialEq, Eq, Structural, Clone, Copy)]
pub enum AccessError {
    /// The path has no file name that is valid text.
    InvalidName,
    /// The file is not a recording inside the recordings directory.
    NotAllowed,
}

impl AccessError {
    /// Message of the trimming command.
    pub fn trim_message(&self) -> (m: String)
        ensures
            m@ == (match self {
                AccessError::InvalidName => "Invalid audio file name"@,
                AccessError::NotAllowed => "Audio file is outside the allowed recordings directory"@,
            }),
    {
        match self {
            AccessError::InvalidName => String::from_str("Invalid audio file name"),
            AccessError::NotAllowed => String::from_str("Audio file is outside the allowed recordings directory"),
        }
    }

    /// Message of the reading command.
    pub fn read_message(&self) -> (m: String)
        ensures
            m@ == (match self {
                AccessError::InvalidName => "録音ファイル名が不正です"@,
                AccessError::NotAllowed => "許可されていない録音ファイルです"@,
            }),
    {
        match self {
            AccessError::InvalidName => String::from_str("録音ファイル名が不正です"),
            AccessError::NotAllowed => String::from_str("許可されていない録音ファイルです"),
        }
    }
}

pub open spec fn access_outcome(in_recordings_dir: bool, file_name: Option<Seq<char>>) -> Result<(), AccessError> {
    match file_name {
        None => Err(AccessError::InvalidName),
        Some(n) => if in_recordings_dir && is_recording_name(n) {
            Ok(())
        } else {
            Err(AccessError::NotAllowed)
        },
    }
}

/// Whether a resolved path may be read or rewritten: it must lie in the
/// recordings directory (`in_recordings_dir`) and its file name must be a
/// recording name.
pub fn check_recording_access(in_recordings_dir: bool, file_name: Option<&str>) -> (r: Result<(), AccessError>)
    ensures
        r == access_outcome(
            in_recordings_dir,
            match file_name {
                Some(n) => Some(n@),
                None => None,
            },
        ),
{
    match file_name {
        None => Err(AccessError::InvalidName),
        Some(n) => {
            if in_recordings_dir && is_recording_file_name(n) {
                Ok(())
            } else {
                Err(AccessError::NotAllowed)
            }
        },
    }
}

/// The recording the application writes in its recordings directory may
/// be read and trimmed; a file outside that directory may not, whatever its
/// name.
pub proof fn lemma_own_recordings_accessible(name: Seq<char>)
    ensures
        access_outcome(true, Some(RECORDING_FILE@)) == Ok::<(), AccessError>(()),
        access_outcome(false, Some(name)) == Err::<(), AccessError>(AccessError::NotAllowed),
{
    lemma_recording_name_accepted();
}

/// Entry `j` comes before entry `i` when files are ordered by modification
/// time, equal times keeping the listing order.
pub open spec fn older(times: Seq<i128>, j: int, i: int) -> bool {
    times[j] < times[i] || (times[j] == times[i] && j < i)
}

/// Number of entries among the first `m` that come before entry `i`.
pub open spec fn count_older(times: Seq<i128>, i: int, m: nat) -> nat
    decreases m,
{
    if m == 0 {
        0
    } else {
        count_older(times, i, (m - 1) as nat) + if older(times, m - 1, i) { 1nat } else { 0nat }
    }
}

/// Position of entry `i` when the entries are sorted oldest first.
pub open spec fn age_rank(times: Seq<i128>, i: int) -> nat {
    count_older(times, i, times.len())
}

/// Whether the cleanup deletes entry `i`: it is not among the newest
/// `KEPT_RECORDINGS` entries and it is not the recording just written.
pub open spec fn deleted(times: Seq<i128>, current: Seq<bool>, i: int) -> bool {
    age_rank(times, i) + KEPT_RECORDINGS < times.len() && !current[i]
}

/// Entry `j` is newer than entry `i`: later modification time, or the same
/// time and later in the listing.
pub open spec fn newer(times: Seq<i128>, j: int, i: int) -> bool {
    times[j] > times[i] || (times[j] == times[i] && j > i)
}

/// Number of entries among the first `m` that are newer than entry `i`.
pub open spec fn count_newer(times: Seq<i128>, i: int, m: nat) -> nat
    decreases m,
{
    if m == 0 {
        0
    } else {
        count_newer(times, i, (m - 1) as nat) + if newer(times, m - 1, i) { 1nat } else { 0nat }
    }
}

proof fn lemma_older_newer_split(times: Seq<i128>, i: int, m: nat)
    requires
        0 <= i < times.len(),
        m <= times.len(),
    ensures
        count_older(times, i, m) + count_newer(times, i, m) + (if i < m { 1int } else { 0int }) == m,
    decreases m,
{
    if m > 0 {
        lemma_older_newer_split(times, i, (m - 1) as nat);
    }
}

proof fn lemma_count_newer_witnesses(times: Seq<i128>, i: int, m: nat, a: int, b: int, c: int)
    requires
        m <= times.len(),
        0 <= a < times.len(),
        0 <= b < times.len(),
        0 <= c < times.len(),
        a != b && b != c && a != c,
        newer(times, a, i) && newer(times, b, i) && newer(times, c, i),
    ensures
        count_newer(times, i, m) >= (if a < m { 1int } else { 0int }) + (if b < m { 1int } else { 0int }) + (if c
            < m { 1int } else { 0int }),
    decreases m,
{
    if m > 0 {
        lemma_count_newer_witnesses(times, i, (m - 1) as nat, a, b, c);
    }
}

/// The cleanup keeps exactly the newest three recordings besides the
/// current one: a recording that is not the current one and has three newer
/// recordings is deleted, however many recordings there are; a deleted
/// recording always has at least three newer ones.
pub proof fn lemma_keeps_newest_three(times: Seq<i128>, current: Seq<bool>, i: int)
    requires
        times.len() == current.len(),
        0 <= i < times.len(),
    ensures
        deleted(times, current, i) <==> (!current[i] && count_newer(times, i, times.len()) >= 3),
        forall|a: int, b: int, c: int|
            0 <= a < times.len() && 0 <= b < times.len() && 0 <= c < times.len() && a != b && b != c && a != c
                && #[trigger] newer(times, a, i) && #[trigger] newer(times, b, i) && #[trigger] newer(times, c, i)
                && !current[i] ==> deleted(times, current, i),
{
    lemma_older_newer_split(times, i, times.len());
    assert forall|a: int, b: int, c: int|
        0 <= a < times.len() && 0 <= b < times.len() && 0 <= c < times.len() && a != b && b != c && a != c
            && #[trigger] newer(times, a, i) && #[trigger] newer(times, b, i) && #[trigger] newer(times, c, i)
            && !current[i] implies deleted(times, current, i) by {
        lemma_count_newer_witnesses(times, i, times.len(), a, b, c);
    }
}

/// Recordings to delete, given each recording's modification time and
/// whether it is the recording just written: all but the newest three,
/// never the current one.  Returns their indices in increasing order.
pub fn select_old_recordings(times: &Vec<i128>, current: &Vec<bool>) -> (r: Vec<usize>)
    requires
        times@.len() == current@.len(),
    ensures
        forall|k: int| 0 <= k < r@.len() ==> #[trigger] r@[k] < times@.len(),
        forall|k: int, l: int| 0 <= k < l < r@.len() ==> r@[k] < r@[l],
        forall|i: int| 0 <= i < times@.len() ==> (r@.contains(i as usize) <==> deleted(times@, current@, i)),
{
    let n: usize = times.len();
    let mut out: Vec<usize> = Vec::new();
    let mut i: usize = 0;
    while i < n
        invariant
            n == times@.len(),
            n == current@.len(),
            i <= n,
            forall|k: int| 0 <= k < out@.len() ==> #[trigger] out@[k] < i,
            forall|k: int, l: int| 0 <= k < l < out@.len() ==> out@[k] < out@[l],
            forall|x: int| 0 <= x < i ==> (out@.contains(x as usize) <==> deleted(times@, current@, x)),
        decreases n - i,
    {
        let mut rank: usize = 0;
        let mut j: usize = 0;
        while j < n
            invariant
                n == times@.len(),
                i < n,
                j <= n,
                rank == count_older(times@, i as int, j as nat),
                rank <= j,
            decreases n - j,
        {
            if times[j] < times[i] || (times[j] == times[i] && j < i) {
                rank = rank + 1;
            }
            j = j + 1;
        }
        let ghost before = out@;
        if n > KEPT_RECORDINGS && rank < n - KEPT_RECORDINGS && !current[i] {
            out.push(i);
        }
        assert forall|x: int| 0 <= x < i + 1 implies (out@.contains(x as usize) <==> deleted(times@, current@, x)) by {
            if x < i {
                if before.contains(x as usize) {
                    let k = choose|k: int| 0 <= k < before.len() && before[k] == x as usize;
                    assert(out@[k] == x as usize);
                }
                if out@.contains(x as usize) {
                    let k = choose|k: int| 0 <= k < out@.len() && out@[k] == x as usize;
                    if k == before.len() {
                        assert(out@[k] == i);
                    } else {
                        assert(before[k] == x as usize);
                    }
                }
            } else {
                if deleted(times@, current@, x) {
                    assert(out@[out@.len() - 1] == i);
                }
                if out@.contains(x as usize) {
                    let k = choose|k: int| 0 <= k < out@.len() && out@[k] == x as usize;
                    if k < before.len() {
                        assert(before[k] < i);
                    }
                }
            }
        }
        i = i + 1;
    }
    out
}

} // verus!
