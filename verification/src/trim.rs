//! Silence trimming of a 16-bit mono recording.
//!
//! The recording is cut into frames; each frame is marked as voiced or not
//! (the loudness measurement itself is floating point and happens outside
//! this module).  Runs of voiced frames become sample ranges, which are
//! padded, merged across short pauses, and concatenated.

use vstd::prelude::*;

verus! {

/// Length of one analysis frame, in milliseconds.
pub const FRAME_MS: u64 = 20;

/// Pauses shorter than this (in milliseconds) are kept.
pub const MIN_SILENCE_MS: u64 = 350;

/// Audio kept before and after each voiced run, in milliseconds.
pub const PADDING_MS: u64 = 120;

/// Sample counts derived from the sample rate.
pub struct TrimParams {
    pub frame_size: usize,
    pub min_silence_samples: usize,
    pub padding_samples: usize,
}

pub open spec fn ms_to_samples(sample_rate: int, ms: int) -> int {
    sample_rate * ms / 1000
}

pub open spec fn spec_frame_size(sample_rate: int) -> int {
    if ms_to_samples(sample_rate, FRAME_MS as int) > 1 {
        ms_to_samples(sample_rate, FRAME_MS as int)
    } else {
        1
    }
}

/// Sample counts for a recording at `sample_rate` Hz.
pub open spec fn spec_trim_params(sample_rate: u32) -> TrimParams {
    TrimParams {
        frame_size: spec_frame_size(sample_rate as int) as usize,
        min_silence_samples: ms_to_samples(sample_rate as int, MIN_SILENCE_MS as int) as usize,
        padding_samples: ms_to_samples(sample_rate as int, PADDING_MS as int) as usize,
    }
}

/// Sample counts for a recording at `sample_rate` Hz.
pub fn trim_params(sample_rate: u32) -> (p: TrimParams)
    ensures
        p == spec_trim_params(sample_rate),
        p.frame_size == spec_frame_size(sample_rate as int),
        p.min_silence_samples == ms_to_samples(sample_rate as int, MIN_SILENCE_MS as int),
        p.padding_samples == ms_to_samples(sample_rate as int, PADDING_MS as int),
        p.frame_size > 0,
{
    let rate: u64 = sample_rate as u64;
    let frame: u64 = rate * FRAME_MS / 1000;
    let silence: u64 = rate * MIN_SILENCE_MS / 1000;
    let padding: u64 = rate * PADDING_MS / 1000;
    assert(frame <= 0xffff_ffff) by {
        assert(rate * FRAME_MS <= 0xffff_ffff * 20);
    }
    assert(silence <= 0xffff_ffff) by {
        assert(rate * MIN_SILENCE_MS <= 0xffff_ffff * 350);
    }
    assert(padding <= 0xffff_ffff) by {
        assert(rate * PADDING_MS <= 0xffff_ffff * 120);
    }
    let frame_size: usize = if frame > 1 { frame as usize } else { 1 };
    TrimParams {
        frame_size,
        min_silence_samples: silence as usize,
        padding_samples: padding as usize,
    }
}

/// Number of frames of `frame_size` samples that cover `len` samples
/// (the last frame may be shorter).
pub open spec fn spec_frame_count(len: int, frame_size: int) -> int {
    if len <= 0 {
        0
    } else {
        (len - 1) / frame_size + 1
    }
}

/// Number of frames of `frame_size` samples that cover `len` samples.
pub fn frame_count(len: usize, frame_size: usize) -> (n: usize)
    requires
        frame_size > 0,
    ensures
        n == spec_frame_count(len as int, frame_size as int),
{
    if len == 0 {
        0
    } else {
        (len - 1) / frame_size + 1
    }
}

proof fn lemma_frame_start_in_bounds(i: int, len: int, frame_size: int)
    requires
        frame_size > 0,
        0 <= i < spec_frame_count(len, frame_size),
    ensures
        0 <= i * frame_size < len,
{
    let q: int = (len - 1) / frame_size;
    assert(q * frame_size <= len - 1) by (nonlinear_arith)
        requires
            frame_size > 0,
            len >= 1,
            q == (len - 1) / frame_size,
    ;
    assert(i * frame_size <= q * frame_size) by (nonlinear_arith)
        requires
            0 <= i <= q,
            frame_size > 0,
    ;
    assert(0 <= i * frame_size) by (nonlinear_arith)
        requires
            0 <= i,
            frame_size > 0,
    ;
}


/// Integer view of a list of sample ranges.
pub open spec fn ranges_view(v: Seq<(usize, usize)>) -> Seq<(int, int)> {
    Seq::new(v.len(), |i: int| (v[i].0 as int, v[i].1 as int))
}

pub open spec fn opt_view(o: Option<usize>) -> Option<int> {
    match o {
        Some(s) => Some(s as int),
        None => None,
    }
}

pub open spec fn min_int(a: int, b: int) -> int {
    if a < b { a } else { b }
}

pub open spec fn max_int(a: int, b: int) -> int {
    if a > b { a } else { b }
}

/// After looking at frames `0..k`: the closed voiced runs, as sample ranges,
/// and the first sample of a run that is still open.
pub open spec fn scan_runs(voiced: Seq<bool>, frame_size: int, len: int, k: nat) -> (Seq<(int, int)>, Option<int>)
    decreases k,
{
    if k == 0 {
        (Seq::empty(), None)
    } else {
        let prev = scan_runs(voiced, frame_size, len, (k - 1) as nat);
        let i: int = k - 1;
        if voiced[i] {
            match prev.1 {
                None => (prev.0, Some(i * frame_size)),
                Some(_) => prev,
            }
        } else {
            match prev.1 {
                Some(s) => (prev.0.push((s, min_int(i * frame_size, len))), None),
                None => prev,
            }
        }
    }
}

/// Sample ranges covered by runs of voiced frames; a run still open after
/// the last frame ends at the end of the recording.
pub open spec fn voiced_ranges(voiced: Seq<bool>, frame_size: int, len: int) -> Seq<(int, int)> {
    let r = scan_runs(voiced, frame_size, len, voiced.len());
    match r.1 {
        Some(s) => r.0.push((s, len)),
        None => r.0,
    }
}

/// Every range is non-empty and lies inside `0..len`.
pub open spec fn ranges_in_bounds(rs: Seq<(int, int)>, len: int) -> bool {
    forall|i: int| 0 <= i < rs.len() ==> 0 <= #[trigger] rs[i].0 < rs[i].1 <= len
}

/// Sample ranges of the runs of voiced frames.
///
/// `voiced[i]` tells whether frame `i` (samples `i * frame_size ..`) is loud
/// enough to count as speech.
pub fn speech_ranges(voiced: &Vec<bool>, frame_size: usize, len: usize) -> (r: Vec<(usize, usize)>)
    requires
        frame_size > 0,
        voiced@.len() == spec_frame_count(len as int, frame_size as int),
    ensures
        ranges_view(r@) == voiced_ranges(voiced@, frame_size as int, len as int),
        ranges_in_bounds(ranges_view(r@), len as int),
{
    let n: usize = voiced.len();
    let mut ranges: Vec<(usize, usize)> = Vec::new();
    let mut current: Option<usize> = None;
    let mut i: usize = 0;
    while i < n
        invariant
            n == voiced@.len(),
            frame_size > 0,
            n == spec_frame_count(len as int, frame_size as int),
            0 <= i <= n,
            (ranges_view(ranges@), opt_view(current)) == scan_runs(voiced@, frame_size as int, len as int, i as nat),
            ranges_in_bounds(ranges_view(ranges@), len as int),
            current matches Some(s) ==> s < len && s < i * frame_size,
        decreases n - i,
    {
        proof {
            lemma_frame_start_in_bounds(i as int, len as int, frame_size as int);
        }
        let start: usize = i * frame_size;
        let ghost prev = ranges@;
        if voiced[i] {
            if current.is_none() {
                current = Some(start);
            }
        } else {
            match current {
                Some(s) => {
                    let end: usize = if start < len { start } else { len };
                    ranges.push((s, end));
                    current = None;
                    assert(ranges_view(ranges@) =~= ranges_view(prev).push((s as int, end as int)));
                }
                None => {}
            }
        }
        proof {
            assert((i + 1) * frame_size == i * frame_size + frame_size) by (nonlinear_arith);
        }
        i = i + 1;
    }
    match current {
        Some(s) => {
            let ghost prev = ranges@;
            ranges.push((s, len));
            assert(ranges_view(ranges@) =~= ranges_view(prev).push((s as int, len as int)));
        }
        None => {}
    }
    ranges
}


/// `a - b`, or 0 where that would be negative.
pub open spec fn saturating_diff(a: int, b: int) -> int {
    if a > b { a - b } else { 0 }
}

/// A range widened by `padding` samples on each side, kept inside `0..len`.
pub open spec fn pad_range(r: (int, int), padding: int, len: int) -> (int, int) {
    (saturating_diff(r.0, padding), min_int(r.1 + padding, len))
}

pub open spec fn pad_ranges(rs: Seq<(int, int)>, padding: int, len: int) -> Seq<(int, int)> {
    Seq::new(rs.len(), |i: int| pad_range(rs[i], padding, len))
}

/// Ranges joined left to right: a range that starts less than `min_gap`
/// samples after the end of the previous joined range extends it.
pub open spec fn merge_ranges(rs: Seq<(int, int)>, min_gap: int) -> Seq<(int, int)>
    decreases rs.len(),
{
    if rs.len() == 0 {
        Seq::empty()
    } else {
        let m = merge_ranges(rs.drop_last(), min_gap);
        let r = rs.last();
        if m.len() > 0 && saturating_diff(r.0, m.last().1) < min_gap {
            m.update(m.len() - 1, (m.last().0, max_int(m.last().1, r.1)))
        } else {
            m.push(r)
        }
    }
}

/// Furthest end among the ranges of a non-empty `rs`.
pub open spec fn furthest_end(rs: Seq<(int, int)>) -> int
    decreases rs.len(),
{
    if rs.len() <= 1 {
        if rs.len() == 1 { rs[0].1 } else { 0 }
    } else {
        max_int(furthest_end(rs.drop_last()), rs.last().1)
    }
}

/// Range `i` starts a new group: it is the first, or it starts at least
/// `min_gap` samples after every earlier range has ended.
pub open spec fn starts_group(rs: Seq<(int, int)>, min_gap: int, i: int) -> bool {
    i == 0 || saturating_diff(rs[i].0, furthest_end(rs.take(i))) >= min_gap
}

/// Number of ranges among the first `k` that start a new group.
pub open spec fn group_count(rs: Seq<(int, int)>, min_gap: int, k: nat) -> nat
    decreases k,
{
    if k == 0 {
        0
    } else {
        group_count(rs, min_gap, (k - 1) as nat) + if starts_group(rs, min_gap, k - 1) { 1nat } else { 0nat }
    }
}

proof fn lemma_group_count_prefix(rs: Seq<(int, int)>, min_gap: int, k: nat)
    requires
        k < rs.len(),
    ensures
        group_count(rs.drop_last(), min_gap, k) == group_count(rs, min_gap, k),
    decreases k,
{
    if k > 0 {
        lemma_group_count_prefix(rs, min_gap, (k - 1) as nat);
        assert(rs.drop_last().take(k - 1) =~= rs.take(k - 1));
    }
}

/// Merging joins exactly across short gaps: the kept parts correspond one
/// to one to the groups of ranges, a new group beginning wherever a range
/// starts at least `min_gap` after every earlier range has ended.  Every
/// such range begins a kept part (a long pause is always removed), there
/// are as many kept parts as groups (a short pause never separates two
/// parts), and for a positive `min_gap` the last part reaches the furthest
/// end.
pub proof fn lemma_merge_groups(rs: Seq<(int, int)>, min_gap: int)
    requires
        min_gap >= 0,
        forall|x: int| 0 <= x < rs.len() ==> #[trigger] rs[x].0 <= rs[x].1,
    ensures
        merge_ranges(rs, min_gap).len() == group_count(rs, min_gap, rs.len()),
        forall|i: int|
            0 <= i < rs.len() && #[trigger] starts_group(rs, min_gap, i) ==> exists|j: int|
                0 <= j < merge_ranges(rs, min_gap).len() && #[trigger] merge_ranges(rs, min_gap)[j].0 == rs[i].0,
        rs.len() > 0 && min_gap > 0 ==> merge_ranges(rs, min_gap).last().1 == furthest_end(rs),
    decreases rs.len(),
{
    if rs.len() > 0 {
        let init = rs.drop_last();
        let n = rs.len() as int;
        assert forall|x: int| 0 <= x < init.len() implies #[trigger] init[x].0 <= init[x].1 by {
            assert(init[x] == rs[x]);
        }
        lemma_merge_groups(init, min_gap);
        lemma_group_count_prefix(rs, min_gap, (n - 1) as nat);
        let m = merge_ranges(init, min_gap);
        let r = rs.last();
        let out = merge_ranges(rs, min_gap);
        assert(rs.take(n - 1) =~= init);
        assert(r.0 <= r.1);
        if n > 1 {
            assert(furthest_end(rs) == max_int(furthest_end(init), r.1));
        } else {
            assert(furthest_end(rs) == r.1);
        }
        if m.len() > 0 && saturating_diff(r.0, m.last().1) < min_gap {
            assert(!starts_group(rs, min_gap, n - 1));
            assert forall|i: int|
                0 <= i < rs.len() && #[trigger] starts_group(rs, min_gap, i) implies exists|j: int|
                    0 <= j < out.len() && #[trigger] out[j].0 == rs[i].0 by {
                assert(i < n - 1);
                assert(init[i] == rs[i]);
                assert(init.take(i) =~= rs.take(i));
                assert(starts_group(init, min_gap, i));
                let j = choose|j: int| 0 <= j < m.len() && #[trigger] m[j].0 == init[i].0;
                assert(out[j].0 == m[j].0);
            }
        } else {
            assert(m.len() == 0 ==> n == 1);
            assert(starts_group(rs, min_gap, n - 1));
            assert forall|i: int|
                0 <= i < rs.len() && #[trigger] starts_group(rs, min_gap, i) implies exists|j: int|
                    0 <= j < out.len() && #[trigger] out[j].0 == rs[i].0 by {
                if i < n - 1 {
                    assert(init[i] == rs[i]);
                    assert(init.take(i) =~= rs.take(i));
                    assert(starts_group(init, min_gap, i));
                    let j = choose|j: int| 0 <= j < m.len() && #[trigger] m[j].0 == init[i].0;
                    assert(out[j].0 == m[j].0);
                } else {
                    assert(out[m.len() as int].0 == rs[i].0);
                }
            }
        }
    }
}

/// Every range satisfies `0 <= start <= end <= len`.
pub open spec fn ranges_within(rs: Seq<(int, int)>, len: int) -> bool {
    forall|i: int| 0 <= i < rs.len() ==> 0 <= #[trigger] rs[i].0 <= rs[i].1 <= len
}

/// The samples of each range, one range after the other.
pub open spec fn gather(samples: Seq<i16>, rs: Seq<(int, int)>) -> Seq<i16>
    decreases rs.len(),
{
    if rs.len() == 0 {
        Seq::empty()
    } else {
        gather(samples, rs.drop_last()) + samples.subrange(rs.last().0, rs.last().1)
    }
}

/// The kept ranges of a recording: voiced runs, padded, merged across
/// pauses shorter than the minimum silence.
pub open spec fn kept_ranges(voiced: Seq<bool>, p: TrimParams, len: int) -> Seq<(int, int)> {
    merge_ranges(
        pad_ranges(voiced_ranges(voiced, p.frame_size as int, len), p.padding_samples as int, len),
        p.min_silence_samples as int,
    )
}

/// What trimming makes of `samples`: `None` leaves the recording as it is
/// (no voiced frame, or nothing would be removed), `Some` is the shorter
/// recording to write back.
pub open spec fn trim_result(samples: Seq<i16>, voiced: Seq<bool>, p: TrimParams) -> Option<Seq<i16>> {
    let runs = voiced_ranges(voiced, p.frame_size as int, samples.len() as int);
    let kept = gather(samples, kept_ranges(voiced, p, samples.len() as int));
    if runs.len() == 0 || kept.len() >= samples.len() {
        None
    } else {
        Some(kept)
    }
}

/// Each range widened by `padding` samples on both sides, inside `0..len`.
pub fn pad(ranges: &Vec<(usize, usize)>, padding: usize, len: usize) -> (r: Vec<(usize, usize)>)
    requires
        ranges_within(ranges_view(ranges@), len as int),
    ensures
        ranges_view(r@) == pad_ranges(ranges_view(ranges@), padding as int, len as int),
        ranges_within(ranges_view(r@), len as int),
{
    let mut out: Vec<(usize, usize)> = Vec::new();
    let mut i: usize = 0;
    while i < ranges.len()
        invariant
            0 <= i <= ranges@.len(),
            ranges_within(ranges_view(ranges@), len as int),
            ranges_view(out@) =~= pad_ranges(ranges_view(ranges@), padding as int, len as int).take(i as int),
            ranges_within(ranges_view(out@), len as int),
        decreases ranges@.len() - i,
    {
        let (s, e) = ranges[i];
        assert(0 <= ranges_view(ranges@)[i as int].0 <= ranges_view(ranges@)[i as int].1 <= len);
        let start: usize = if s > padding { s - padding } else { 0 };
        let end: usize = if padding < len - e { e + padding } else { len };
        let ghost prev = out@;
        out.push((start, end));
        assert(ranges_view(out@) =~= ranges_view(prev).push((start as int, end as int)));
        i = i + 1;
    }
    out
}

/// Ranges joined across gaps shorter than `min_gap` samples.
pub fn merge(ranges: &Vec<(usize, usize)>, min_gap: usize, len: usize) -> (r: Vec<(usize, usize)>)
    requires
        ranges_within(ranges_view(ranges@), len as int),
    ensures
        ranges_view(r@) == merge_ranges(ranges_view(ranges@), min_gap as int),
        ranges_within(ranges_view(r@), len as int),
{
    let mut out: Vec<(usize, usize)> = Vec::new();
    let mut i: usize = 0;
    while i < ranges.len()
        invariant
            0 <= i <= ranges@.len(),
            ranges_within(ranges_view(ranges@), len as int),
            ranges_view(out@) == merge_ranges(ranges_view(ranges@).take(i as int), min_gap as int),
            ranges_within(ranges_view(out@), len as int),
        decreases ranges@.len() - i,
    {
        let (s, e) = ranges[i];
        assert(ranges_view(ranges@).take(i + 1).drop_last() =~= ranges_view(ranges@).take(i as int));
        assert(ranges_view(ranges@).take(i + 1).last() == ranges_view(ranges@)[i as int]);
        assert(0 <= ranges_view(ranges@)[i as int].0 <= ranges_view(ranges@)[i as int].1 <= len);
        let ghost prev = out@;
        let mut joined = false;
        if out.len() > 0 {
            let last: usize = out.len() - 1;
            let (ps, pe) = out[last];
            let gap: usize = if s > pe { s - pe } else { 0 };
            if gap < min_gap {
                let ne: usize = if pe > e { pe } else { e };
                out.set(last, (ps, ne));
                assert(ranges_view(out@) =~= ranges_view(prev).update(last as int, (ps as int, ne as int)));
                joined = true;
            }
        }
        if !joined {
            out.push((s, e));
            assert(ranges_view(out@) =~= ranges_view(prev).push((s as int, e as int)));
        }
        i = i + 1;
    }
    assert(ranges_view(ranges@).take(ranges@.len() as int) =~= ranges_view(ranges@));
    out
}

/// The samples of each range, one range after the other.
pub fn gather_samples(samples: &Vec<i16>, ranges: &Vec<(usize, usize)>) -> (r: Vec<i16>)
    requires
        ranges_within(ranges_view(ranges@), samples@.len() as int),
    ensures
        r@ == gather(samples@, ranges_view(ranges@)),
{
    let mut out: Vec<i16> = Vec::new();
    let mut i: usize = 0;
    while i < ranges.len()
        invariant
            0 <= i <= ranges@.len(),
            ranges_within(ranges_view(ranges@), samples@.len() as int),
            out@ == gather(samples@, ranges_view(ranges@).take(i as int)),
        decreases ranges@.len() - i,
    {
        let (s, e) = ranges[i];
        assert(0 <= ranges_view(ranges@)[i as int].0 <= ranges_view(ranges@)[i as int].1 <= samples@.len());
        let ghost before = out@;
        let mut j: usize = s;
        while j < e
            invariant
                s <= j <= e,
                e <= samples@.len(),
                out@ == before + samples@.subrange(s as int, j as int),
            decreases e - j,
        {
            out.push(samples[j]);
            assert(samples@.subrange(s as int, j + 1) =~= samples@.subrange(s as int, j as int).push(samples@[j as int]));
            j = j + 1;
        }
        assert(ranges_view(ranges@).take(i + 1).drop_last() =~= ranges_view(ranges@).take(i as int));
        assert(ranges_view(ranges@).take(i + 1).last() == ranges_view(ranges@)[i as int]);
        i = i + 1;
    }
    assert(ranges_view(ranges@).take(ranges@.len() as int) =~= ranges_view(ranges@));
    out
}

/// The recording with its long silences removed, or `None` where it is to
/// stay as it is (no voiced frame, or trimming would not shorten it).
///
/// `voiced[i]` tells whether frame `i` of `params.frame_size` samples counts
/// as speech.
pub fn trimmed_samples(samples: &Vec<i16>, voiced: &Vec<bool>, params: &TrimParams) -> (r: Option<Vec<i16>>)
    requires
        params.frame_size > 0,
        voiced@.len() == spec_frame_count(samples@.len() as int, params.frame_size as int),
    ensures
        match r {
            Some(v) => trim_result(samples@, voiced@, *params) == Some(v@),
            None => trim_result(samples@, voiced@, *params) is None,
        },
        r matches Some(v) ==> v@.len() < samples@.len(),
{
    let len: usize = samples.len();
    let runs = speech_ranges(voiced, params.frame_size, len);
    if runs.len() == 0 {
        return None;
    }
    assert(ranges_within(ranges_view(runs@), len as int));
    let padded = pad(&runs, params.padding_samples, len);
    let merged = merge(&padded, params.min_silence_samples, len);
    let kept = gather_samples(samples, &merged);
    if kept.len() >= len {
        None
    } else {
        Some(kept)
    }
}


/// Consecutive ranges are at least `min_gap` samples apart.
pub open spec fn separated_by(rs: Seq<(int, int)>, min_gap: int) -> bool {
    forall|i: int| 0 <= i < rs.len() - 1 ==> #[trigger] rs[i].1 + min_gap <= rs[i + 1].0
}

/// Merging leaves only gaps of at least `min_gap` samples between the kept
/// ranges: every silence that trimming removes from the middle of a
/// recording is at least the minimum silence long.
pub proof fn lemma_merged_ranges_separated(rs: Seq<(int, int)>, min_gap: int)
    requires
        min_gap > 0,
    ensures
        separated_by(merge_ranges(rs, min_gap), min_gap),
    decreases rs.len(),
{
    if rs.len() > 0 {
        lemma_merged_ranges_separated(rs.drop_last(), min_gap);
        let m = merge_ranges(rs.drop_last(), min_gap);
        let r = rs.last();
        let out = merge_ranges(rs, min_gap);
        if m.len() > 0 && saturating_diff(r.0, m.last().1) < min_gap {
            assert forall|i: int| 0 <= i < out.len() - 1 implies #[trigger] out[i].1 + min_gap <= out[i + 1].0 by {
                assert(out[i] == m[i]);
                assert(out[i + 1].0 == m[i + 1].0);
            }
        } else {
            assert forall|i: int| 0 <= i < out.len() - 1 implies #[trigger] out[i].1 + min_gap <= out[i + 1].0 by {
                if i < m.len() - 1 {
                    assert(out[i] == m[i]);
                    assert(out[i + 1] == m[i + 1]);
                }
            }
        }
    }
}


/// Samples of frame `i`.
pub open spec fn frame_range(i: int, frame_size: int, len: int) -> (int, int) {
    (i * frame_size, min_int((i + 1) * frame_size, len))
}

/// Some range of `rs` contains the range `r`.
pub open spec fn covered(rs: Seq<(int, int)>, r: (int, int)) -> bool {
    exists|x: int| 0 <= x < rs.len() && #[trigger] rs[x].0 <= r.0 && r.1 <= rs[x].1
}

/// Starts never decrease and every range lies inside `0..len`, start
/// before end.
pub open spec fn ordered_within(rs: Seq<(int, int)>, len: int) -> bool {
    &&& forall|x: int| 0 <= x < rs.len() ==> 0 <= #[trigger] rs[x].0 <= rs[x].1 <= len
    &&& forall|x: int, y: int| 0 <= x < y < rs.len() ==> #[trigger] rs[x].0 <= #[trigger] rs[y].0
}

proof fn lemma_scan_invariant(voiced: Seq<bool>, fs: int, len: int, k: nat)
    requires
        fs > 0,
        voiced.len() == spec_frame_count(len, fs),
        k <= voiced.len(),
    ensures
        ({
            let (r, cur) = scan_runs(voiced, fs, len, k);
            &&& forall|x: int| 0 <= x < r.len() ==> 0 <= #[trigger] r[x].0 < r[x].1 <= len
            &&& forall|x: int| 0 <= x < r.len() ==> #[trigger] r[x].1 + fs <= k * fs
            &&& forall|x: int, y: int| 0 <= x < y < r.len() ==> #[trigger] r[x].1 < #[trigger] r[y].0
            &&& cur matches Some(s) ==> 0 <= s < len && s + fs <= k * fs && forall|x: int|
                0 <= x < r.len() ==> #[trigger] r[x].1 < s
            &&& forall|j: int|
                0 <= j < k && #[trigger] voiced[j] ==> covered(r, frame_range(j, fs, len)) || (cur matches Some(
                    s,
                ) && s <= j * fs)
        }),
    decreases k,
{
    if k > 0 {
        let i: int = k - 1;
        lemma_scan_invariant(voiced, fs, len, (k - 1) as nat);
        lemma_frame_start_in_bounds(i, len, fs);
        let (r0, c0) = scan_runs(voiced, fs, len, (k - 1) as nat);
        let (r, cur) = scan_runs(voiced, fs, len, k);
        assert(k * fs == i * fs + fs) by (nonlinear_arith)
            requires
                i == k - 1,
        ;
        if voiced[i] {
            assert forall|j: int| 0 <= j < k && #[trigger] voiced[j] implies covered(r, frame_range(j, fs, len)) || (
            cur matches Some(s) && s <= j * fs) by {
                if j < i {
                } else {
                    assert(j == i);
                }
            }
        } else {
            match c0 {
                Some(s) => {
                    let e: int = min_int(i * fs, len);
                    assert(r == r0.push((s, e)));
                    assert forall|j: int| 0 <= j < k && #[trigger] voiced[j] implies covered(r, frame_range(j, fs, len)) by {
                        if covered(r0, frame_range(j, fs, len)) {
                            let x = choose|x: int| 0 <= x < r0.len() && #[trigger] r0[x].0 <= frame_range(j, fs, len).0 && frame_range(j, fs, len).1 <= r0[x].1;
                            assert(r[x] == r0[x]);
                            assert(r[x].0 <= frame_range(j, fs, len).0 && frame_range(j, fs, len).1 <= r[x].1);
                        } else {
                            assert(j != i);
                            assert((j + 1) * fs <= i * fs) by (nonlinear_arith)
                                requires
                                    0 <= j < i,
                                    fs > 0,
                            ;
                            let x: int = r0.len() as int;
                            assert(r[x] == (s, e));
                            assert(r[x].0 <= frame_range(j, fs, len).0 && frame_range(j, fs, len).1 <= r[x].1);
                        }
                    }
                    assert forall|x: int, y: int| 0 <= x < y < r.len() implies #[trigger] r[x].1 < #[trigger] r[y].0 by {
                        if y < r0.len() {
                        } else {
                            assert(r[y] == (s, e));
                        }
                    }
                },
                None => {
                    assert forall|j: int| 0 <= j < k && #[trigger] voiced[j] implies covered(r, frame_range(j, fs, len)) by {
                        if j == i {
                        }
                    }
                },
            }
        }
    }
}

proof fn lemma_voiced_ranges_cover(voiced: Seq<bool>, fs: int, len: int)
    requires
        fs > 0,
        voiced.len() == spec_frame_count(len, fs),
    ensures
        ordered_within(voiced_ranges(voiced, fs, len), len),
        forall|x: int| 0 <= x < voiced_ranges(voiced, fs, len).len() ==> #[trigger] voiced_ranges(voiced, fs, len)[x].0 < voiced_ranges(voiced, fs, len)[x].1,
        forall|x: int, y: int| 0 <= x < y < voiced_ranges(voiced, fs, len).len() ==> #[trigger] voiced_ranges(voiced, fs, len)[x].1 < #[trigger] voiced_ranges(voiced, fs, len)[y].0,
        forall|j: int|
            0 <= j < voiced.len() && #[trigger] voiced[j] ==> covered(
                voiced_ranges(voiced, fs, len),
                frame_range(j, fs, len),
            ),
{
    lemma_scan_invariant(voiced, fs, len, voiced.len());
    let (r, cur) = scan_runs(voiced, fs, len, voiced.len());
    let v = voiced_ranges(voiced, fs, len);
    match cur {
        Some(s) => {
            assert(v == r.push((s, len)));
            assert forall|j: int| 0 <= j < voiced.len() && #[trigger] voiced[j] implies covered(v, frame_range(j, fs, len)) by {
                if covered(r, frame_range(j, fs, len)) {
                    let x = choose|x: int| 0 <= x < r.len() && #[trigger] r[x].0 <= frame_range(j, fs, len).0 && frame_range(j, fs, len).1 <= r[x].1;
                    assert(v[x] == r[x]);
                    assert(v[x].0 <= frame_range(j, fs, len).0 && frame_range(j, fs, len).1 <= v[x].1);
                } else {
                    let x: int = r.len() as int;
                    assert(v[x] == (s, len));
                    assert(v[x].0 <= frame_range(j, fs, len).0 && frame_range(j, fs, len).1 <= v[x].1);
                }
            }
            assert forall|x: int, y: int| 0 <= x < y < v.len() implies #[trigger] v[x].0 <= #[trigger] v[y].0 by {
                if y < r.len() {
                    assert(r[x].1 < r[y].0);
                } else {
                    assert(r[x].1 < s);
                }
            }
        },
        None => {
            assert forall|x: int, y: int| 0 <= x < y < v.len() implies #[trigger] v[x].0 <= #[trigger] v[y].0 by {
                assert(r[x].1 < r[y].0);
            }
        },
    }
}

proof fn lemma_pad_cover(rs: Seq<(int, int)>, padding: int, len: int)
    requires
        padding >= 0,
        ordered_within(rs, len),
    ensures
        ordered_within(pad_ranges(rs, padding, len), len),
        forall|r: (int, int)| covered(rs, r) ==> covered(pad_ranges(rs, padding, len), r),
{
    let p = pad_ranges(rs, padding, len);
    assert forall|r: (int, int)| covered(rs, r) implies covered(p, r) by {
        let x = choose|x: int| 0 <= x < rs.len() && #[trigger] rs[x].0 <= r.0 && r.1 <= rs[x].1;
        assert(p[x].0 <= r.0 && r.1 <= p[x].1);
    }
    assert forall|x: int, y: int| 0 <= x < y < p.len() implies #[trigger] p[x].0 <= #[trigger] p[y].0 by {
        assert(rs[x].0 <= rs[y].0);
    }
}

proof fn lemma_merge_cover(rs: Seq<(int, int)>, min_gap: int)
    requires
        forall|x: int| 0 <= x < rs.len() ==> #[trigger] rs[x].0 <= rs[x].1,
        forall|x: int, y: int| 0 <= x < y < rs.len() ==> #[trigger] rs[x].0 <= #[trigger] rs[y].0,
    ensures
        forall|x: int| 0 <= x < rs.len() ==> covered(merge_ranges(rs, min_gap), #[trigger] rs[x]),
        rs.len() > 0 ==> merge_ranges(rs, min_gap).len() > 0 && merge_ranges(rs, min_gap).last().0 <= rs.last().0,
    decreases rs.len(),
{
    if rs.len() > 0 {
        let init = rs.drop_last();
        lemma_merge_cover(init, min_gap);
        let m = merge_ranges(init, min_gap);
        let r = rs.last();
        let out = merge_ranges(rs, min_gap);
        if m.len() > 0 && saturating_diff(r.0, m.last().1) < min_gap {
            let last: int = m.len() - 1;
            assert(init.len() > 0);
            assert(m.last().0 <= init.last().0);
            assert(init.last().0 <= r.0) by {
                assert(init.last() == rs[rs.len() - 2]);
            }
            assert forall|x: int| 0 <= x < rs.len() implies covered(out, #[trigger] rs[x]) by {
                if x < rs.len() - 1 {
                    assert(init[x] == rs[x]);
                    let j = choose|j: int| 0 <= j < m.len() && #[trigger] m[j].0 <= init[x].0 && init[x].1 <= m[j].1;
                    assert(out[j].0 <= rs[x].0 && rs[x].1 <= out[j].1);
                } else {
                    assert(out[last].0 <= rs[x].0 && rs[x].1 <= out[last].1);
                }
            }
        } else {
            assert forall|x: int| 0 <= x < rs.len() implies covered(out, #[trigger] rs[x]) by {
                if x < rs.len() - 1 {
                    assert(init[x] == rs[x]);
                    let j = choose|j: int| 0 <= j < m.len() && #[trigger] m[j].0 <= init[x].0 && init[x].1 <= m[j].1;
                    assert(out[j] == m[j]);
                } else {
                    assert(out[m.len() as int] == r);
                }
            }
        }
    }
}

/// Trimming removes no speech: the samples of every voiced frame, with the
/// padding before and after it, lie inside one of the kept ranges (so they
/// stay together and in order in the trimmed recording).
pub proof fn lemma_voiced_frames_kept(voiced: Seq<bool>, p: TrimParams, len: int, i: int)
    requires
        p.frame_size > 0,
        voiced.len() == spec_frame_count(len, p.frame_size as int),
        0 <= i < voiced.len(),
        voiced[i],
    ensures
        covered(kept_ranges(voiced, p, len), frame_range(i, p.frame_size as int, len)),
        covered(
            kept_ranges(voiced, p, len),
            pad_range(frame_range(i, p.frame_size as int, len), p.padding_samples as int, len),
        ),
{
    let fs: int = p.frame_size as int;
    let v = voiced_ranges(voiced, fs, len);
    let padded = pad_ranges(v, p.padding_samples as int, len);
    lemma_voiced_ranges_cover(voiced, fs, len);
    lemma_pad_cover(v, p.padding_samples as int, len);
    lemma_merge_cover(padded, p.min_silence_samples as int);
    let f = frame_range(i, fs, len);
    assert(covered(padded, f));
    let x = choose|x: int| 0 <= x < padded.len() && #[trigger] padded[x].0 <= f.0 && f.1 <= padded[x].1;
    assert(covered(kept_ranges(voiced, p, len), padded[x]));
    assert(covered(v, f));
    let y = choose|y: int| 0 <= y < v.len() && #[trigger] v[y].0 <= f.0 && f.1 <= v[y].1;
    let pf = pad_range(f, p.padding_samples as int, len);
    assert(padded[y] == pad_range(v[y], p.padding_samples as int, len));
    assert(padded[y].0 <= pf.0 && pf.1 <= padded[y].1);
    assert(covered(kept_ranges(voiced, p, len), padded[y]));
    let k = kept_ranges(voiced, p, len);
    let z = choose|z: int| 0 <= z < k.len() && #[trigger] k[z].0 <= padded[y].0 && padded[y].1 <= k[z].1;
    assert(k[z].0 <= pf.0 && pf.1 <= k[z].1);
}

/// Merging keeps ranges non-empty and inside `0..len`.
proof fn lemma_merge_in_bounds(rs: Seq<(int, int)>, min_gap: int, len: int)
    requires
        ranges_in_bounds(rs, len),
    ensures
        ranges_in_bounds(merge_ranges(rs, min_gap), len),
    decreases rs.len(),
{
    if rs.len() > 0 {
        let init = rs.drop_last();
        assert forall|x: int| 0 <= x < init.len() implies 0 <= #[trigger] init[x].0 < init[x].1 <= len by {
            assert(init[x] == rs[x]);
        }
        lemma_merge_in_bounds(init, min_gap, len);
        let m = merge_ranges(init, min_gap);
        let out = merge_ranges(rs, min_gap);
        assert(0 <= rs.last().0 < rs.last().1 <= len);
        assert forall|x: int| 0 <= x < out.len() implies 0 <= #[trigger] out[x].0 < out[x].1 <= len by {
            if x < m.len() {
                assert(0 <= m[x].0 < m[x].1 <= len);
            }
        }
    }
}

/// Without padding and without a minimum gap, trimming keeps exactly the
/// voiced runs.
proof fn lemma_unpadded_unmerged(rs: Seq<(int, int)>, len: int)
    requires
        forall|x: int| 0 <= x < rs.len() ==> 0 <= #[trigger] rs[x].0 <= rs[x].1 <= len,
    ensures
        merge_ranges(pad_ranges(rs, 0, len), 0) == rs,
    decreases rs.len(),
{
    assert(pad_ranges(rs, 0, len) =~= rs);
    lemma_merge_none(rs);
}

proof fn lemma_merge_none(rs: Seq<(int, int)>)
    ensures
        merge_ranges(rs, 0) == rs,
    decreases rs.len(),
{
    if rs.len() > 0 {
        lemma_merge_none(rs.drop_last());
        assert(rs.drop_last().push(rs.last()) =~= rs);
    }
}

/// Consecutive ranges leave a gap of at least one sample.
pub open spec fn strictly_apart(rs: Seq<(int, int)>) -> bool {
    forall|i: int| 0 <= i < rs.len() - 1 ==> #[trigger] rs[i].1 < rs[i + 1].0
}

/// A trimmed recording is an ordered concatenation of disjoint parts of the
/// original: the kept ranges are non-empty, inside the recording, in
/// increasing order with gaps between them, and every gap (every silence
/// removed between two kept parts) is at least the minimum silence long.
/// This holds whenever a zero minimum silence comes with zero padding, as
/// the parameters of every sample rate do (`lemma_trim_params_consistent`).
pub proof fn lemma_kept_ranges_ordered(voiced: Seq<bool>, p: TrimParams, len: int)
    requires
        p.frame_size > 0,
        p.min_silence_samples > 0 || p.padding_samples == 0,
        len >= 0,
        voiced.len() == spec_frame_count(len, p.frame_size as int),
    ensures
        ranges_in_bounds(kept_ranges(voiced, p, len), len),
        separated_by(kept_ranges(voiced, p, len), p.min_silence_samples as int),
        strictly_apart(kept_ranges(voiced, p, len)),
{
    let fs = p.frame_size as int;
    let v = voiced_ranges(voiced, fs, len);
    let padded = pad_ranges(v, p.padding_samples as int, len);
    lemma_voiced_ranges_cover(voiced, fs, len);
    lemma_pad_in_bounds(v, p.padding_samples as int, len);
    lemma_merge_in_bounds(padded, p.min_silence_samples as int, len);
    if p.min_silence_samples > 0 {
        lemma_merged_ranges_separated(padded, p.min_silence_samples as int);
        lemma_separated_apart(merge_ranges(padded, p.min_silence_samples as int), p.min_silence_samples as int);
    } else {
        lemma_unpadded_unmerged(v, len);
        lemma_apart_separated(v);
    }
}

proof fn lemma_pad_in_bounds(v: Seq<(int, int)>, padding: int, len: int)
    requires
        padding >= 0,
        ranges_in_bounds(v, len),
    ensures
        ranges_in_bounds(pad_ranges(v, padding, len), len),
{
    let padded = pad_ranges(v, padding, len);
    assert forall|x: int| 0 <= x < padded.len() implies 0 <= #[trigger] padded[x].0 < padded[x].1 <= len by {
        assert(0 <= v[x].0 < v[x].1 <= len);
    }
}

proof fn lemma_separated_apart(k: Seq<(int, int)>, min_gap: int)
    requires
        min_gap > 0,
        separated_by(k, min_gap),
    ensures
        strictly_apart(k),
{
    assert forall|i: int| 0 <= i < k.len() - 1 implies #[trigger] k[i].1 < k[i + 1].0 by {
        assert(k[i].1 + min_gap <= k[i + 1].0);
    }
}

proof fn lemma_apart_separated(v: Seq<(int, int)>)
    requires
        forall|x: int, y: int| 0 <= x < y < v.len() ==> #[trigger] v[x].1 < #[trigger] v[y].0,
    ensures
        strictly_apart(v),
        separated_by(v, 0),
{
    assert forall|i: int| 0 <= i < v.len() - 1 implies #[trigger] v[i].1 < v[i + 1].0 by {
        assert(v[i].1 < v[i + 1].0);
    }
}

/// At every sample rate, the samples a trimmed recording keeps are the
/// concatenation of ordered, disjoint, non-empty parts of the original,
/// consecutive parts at least the minimum silence apart; the trimmed
/// recording is shorter than the original.
pub proof fn lemma_trim_at_rate(samples: Seq<i16>, voiced: Seq<bool>, sample_rate: u32)
    requires
        voiced.len() == spec_frame_count(samples.len() as int, spec_trim_params(sample_rate).frame_size as int),
    ensures
        ranges_in_bounds(kept_ranges(voiced, spec_trim_params(sample_rate), samples.len() as int), samples.len() as int),
        separated_by(
            kept_ranges(voiced, spec_trim_params(sample_rate), samples.len() as int),
            spec_trim_params(sample_rate).min_silence_samples as int,
        ),
        strictly_apart(kept_ranges(voiced, spec_trim_params(sample_rate), samples.len() as int)),
        trim_result(samples, voiced, spec_trim_params(sample_rate)) matches Some(t) ==> t == gather(
            samples,
            kept_ranges(voiced, spec_trim_params(sample_rate), samples.len() as int),
        ) && t.len() < samples.len(),
{
    lemma_trim_params_consistent(sample_rate);
    lemma_kept_ranges_ordered(voiced, spec_trim_params(sample_rate), samples.len() as int);
}

/// Position of the noise floor among the frame levels sorted in increasing
/// order: the 20th percentile.
pub fn noise_floor_index(frames: usize) -> (i: usize)
    requires
        frames > 0,
    ensures
        i == frames / 5,
        i < frames,
{
    frames / 5
}

/// At every sample rate the parameters have a positive frame size, and a
/// zero minimum silence only comes with zero padding.
pub proof fn lemma_trim_params_consistent(sample_rate: u32)
    ensures
        spec_trim_params(sample_rate).frame_size > 0,
        spec_trim_params(sample_rate).min_silence_samples > 0 || spec_trim_params(sample_rate).padding_samples == 0,
{
    let r = sample_rate as int;
    assert(r * 20 <= 0xffff_ffff * 20);
    assert(r * 350 <= 0xffff_ffff * 350);
    assert(r * 120 <= 0xffff_ffff * 120);
    if r * 350 / 1000 == 0 {
        assert(r <= 2);
        assert(r * 120 / 1000 == 0);
    }
}

} // verus!
