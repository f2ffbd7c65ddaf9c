//! Audio bookkeeping on plain 16-bit PCM samples: duration arithmetic,
//! trailing-silence trimming, input-device selection and stream-config
//! ranking. The capture callback itself lives with the binary; it hands the
//! library integer samples.
use vstd::prelude::*;

verus! {

#[derive(Debug, Copy, Clone, PartialEq, Eq, Structural)]
pub enum AudioErrorKind {
    DeviceNotFound,
    DeviceUnavailable,
    DeviceQuery,
    StreamConfig,
    StreamBuild,
    StreamStart,
}

#[derive(Debug)]
pub struct AudioError {
    pub kind: AudioErrorKind,
    pub message: String,
}

impl AudioError {
    pub fn new(kind: AudioErrorKind, message: String) -> (r: AudioError)
        ensures
            r.kind == kind,
            r.message == message,
    {
        AudioError { kind, message }
    }
}

/// Position of one finished utterance: its index and its length in
/// milliseconds.
#[derive(Debug, Copy, Clone)]
pub struct SegmentInfo {
    pub index: u64,
    pub duration_ms: u64,
}

/// Voice-activity settings. The energy threshold is an RMS level in absolute
/// 16-bit sample units (full scale is 32767).
#[derive(Debug, Copy, Clone)]
pub struct VadConfig {
    pub enabled: bool,
    pub energy_threshold: u16,
    pub silence_timeout_ms: u64,
    pub chunk_ms: u64,
    pub debug: bool,
}

impl VadConfig {
    pub fn new(enabled: bool, silence_timeout_ms: u64, energy_threshold: u16, chunk_ms: u64, debug: bool) -> (r:
        VadConfig)
        ensures
            r == (VadConfig { enabled, energy_threshold, silence_timeout_ms, chunk_ms, debug }),
    {
        VadConfig { enabled, energy_threshold, silence_timeout_ms, chunk_ms, debug }
    }
}

/// Milliseconds covered by `samples` mono PCM samples at `sample_rate` Hz,
/// rounded half-up; 0 when the rate is 0.
pub open spec fn spec_samples_to_ms(samples: nat, sample_rate: nat) -> nat {
    if sample_rate == 0 {
        0
    } else {
        ((samples * 1000 + sample_rate / 2) / sample_rate) as nat
    }
}

/// Duration in milliseconds of a buffer of `samples` mono samples recorded at
/// `sample_rate` Hz, saturating at `u64::MAX`.
pub fn samples_to_ms(samples: usize, sample_rate: u32) -> (ms: u64)
    ensures
        ms == if spec_samples_to_ms(samples as nat, sample_rate as nat) <= u64::MAX {
            spec_samples_to_ms(samples as nat, sample_rate as nat)
        } else {
            u64::MAX as nat
        },
{
    if sample_rate == 0 {
        return 0;
    }
    let wide: u128 = (samples as u128 * 1000 + (sample_rate / 2) as u128) / sample_rate as u128;
    if wide <= u64::MAX as u128 {
        wide as u64
    } else {
        u64::MAX
    }
}

/// Exact milliseconds for a sample count, in wide arithmetic.
fn samples_to_ms_wide(samples: usize, sample_rate: u32) -> (ms: u128)
    ensures
        ms == spec_samples_to_ms(samples as nat, sample_rate as nat),
{
    if sample_rate == 0 {
        return 0;
    }
    (samples as u128 * 1000 + (sample_rate / 2) as u128) / sample_rate as u128
}

/// `spec_samples_to_ms` clamped to what a `u64` can carry.
pub open spec fn spec_ms_u64(samples: nat, sample_rate: nat) -> nat {
    if spec_samples_to_ms(samples, sample_rate) <= u64::MAX {
        spec_samples_to_ms(samples, sample_rate)
    } else {
        u64::MAX as nat
    }
}

/// The number of samples that `ms` milliseconds cover at `sample_rate` Hz,
/// rounded half-up.
pub open spec fn spec_duration_to_samples(sample_rate: nat, ms: nat) -> nat {
    ((sample_rate * ms + 500) / 1000) as nat
}

/// Samples per `ms` milliseconds at `sample_rate` Hz, saturating at
/// `usize::MAX`.
pub fn duration_to_samples(sample_rate: u32, ms: u64) -> (n: usize)
    ensures
        n == if spec_duration_to_samples(sample_rate as nat, ms as nat) <= usize::MAX {
            spec_duration_to_samples(sample_rate as nat, ms as nat)
        } else {
            usize::MAX as nat
        },
{
    proof {
        assert(sample_rate as u128 * ms as u128 <= 0xffff_ffffu128 * 0xffff_ffff_ffff_ffffu128)
            by (nonlinear_arith)
            requires
                sample_rate as u128 <= 0xffff_ffffu128,
                ms as u128 <= 0xffff_ffff_ffff_ffffu128,
        ;
    }
    let wide: u128 = (sample_rate as u128 * ms as u128 + 500) / 1000;
    if wide <= usize::MAX as u128 {
        wide as usize
    } else {
        usize::MAX
    }
}

/// The sum of the squares of the samples.
pub open spec fn sum_squares(s: Seq<i16>) -> int
    decreases s.len(),
{
    if s.len() == 0 {
        0
    } else {
        sum_squares(s.drop_last()) + s.last() * s.last()
    }
}

proof fn lemma_sum_squares_bounds(s: Seq<i16>)
    ensures
        0 <= sum_squares(s) <= s.len() * 0x40000000,
    decreases s.len(),
{
    if s.len() > 0 {
        lemma_sum_squares_bounds(s.drop_last());
        assert(s.last() * s.last() <= 0x40000000) by (nonlinear_arith)
            requires
                -0x8000 <= s.last() <= 0x7fff,
        ;
        assert(0 <= s.last() * s.last()) by (nonlinear_arith);
        assert((s.len() - 1) * 0x40000000 + 0x40000000 == s.len() * 0x40000000) by (nonlinear_arith);
    }
}

/// Whether a chunk's RMS energy reaches `threshold`: since the RMS over `n`
/// samples is `sqrt(sum_squares / n)`, that is exactly
/// `sum_squares >= threshold^2 * n`.
pub open spec fn chunk_is_loud(chunk: Seq<i16>, threshold: u16) -> bool {
    sum_squares(chunk) >= (threshold as int) * (threshold as int) * chunk.len()
}

/// Whether the samples `s[from..to]` form a chunk at or above the threshold.
fn range_is_loud(s: &[i16], from: usize, to: usize, threshold: u16) -> (r: bool)
    requires
        from <= to <= s@.len(),
    ensures
        r == chunk_is_loud(s@.subrange(from as int, to as int), threshold),
{
    let mut sum: u128 = 0;
    let mut k: usize = from;
    while k < to
        invariant
            from <= k <= to <= s@.len(),
            sum == sum_squares(s@.subrange(from as int, k as int)),
            sum <= (k - from) * 0x40000000,
        decreases to - k,
    {
        let v: i64 = s[k] as i64;
        proof {
            assert(s@.subrange(from as int, k + 1).drop_last() =~= s@.subrange(
                from as int,
                k as int,
            ));
            assert(s@.subrange(from as int, k + 1).last() == s@[k as int]);
            assert(v * v <= 0x40000000) by (nonlinear_arith)
                requires
                    -0x8000 <= v <= 0x7fff,
            ;
            assert(0 <= v * v) by (nonlinear_arith);
            assert((k - from) * 0x40000000 + 0x40000000 == (k + 1 - from) * 0x40000000)
                by (nonlinear_arith);
            assert((k + 1 - from) * 0x40000000 <= (u128::MAX - 0x40000000)) by (nonlinear_arith)
                requires
                    0 <= k + 1 - from <= 0xffff_ffff_ffff_ffffu128,
            ;
        }
        sum = sum + (v * v) as u128;
        k = k + 1;
    }
    let n: u128 = (to - from) as u128;
    let t: u128 = threshold as u128;
    proof {
        assert(t * t <= 0xffff_ffffu128) by (nonlinear_arith)
            requires
                t <= 0xffffu128,
        ;
        assert(t * t * n <= 0xffff_ffffu128 * 0xffff_ffff_ffff_ffffu128) by (nonlinear_arith)
            requires
                0 <= t * t <= 0xffff_ffffu128,
                n <= 0xffff_ffff_ffff_ffffu128,
        ;
    }
    sum >= t * t * n
}

/// The end index that trailing-silence trimming keeps, walking back from
/// `end` in chunks of `chunk` samples, having already accumulated
/// `silence_ms` of silence against a budget of `max_silence_ms`.
pub open spec fn trim_end(
    s: Seq<i16>,
    end: int,
    silence_ms: nat,
    chunk: int,
    max_silence_ms: nat,
    threshold: u16,
    rate: u32,
) -> int
    recommends
        chunk >= 1,
        end <= s.len(),
    decreases end,
        when chunk >= 1
{
    if end <= 0 {
        0
    } else {
        let start = if end >= chunk {
            end - chunk
        } else {
            0
        };
        if chunk_is_loud(s.subrange(start, end), threshold) {
            end
        } else {
            let sil = silence_ms + spec_samples_to_ms((end - start) as nat, rate as nat);
            if sil >= max_silence_ms {
                start
            } else {
                trim_end(s, start, sil, chunk, max_silence_ms, threshold, rate)
            }
        }
    }
}

/// The trimming chunk length: `chunk_ms` worth of samples, at least 1.
pub open spec fn spec_chunk_samples(rate: u32, vad: VadConfig) -> int {
    let c = spec_duration_to_samples(rate as nat, vad.chunk_ms as nat);
    if c < 1 {
        1
    } else if c > usize::MAX {
        usize::MAX as int
    } else {
        c as int
    }
}

/// What trailing-silence trimming returns: the buffer unchanged when it is
/// empty or voice-activity detection is disabled, else the prefix up to the
/// last chunk that is loud or that the silence budget lets stand.
pub open spec fn trim_spec(s: Seq<i16>, rate: u32, vad: VadConfig) -> Seq<i16> {
    if s.len() == 0 || !vad.enabled {
        s
    } else {
        s.take(
            trim_end(
                s,
                s.len() as int,
                0,
                spec_chunk_samples(rate, vad),
                vad.silence_timeout_ms as nat,
                vad.energy_threshold,
                rate,
            ),
        )
    }
}

/// Removes trailing silence from a finished utterance: walks backward in
/// fixed chunks, accumulating silent-chunk duration, and stops at the first
/// loud chunk, at the silence budget, or at the start of the buffer. Returns
/// the input unchanged when it is empty or VAD is disabled.
pub fn trim_trailing_silence(samples: &[i16], sample_rate: u32, vad: &VadConfig) -> (r: Vec<i16>)
    ensures
        r@ == trim_spec(samples@, sample_rate, *vad),
        !vad.enabled ==> r@ == samples@,
        samples@.len() == 0 ==> r@ == samples@,
{
    let n: usize = samples.len();
    if n == 0 || !vad.enabled {
        let r = vstd::slice::slice_to_vec(samples);
        return r;
    }
    let chunk_raw: usize = duration_to_samples(sample_rate, vad.chunk_ms);
    let chunk: usize = if chunk_raw < 1 {
        1
    } else {
        chunk_raw
    };
    proof {
        assert(chunk == spec_chunk_samples(sample_rate, *vad));
    }
    let ghost full = trim_end(
        samples@,
        n as int,
        0,
        chunk as int,
        vad.silence_timeout_ms as nat,
        vad.energy_threshold,
        sample_rate,
    );
    let mut end: usize = n;
    let mut silence_ms: u128 = 0;
    while end > 0
        invariant_except_break
            full == trim_end(
                samples@,
                end as int,
                silence_ms as nat,
                chunk as int,
                vad.silence_timeout_ms as nat,
                vad.energy_threshold,
                sample_rate,
            ),
        invariant
            end <= n,
            n == samples@.len(),
            chunk >= 1,
            silence_ms <= (n - end) * 1001,
        ensures
            full == end,
        decreases end,
    {
        let start: usize = if end >= chunk {
            end - chunk
        } else {
            0
        };
        if range_is_loud(samples, start, end, vad.energy_threshold) {
            proof {
                assert(full == end);
            }
            break ;
        }
        let chunk_ms_now: u128 = samples_to_ms_wide(end - start, sample_rate);
        proof {
            assert(spec_samples_to_ms((end - start) as nat, sample_rate as nat) <= (end - start)
                * 1000 + 1) by (nonlinear_arith)
                requires
                    end - start >= 1,
            ;
            assert(silence_ms + chunk_ms_now <= (n - start) * 1001) by (nonlinear_arith)
                requires
                    silence_ms <= (n - end) * 1001,
                    chunk_ms_now <= (end - start) * 1000 + 1,
                    1 <= end - start,
                    end <= n,
            ;
            assert((n - start) * 1001 <= 0xffff_ffff_ffff_ffffu128 * 1001) by (nonlinear_arith)
                requires
                    0 <= start,
                    n <= 0xffff_ffff_ffff_ffffu128,
            ;
        }
        let new_sil: u128 = silence_ms + chunk_ms_now;
        proof {
            assert(trim_end(
                samples@,
                end as int,
                silence_ms as nat,
                chunk as int,
                vad.silence_timeout_ms as nat,
                vad.energy_threshold,
                sample_rate,
            ) == if new_sil >= vad.silence_timeout_ms {
                start as int
            } else {
                trim_end(
                    samples@,
                    start as int,
                    new_sil as nat,
                    chunk as int,
                    vad.silence_timeout_ms as nat,
                    vad.energy_threshold,
                    sample_rate,
                )
            });
        }
        silence_ms = new_sil;
        end = start;
        if silence_ms >= vad.silence_timeout_ms as u128 {
            break ;
        }
    }
    let mut r: Vec<i16> = Vec::new();
    let mut i: usize = 0;
    while i < end
        invariant
            i <= end <= n,
            n == samples@.len(),
            r@ =~= samples@.subrange(0, i as int),
        decreases end - i,
    {
        r.push(samples[i]);
        i = i + 1;
    }
    proof {
        assert(r@ =~= samples@.take(end as int));
    }
    r
}

/// Trimming returns an already-trimmed buffer unchanged: one that is empty or
/// whose final chunk is loud. (A buffer whose trim stopped because the
/// silence budget ran out may still end in silent chunks, and a second trim
/// can remove more of them.)
pub proof fn lemma_trim_fixed_point(s: Seq<i16>, rate: u32, vad: VadConfig)
    requires
        vad.enabled ==> s.len() == 0 || chunk_is_loud(
            s.subrange(
                if s.len() >= spec_chunk_samples(rate, vad) {
                    s.len() - spec_chunk_samples(rate, vad)
                } else {
                    0
                },
                s.len() as int,
            ),
            vad.energy_threshold,
        ),
    ensures
        trim_spec(s, rate, vad) == s,
{
    if s.len() > 0 && vad.enabled {
        let chunk = spec_chunk_samples(rate, vad);
        assert(trim_end(
            s,
            s.len() as int,
            0,
            chunk,
            vad.silence_timeout_ms as nat,
            vad.energy_threshold,
            rate,
        ) == s.len());
        assert(s.take(s.len() as int) =~= s);
    }
}

/// Trimming twice is the same as trimming once, whenever the single trim
/// ends at a loud chunk or consumes the whole buffer.
pub proof fn lemma_trim_idempotent(s: Seq<i16>, rate: u32, vad: VadConfig)
    requires
        trim_spec(s, rate, vad).len() == 0 || chunk_is_loud(
            trim_spec(s, rate, vad).subrange(
                if trim_spec(s, rate, vad).len() >= spec_chunk_samples(rate, vad) {
                    trim_spec(s, rate, vad).len() - spec_chunk_samples(rate, vad)
                } else {
                    0
                },
                trim_spec(s, rate, vad).len() as int,
            ),
            vad.energy_threshold,
        ),
    ensures
        trim_spec(trim_spec(s, rate, vad), rate, vad) == trim_spec(s, rate, vad),
{
    lemma_trim_fixed_point(trim_spec(s, rate, vad), rate, vad);
}

/// The precision rank of a sample format: 32-bit float best, 8-bit unsigned
/// worst.
#[derive(Debug, Copy, Clone, PartialEq, Eq, Structural)]
pub enum SampleFormatKind {
    F32,
    F64,
    I32,
    I16,
    U16,
    I8,
    U8,
    Other,
}

pub open spec fn spec_format_rank(format: SampleFormatKind) -> u8 {
    match format {
        SampleFormatKind::F32 => 6,
        SampleFormatKind::F64 => 5,
        SampleFormatKind::I32 => 4,
        SampleFormatKind::I16 => 3,
        SampleFormatKind::U16 => 2,
        SampleFormatKind::I8 => 1,
        SampleFormatKind::U8 => 0,
        SampleFormatKind::Other => 0,
    }
}

pub fn sample_format_rank(format: SampleFormatKind) -> (r: u8)
    ensures
        r == spec_format_rank(format),
{
    match format {
        SampleFormatKind::F32 => 6,
        SampleFormatKind::F64 => 5,
        SampleFormatKind::I32 => 4,
        SampleFormatKind::I16 => 3,
        SampleFormatKind::U16 => 2,
        SampleFormatKind::I8 => 1,
        SampleFormatKind::U8 => 0,
        SampleFormatKind::Other => 0,
    }
}

/// One supported input configuration of a device, as plain values.
#[derive(Debug, Copy, Clone)]
pub struct StreamCandidate {
    pub min_rate: u32,
    pub max_rate: u32,
    pub channels: u16,
    pub format: SampleFormatKind,
}

/// Whether the candidate can run at the requested rate.
pub open spec fn candidate_supports(c: StreamCandidate, rate: u32) -> bool {
    c.min_rate <= rate <= c.max_rate
}

/// Whether `b` is strictly preferable to `a`: higher format precision, or
/// equal precision and native mono where `a` is not.
pub open spec fn candidate_better(b: StreamCandidate, a: StreamCandidate) -> bool {
    spec_format_rank(b.format) > spec_format_rank(a.format) || (spec_format_rank(b.format)
        == spec_format_rank(a.format) && b.channels == 1 && a.channels != 1)
}

/// The index of the best candidate among `cands.take(upto)` that supports
/// `rate`: earliest among those that no later supporting candidate strictly
/// beats.
pub open spec fn spec_best_candidate(cands: Seq<StreamCandidate>, rate: u32, upto: int) -> Option<
    int,
>
    recommends
        upto <= cands.len(),
    decreases upto,
{
    if upto <= 0 {
        Option::None
    } else {
        let prev = spec_best_candidate(cands, rate, upto - 1);
        let c = cands[upto - 1];
        if !candidate_supports(c, rate) {
            prev
        } else {
            match prev {
                Option::None => Option::Some(upto - 1),
                Option::Some(i) => {
                    if candidate_better(c, cands[i]) {
                        Option::Some(upto - 1)
                    } else {
                        prev
                    }
                },
            }
        }
    }
}

/// Chooses the input configuration: among candidates whose supported rate
/// range contains `rate`, the one with the best sample-format precision,
/// preferring native mono on equal precision and the earliest on full ties.
pub fn select_stream_config(cands: &Vec<StreamCandidate>, rate: u32) -> (r: Option<usize>)
    ensures
        match r {
            Option::Some(i) => {
                &&& i < cands@.len()
                &&& spec_best_candidate(cands@, rate, cands@.len() as int) == Option::Some(i as int)
            },
            Option::None => spec_best_candidate(cands@, rate, cands@.len() as int) is None,
        },
{
    let mut best: Option<usize> = Option::None;
    let mut idx: usize = 0;
    while idx < cands.len()
        invariant
            idx <= cands@.len(),
            match best {
                Option::Some(i) => i < idx && spec_best_candidate(cands@, rate, idx as int)
                    == Option::Some(i as int),
                Option::None => spec_best_candidate(cands@, rate, idx as int) is None,
            },
        decreases cands@.len() - idx,
    {
        let c = cands[idx];
        if c.min_rate <= rate && rate <= c.max_rate {
            match best {
                Option::None => {
                    best = Option::Some(idx);
                },
                Option::Some(i) => {
                    let rank_new = sample_format_rank(c.format);
                    let prev = cands[i];
                    let rank_old = sample_format_rank(prev.format);
                    if rank_new > rank_old || (rank_new == rank_old && c.channels == 1
                        && prev.channels != 1) {
                        best = Option::Some(idx);
                    }
                },
            }
        }
        idx = idx + 1;
    }
    best
}

/// The index of the input device to use: the first whose name equals the
/// requested name after normalization (case-insensitive), `None` when no
/// name was requested.
pub open spec fn spec_find_device(names: Seq<Seq<char>>, target: Seq<char>, upto: int) -> Option<
    int,
>
    decreases upto,
{
    if upto <= 0 {
        Option::None
    } else {
        match spec_find_device(names, target, upto - 1) {
            Option::Some(i) => Option::Some(i),
            Option::None => {
                if crate::text::lower_chars(names[upto - 1]) == crate::text::lower_chars(target) {
                    Option::Some(upto - 1)
                } else {
                    Option::None
                }
            },
        }
    }
}

/// Once a device is found, scanning further names does not change the find.
proof fn lemma_find_device_extend(names: Seq<Seq<char>>, target: Seq<char>, k: int, m: int)
    requires
        0 <= k <= m,
        spec_find_device(names, target, k) is Some,
    ensures
        spec_find_device(names, target, m) == spec_find_device(names, target, k),
    decreases m - k,
{
    if k < m {
        lemma_find_device_extend(names, target, k, m - 1);
    }
}

/// Finds the requested input device by exact case-insensitive name match.
pub fn select_input_device(names: &Vec<String>, target: &str) -> (r: Option<usize>)
    ensures
        match r {
            Option::Some(i) => {
                &&& i < names@.len()
                &&& spec_find_device(names.deep_view(), target@, names@.len() as int)
                    == Option::Some(i as int)
            },
            Option::None => spec_find_device(names.deep_view(), target@, names@.len() as int)
                is None,
        },
{
    let mut idx: usize = 0;
    while idx < names.len()
        invariant
            idx <= names@.len(),
            spec_find_device(names.deep_view(), target@, idx as int) is None,
        decreases names@.len() - idx,
    {
        proof {
            assert(names.deep_view()[idx as int] == names@[idx as int]@);
        }
        let lowered_name = lower_all(names[idx].as_str());
        let lowered_target = lower_all(target);
        if crate::text::str_eq(lowered_name.as_str(), lowered_target.as_str()) {
            proof {
                assert(spec_find_device(names.deep_view(), target@, idx + 1) == Option::Some(
                    idx as int,
                ));
                lemma_find_device_extend(
                    names.deep_view(),
                    target@,
                    idx + 1,
                    names@.len() as int,
                );
            }
            return Option::Some(idx);
        }
        idx = idx + 1;
    }
    Option::None
}

/// ASCII lower-casing of a whole string.
fn lower_all(s: &str) -> (r: String)
    ensures
        r@ == crate::text::lower_chars(s@),
{
    let n: usize = vstd::string::StrSliceExecFns::unicode_len(s);
    let mut r = String::new();
    let mut i: usize = 0;
    while i < n
        invariant
            i <= n,
            n == s@.len(),
            r@ =~= crate::text::lower_chars(s@.take(i as int)),
        decreases n - i,
    {
        crate::text::push_char(
            &mut r,
            crate::text::to_lower(vstd::string::StrSliceExecFns::get_char(s, i)),
        );
        i = i + 1;
        proof {
            assert(r@ =~= crate::text::lower_chars(s@.take(i as int)));
        }
    }
    proof {
        assert(s@.take(n as int) =~= s@);
    }
    r
}

} // verus!
