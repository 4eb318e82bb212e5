//! Audio math. Uploads are 16 kHz mono 16-bit WAV: devices capture at their
//! native rate and the audio is downsampled locally. Interpolation positions
//! are kept as exact fractions (sample index times source rate over 16 000),
//! so the arithmetic is done in integers.

use vstd::prelude::*;

verus! {

/// The upload sample rate.
pub const TARGET_RATE: u32 = 16_000;

/// `n / d` rounded to the nearest integer, halves away from zero.
pub open spec fn round_div(n: int, d: int) -> int {
    if n >= 0 {
        (n + d / 2) / d
    } else {
        -((-n + d / 2) / d)
    }
}

/// The sum of the samples `s`.
pub open spec fn sample_sum(s: Seq<i16>) -> int
    decreases s.len(),
{
    if s.len() == 0 {
        0
    } else {
        sample_sum(s.drop_last()) + s.last() as int
    }
}

/// The mean of a frame, its fractional part dropped (rounded toward zero).
pub open spec fn frame_mean(f: Seq<i16>) -> int {
    let a = sample_sum(f);
    if a >= 0 {
        a / (f.len() as int)
    } else {
        -((-a) / (f.len() as int))
    }
}

/// Interleaved samples of `ch` channels mixed down to mono: each frame of
/// `ch` samples (the last one possibly shorter) becomes its mean.
pub open spec fn downmixed(data: Seq<i16>, ch: nat) -> Seq<i16>
    decreases data.len(),
{
    if data.len() == 0 || ch == 0 {
        Seq::empty()
    } else if data.len() <= ch {
        seq![frame_mean(data) as i16]
    } else {
        seq![frame_mean(data.take(ch as int)) as i16] + downmixed(data.skip(ch as int), ch)
    }
}

proof fn lemma_mean_fits(a: int, n: int)
    requires
        n >= 1,
        -32768 * n <= a <= 32767 * n,
    ensures
        a >= 0 ==> 0 <= a / n <= 32767,
        a < 0 ==> -32768 <= -((-a) / n) <= 0,
{
    if a >= 0 {
        assert(0 <= a / n <= 32767) by (nonlinear_arith)
            requires
                n >= 1,
                0 <= a <= 32767 * n,
        ;
    } else {
        assert(0 <= (-a) / n <= 32768) by (nonlinear_arith)
            requires
                n >= 1,
                0 < -a <= 32768 * n,
        ;
    }
}

/// 16-bit interleaved samples of `channels` channels mixed down to mono,
/// each frame to the mean of its samples.
pub fn downmix_i16(data: &[i16], channels: u16) -> (out: Vec<i16>)
    requires
        channels > 0,
    ensures
        out@ == downmixed(data@, channels as nat),
{
    let ch = channels as usize;
    let mut out: Vec<i16> = Vec::new();
    let mut p: usize = 0;
    assert(data@.skip(0) =~= data@);
    assert(out@ + downmixed(data@, ch as nat) =~= downmixed(data@, ch as nat));
    while p < data.len()
        invariant
            ch == channels as usize,
            ch > 0,
            p <= data@.len(),
            out@ + downmixed(data@.skip(p as int), ch as nat) == downmixed(data@, ch as nat),
        decreases data.len() - p,
    {
        let end = if data.len() - p <= ch {
            data.len()
        } else {
            p + ch
        };
        let ghost frame = data@.subrange(p as int, end as int);
        let mut acc: i32 = 0;
        let mut j: usize = p;
        while j < end
            invariant
                p <= j <= end,
                end <= data@.len(),
                end - p <= ch,
                ch <= 65535,
                acc == sample_sum(data@.subrange(p as int, j as int)),
                -32768 * (j - p) <= acc <= 32767 * (j - p),
            decreases end - j,
        {
            assert(data@.subrange(p as int, j + 1).drop_last() =~= data@.subrange(p as int, j as int));
            acc = acc + data[j] as i32;
            j += 1;
        }
        let n = (end - p) as i32;
        proof {
            lemma_mean_fits(acc as int, n as int);
        }
        let mean: i32 = if acc >= 0 {
            ((acc as u32) / (n as u32)) as i32
        } else {
            -((((-acc) as u32) / (n as u32)) as i32)
        };
        assert(mean == frame_mean(frame));
        let ghost rest = data@.skip(p as int);
        if data.len() - p <= ch {
            assert(rest =~= frame);
            assert(data@.skip(end as int) =~= Seq::<i16>::empty());
        } else {
            assert(rest.take(ch as int) =~= frame);
            assert(rest.skip(ch as int) =~= data@.skip(end as int));
        }
        out.push(mean as i16);
        assert(out@ + downmixed(data@.skip(end as int), ch as nat) =~= downmixed(data@, ch as nat));
        p = end;
    }
    assert(data@.skip(p as int) =~= Seq::<i16>::empty());
    assert(out@ + Seq::<i16>::empty() =~= out@);
    out
}

/// Number of 16 kHz samples produced from `len` samples at `src` Hz.
pub open spec fn resampled_len(len: int, src: int) -> int {
    len * 16000 / src
}

/// The output sample `i`: linear interpolation of `s` at position
/// `i * src / 16000`, between the sample before it and the one after it
/// (the last sample stands in for the one after the end).
pub open spec fn lerp_at(s: Seq<i16>, src: int, i: int) -> int {
    let num = i * src;
    let i0 = num / 16000;
    let r = num % 16000;
    let s0 = s[i0] as int;
    let s1 = s[if i0 + 1 < s.len() { i0 + 1 } else { s.len() - 1 }] as int;
    round_div(s0 * 16000 + (s1 - s0) * r, 16000)
}

/// The 16 kHz version of `s` sampled at `src` Hz.
pub open spec fn spec_resample(s: Seq<i16>, src: int) -> Seq<i16> {
    if src == 16000 || s.len() == 0 {
        s
    } else {
        Seq::new(resampled_len(s.len() as int, src) as nat, |i: int| lerp_at(s, src, i) as i16)
    }
}

/// Interpolating between two samples and rounding stays between them.
proof fn lemma_lerp_bounds(s0: int, s1: int, r: int)
    requires
        0 <= r < 16000,
        -32768 <= s0 <= 32767,
        -32768 <= s1 <= 32767,
    ensures
        ({
            let v = round_div(s0 * 16000 + (s1 - s0) * r, 16000);
            &&& (s0 <= v <= s1) || (s1 <= v <= s0)
        }),
{
    let n = s0 * 16000 + (s1 - s0) * r;
    assert(n == s0 * (16000 - r) + s1 * r) by (nonlinear_arith)
        requires
            n == s0 * 16000 + (s1 - s0) * r,
    ;
    if s0 <= s1 {
        assert(s0 * 16000 <= n <= s1 * 16000) by (nonlinear_arith)
            requires
                n == s0 * (16000 - r) + s1 * r,
                0 <= r < 16000,
                s0 <= s1,
        ;
    } else {
        assert(s1 * 16000 <= n <= s0 * 16000) by (nonlinear_arith)
            requires
                n == s0 * (16000 - r) + s1 * r,
                0 <= r < 16000,
                s1 < s0,
        ;
    }
    let lo = if s0 <= s1 { s0 } else { s1 };
    let hi = if s0 <= s1 { s1 } else { s0 };
    assert(lo * 16000 <= n <= hi * 16000);
    if n >= 0 {
        assert(lo <= (n + 8000) / 16000 <= hi) by (nonlinear_arith)
            requires
                lo * 16000 <= n <= hi * 16000,
                n >= 0,
        ;
    } else {
        assert(lo <= -((-n + 8000) / 16000) <= hi) by (nonlinear_arith)
            requires
                lo * 16000 <= n <= hi * 16000,
                n < 0,
        ;
    }
}

/// Every output index of a resample reads inside the input.
proof fn lemma_resample_index(len: int, src: int, i: int)
    requires
        len > 0,
        src > 0,
        0 <= i < resampled_len(len, src),
    ensures
        0 <= (i * src) / 16000 < len,
{
    let out = len * 16000 / src;
    assert(out * src <= len * 16000) by (nonlinear_arith)
        requires
            out == len * 16000 / src,
            src > 0,
            len > 0,
    ;
    assert(i * src < len * 16000) by (nonlinear_arith)
        requires
            0 <= i < out,
            out * src <= len * 16000,
            src > 0,
    ;
    assert(0 <= (i * src) / 16000 < len) by (nonlinear_arith)
        requires
            0 <= i * src < len * 16000,
    ;
}

/// Resampling keeps the amplitude: a constant signal stays the same
/// constant at 16 kHz, and every output sample lies between the smallest and
/// the largest input sample.
pub proof fn lemma_resample_keeps_amplitude(s: Seq<i16>, src: int, lo: int, hi: int)
    requires
        src > 0,
        forall|i: int| 0 <= i < s.len() ==> lo <= #[trigger] s[i] <= hi,
    ensures
        forall|j: int|
            0 <= j < spec_resample(s, src).len() ==> lo <= #[trigger] spec_resample(s, src)[j] <= hi,
{
    if !(src == 16000 || s.len() == 0) {
        assert forall|j: int| 0 <= j < spec_resample(s, src).len() implies lo <= #[trigger] spec_resample(
            s,
            src,
        )[j] <= hi by {
            let len = s.len() as int;
            lemma_resample_index(len, src, j);
            let num = j * src;
            let i0 = num / 16000;
            let r = num % 16000;
            let i1 = if i0 + 1 < len { i0 + 1 } else { len - 1 };
            lemma_lerp_bounds(s[i0] as int, s[i1] as int, r);
            assert(lo <= s[i0] <= hi);
            assert(lo <= s[i1] <= hi);
        }
    }
}

/// Linear-interpolation resample of `input` (at `src_rate` Hz) to 16 kHz.
/// Input already at 16 kHz, and empty input, come back unchanged.
pub fn resample_to_16k(input: &[i16], src_rate: u32) -> (out: Vec<i16>)
    requires
        src_rate > 0,
        resampled_len(input@.len() as int, src_rate as int) <= usize::MAX,
    ensures
        out@ == spec_resample(input@, src_rate as int),
{
    if src_rate == 16_000 || input.len() == 0 {
        return vstd::slice::slice_to_vec(input);
    }
    let len = input.len();
    let src = src_rate as u128;
    let out_len = ((len as u128) * 16000 / src) as usize;
    let mut out: Vec<i16> = Vec::new();
    let mut i: usize = 0;
    while i < out_len
        invariant
            len == input@.len(),
            len > 0,
            src == src_rate as u128,
            src_rate > 0,
            out_len == resampled_len(len as int, src as int),
            i <= out_len,
            out@.len() == i,
            forall|j: int| 0 <= j < i ==> out@[j] == lerp_at(input@, src as int, j) as i16,
        decreases out_len - i,
    {
        proof {
            lemma_resample_index(len as int, src as int, i as int);
        }
        let num = (i as u128) * src;
        let i0 = (num / 16000) as usize;
        let r = (num % 16000) as i64;
        let next = if i0 + 1 < len { i0 + 1 } else { len - 1 };
        let s0 = input[i0] as i64;
        let s1 = input[next] as i64;
        assert(0 <= r < 16000);
        assert(-70000 <= s1 - s0 <= 70000);
        assert(-70000 * 16000 <= (s1 - s0) * r <= 70000 * 16000) by (nonlinear_arith)
            requires
                0 <= r < 16000,
                -70000 <= s1 - s0 <= 70000,
        ;
        let n = s0 * 16000 + (s1 - s0) * r;
        let v = if n >= 0 { (n + 8000) / 16000 } else { -((-n + 8000) / 16000) };
        proof {
            lemma_lerp_bounds(s0 as int, s1 as int, r as int);
        }
        out.push(v as i16);
        i += 1;
    }
    assert(out@ =~= spec_resample(input@, src_rate as int));
    out
}


/// Little-endian bytes of a 32-bit value.
pub open spec fn le32(x: u32) -> Seq<u8> {
    seq![x as u8, (x >> 8u32) as u8, (x >> 16u32) as u8, (x >> 24u32) as u8]
}

/// Little-endian bytes of a 16-bit value.
pub open spec fn le16(x: u16) -> Seq<u8> {
    seq![x as u8, (x >> 8u16) as u8]
}

/// The PCM payload: every sample as two little-endian bytes, in order.
pub open spec fn pcm_le(s: Seq<i16>) -> Seq<u8> {
    Seq::new(
        2 * s.len(),
        |k: int| if k % 2 == 0 { (s[k / 2] as u16) as u8 } else { ((s[k / 2] as u16) >> 8u16) as u8 },
    )
}

/// A 44-byte RIFF/WAVE header for 16-bit mono PCM at `rate` Hz followed by
/// the samples.
pub open spec fn spec_wav(samples: Seq<i16>, rate: u32) -> Seq<u8> {
    let data_len = (2 * samples.len()) as u32;
    seq![0x52u8, 0x49, 0x46, 0x46] + le32((36 + data_len) as u32) + seq![0x57u8, 0x41, 0x56, 0x45]
        + seq![0x66u8, 0x6D, 0x74, 0x20] + le32(16) + le16(1) + le16(1) + le32(rate) + le32(
        (rate * 2) as u32,
    ) + le16(2) + le16(16) + seq![0x64u8, 0x61, 0x74, 0x61] + le32(data_len) + pcm_le(samples)
}

fn push_le32(b: &mut Vec<u8>, x: u32)
    ensures
        final(b)@ == old(b)@ + le32(x),
{
    b.push(x as u8);
    b.push((x >> 8) as u8);
    b.push((x >> 16) as u8);
    b.push((x >> 24) as u8);
    assert(final(b)@ =~= old(b)@ + le32(x));
}

fn push_le16(b: &mut Vec<u8>, x: u16)
    ensures
        final(b)@ == old(b)@ + le16(x),
{
    b.push(x as u8);
    b.push((x >> 8) as u8);
    assert(final(b)@ =~= old(b)@ + le16(x));
}

fn push_tag(b: &mut Vec<u8>, t0: u8, t1: u8, t2: u8, t3: u8)
    ensures
        final(b)@ == old(b)@ + seq![t0, t1, t2, t3],
{
    b.push(t0);
    b.push(t1);
    b.push(t2);
    b.push(t3);
    assert(final(b)@ =~= old(b)@ + seq![t0, t1, t2, t3]);
}

/// Standard 44-byte RIFF/WAVE header plus PCM data, built in memory.
pub fn encode_wav_mono16(samples: &[i16], sample_rate: u32) -> (b: Vec<u8>)
    requires
        36 + 2 * samples@.len() <= u32::MAX,
        sample_rate * 2 <= u32::MAX,
    ensures
        b@ == spec_wav(samples@, sample_rate),
        b@.len() == 44 + 2 * samples@.len(),
{
    let data_len = (samples.len() * 2) as u32;
    let mut b: Vec<u8> = Vec::new();
    push_tag(&mut b, 0x52, 0x49, 0x46, 0x46);
    push_le32(&mut b, 36 + data_len);
    push_tag(&mut b, 0x57, 0x41, 0x56, 0x45);
    push_tag(&mut b, 0x66, 0x6D, 0x74, 0x20);
    push_le32(&mut b, 16);
    push_le16(&mut b, 1);
    push_le16(&mut b, 1);
    push_le32(&mut b, sample_rate);
    push_le32(&mut b, sample_rate * 2);
    push_le16(&mut b, 2);
    push_le16(&mut b, 16);
    push_tag(&mut b, 0x64, 0x61, 0x74, 0x61);
    push_le32(&mut b, data_len);
    let ghost header = b@;
    assert(header.len() == 44);
    let mut i: usize = 0;
    while i < samples.len()
        invariant
            i <= samples@.len(),
            header.len() == 44,
            b@ == header + pcm_le(samples@.take(i as int)),
        decreases samples.len() - i,
    {
        let u = samples[i] as u16;
        let ghost before = b@;
        b.push(u as u8);
        b.push((u >> 8) as u8);
        assert(pcm_le(samples@.take(i + 1)) =~= pcm_le(samples@.take(i as int)) + le16(u));
        assert(b@ =~= before + le16(u));
        i += 1;
    }
    assert(samples@.take(samples@.len() as int) =~= samples@);
    assert(b@ =~= spec_wav(samples@, sample_rate));
    b
}

/// Full-scale fraction under which a take counts as silence (about 1%).
pub const SILENCE_FLOOR: u16 = 330;

/// Magnitude of a sample.
pub open spec fn magnitude(s: i16) -> int {
    if s < 0 {
        -(s as int)
    } else {
        s as int
    }
}

/// True when the whole recording never rises above about 1% of full scale:
/// the user held the keys but said nothing.
pub fn is_effectively_silent(samples: &[i16]) -> (b: bool)
    ensures
        b == forall|i: int| 0 <= i < samples@.len() ==> magnitude(#[trigger] samples@[i]) <= SILENCE_FLOOR,
{
    let mut i: usize = 0;
    while i < samples.len()
        invariant
            i <= samples@.len(),
            forall|j: int| 0 <= j < i ==> magnitude(#[trigger] samples@[j]) <= SILENCE_FLOOR,
        decreases samples.len() - i,
    {
        let s = samples[i];
        let m: i32 = if s < 0 { -(s as i32) } else { s as i32 };
        if m > SILENCE_FLOOR as i32 {
            return false;
        }
        i += 1;
    }
    true
}


/// Streaming output sample `k` of the samples `h` captured at `src` Hz: the
/// interpolation at position `k * src / 16000` between the two samples around
/// it. Only computed once both samples exist.
pub open spec fn stream_sample(h: Seq<i16>, src: int, k: int) -> i16 {
    let num = k * src;
    let i0 = num / 16000;
    let r = num % 16000;
    let s0 = h[i0] as int;
    let s1 = h[i0 + 1] as int;
    round_div(s0 * 16000 + (s1 - s0) * r, 16000) as i16
}

/// How many streaming outputs `len` captured samples determine: output `k`
/// needs the samples at `floor(k * src / 16000)` and the one after it.
pub open spec fn stream_count(len: int, src: int) -> int {
    if len <= 1 {
        0
    } else {
        ((len - 1) * 16000 - 1) / src + 1
    }
}

/// All streaming output of the samples `h` at `src` Hz.
pub open spec fn stream_output(h: Seq<i16>, src: int) -> Seq<i16> {
    Seq::new(stream_count(h.len() as int, src) as nat, |k: int| stream_sample(h, src, k))
}

/// Output `k` exists exactly when the sample after its position was captured.
pub proof fn lemma_stream_count(len: int, src: int, k: int)
    requires
        src > 0,
        k >= 0,
        len >= 0,
    ensures
        stream_count(len, src) >= 0,
        k < stream_count(len, src) <==> (k * src) / 16000 + 1 < len,
{
    assert(k * src >= 0) by (nonlinear_arith)
        requires
            k >= 0,
            src > 0,
    ;
    if len <= 1 {
        assert((k * src) / 16000 >= 0);
    } else {
        let m = (len - 1) * 16000 - 1;
        assert(m >= 0);
        let q = m / src;
        assert(q >= 0) by (nonlinear_arith)
            requires
                m >= 0,
                src > 0,
                q == m / src,
        ;
        // k * src / 16000 < len - 1  <==>  k * src < (len - 1) * 16000  <==>  k * src <= m
        assert((k * src) / 16000 + 1 < len <==> k * src <= m) by (nonlinear_arith)
            requires
                m == (len - 1) * 16000 - 1,
                k * src >= 0,
                len >= 2,
        ;
        // k * src <= m  <==>  k <= m / src
        assert(k * src <= m <==> k <= q) by (nonlinear_arith)
            requires
                q == m / src,
                src > 0,
                k >= 0,
                m >= 0,
        ;
    }
}

/// Capturing more samples never changes the outputs already determined: the
/// output of a stream is a prefix of the output of any longer stream. So
/// feeding a recording in callbacks of any sizes yields the same samples.
pub proof fn lemma_stream_prefix(h: Seq<i16>, a: Seq<i16>, src: int)
    requires
        src > 0,
    ensures
        stream_count(h.len() as int, src) <= stream_count((h + a).len() as int, src),
        stream_output(h + a, src).take(stream_count(h.len() as int, src)) == stream_output(h, src),
{
    let n = stream_count(h.len() as int, src);
    lemma_stream_count(h.len() as int, src, 0);
    lemma_stream_count((h + a).len() as int, src, 0);
    if n > 0 {
        lemma_stream_count(h.len() as int, src, n - 1);
        lemma_stream_count((h + a).len() as int, src, n - 1);
    }
    assert forall|k: int| 0 <= k < n implies stream_sample(h + a, src, k) == stream_sample(h, src, k) by {
        lemma_stream_count(h.len() as int, src, k);
        assert(k * src >= 0) by (nonlinear_arith)
            requires
                k >= 0,
                src > 0,
        ;
    }
    assert(stream_output(h + a, src).take(n) =~= stream_output(h, src));
}

/// Resamples a live stream to 16 kHz across microphone callbacks, keeping the
/// interpolation position between calls so that splitting the same recording
/// into different callback sizes does not change its speed.
pub struct StreamingResampler {
    source_rate: u32,
    buffered: Vec<i16>,
    /// Position of the next output relative to `buffered[0]`, times 16 000.
    next_position: u128,
    /// Every sample pushed since the source rate was last set.
    history: Ghost<Seq<i16>>,
    /// Number of outputs produced since then.
    emitted: Ghost<nat>,
}

/// `r1` and `out` are the state and output after `input` captured at `rate`
/// Hz was pushed into `r0`: empty input changes nothing; 16 kHz input passes
/// through and clears the stream; at another rate the input extends the
/// stream (restarted when the rate changed), and `out` is exactly the output
/// the extension completes.
pub open spec fn pushed(r0: StreamingResampler, r1: StreamingResampler, input: Seq<i16>, rate: u32, out: Seq<i16>) -> bool {
    &&& r1.wf()
    &&& input.len() == 0 ==> out.len() == 0 && r1.rate() == r0.rate() && r1.history() == r0.history()
    &&& input.len() > 0 && rate == 16000 ==> out == input && r1.rate() == 16000 && r1.history() == Seq::<
        i16,
    >::empty()
    &&& input.len() > 0 && rate != 16000 ==> {
        let h = if r0.rate() == rate {
            r0.history()
        } else {
            Seq::<i16>::empty()
        };
        &&& r1.rate() == rate
        &&& r1.history() == h + input
        &&& stream_output(r1.history(), rate as int) == stream_output(h, rate as int) + out
    }
}

impl StreamingResampler {
    /// The source rate the stream is running at (0 before the first push).
    pub closed spec fn rate(&self) -> u32 {
        self.source_rate
    }

    /// Samples pushed since the rate was last set (empty at 16 kHz, where
    /// samples pass straight through).
    pub closed spec fn history(&self) -> Seq<i16> {
        self.history@
    }

    pub closed spec fn wf(&self) -> bool {
        let h = self.history@;
        let src = self.source_rate as int;
        let dropped = h.len() - self.buffered@.len();
        if src == 0 || src == 16000 {
            &&& h.len() == 0
            &&& self.buffered@.len() == 0
            &&& self.next_position == 0
            &&& self.emitted@ == 0
        } else {
            &&& dropped >= 0
            &&& self.buffered@ == h.skip(dropped)
            &&& self.emitted@ == stream_count(h.len() as int, src)
            &&& self.next_position as int == self.emitted@ * src - dropped * 16000
            &&& self.next_position < 16000 + 0x1_0000_0000
        }
    }

    pub fn new() -> (r: Self)
        ensures
            r.wf(),
            r.rate() == 0,
            r.history() == Seq::<i16>::empty(),
    {
        StreamingResampler {
            source_rate: 0,
            buffered: Vec::new(),
            next_position: 0,
            history: Ghost(Seq::empty()),
            emitted: Ghost(0),
        }
    }

    /// Push one callback's worth of samples captured at `source_rate` Hz and
    /// return the 16 kHz samples they complete. A change of rate restarts the
    /// stream; 16 kHz input passes through unchanged.
    pub fn push(&mut self, input: &[i16], source_rate: u32) -> (out: Vec<i16>)
        requires
            old(self).wf(),
            source_rate > 0,
        ensures
            pushed(*old(self), *final(self), input@, source_rate, out@),
    {
        if input.len() == 0 {
            return Vec::new();
        }
        if source_rate == 16_000 {
            self.source_rate = source_rate;
            self.buffered.clear();
            self.next_position = 0;
            self.history = Ghost(Seq::empty());
            self.emitted = Ghost(0);
            return vstd::slice::slice_to_vec(input);
        }
        if self.source_rate != source_rate {
            self.source_rate = source_rate;
            self.buffered.clear();
            self.next_position = 0;
            self.history = Ghost(Seq::empty());
            self.emitted = Ghost(0);
        }
        let ghost h0 = self.history@;
        let ghost e0 = self.emitted@;
        let ghost src = source_rate as int;
        proof {
            lemma_stream_count(h0.len() as int, src, 0);
            lemma_stream_prefix(h0, input@, src);
        }
        let ghost d0 = h0.len() - self.buffered@.len();
        self.buffered.extend_from_slice(input);
        self.history = Ghost(h0 + input@);
        let ghost h = self.history@;
        assert(self.buffered@ =~= h.skip(d0)) by {
            assert(h0.skip(d0) + input@ =~= (h0 + input@).skip(d0));
        }
        let ratio = source_rate as u128;
        let mut output: Vec<i16> = Vec::new();
        while self.next_position / 16000 + 1 < self.buffered.len() as u128
            invariant
                src == source_rate as int,
                ratio == source_rate as u128,
                src > 0,
                src != 16000,
                self.source_rate == source_rate,
                self.history@ == h,
                h == h0 + input@,
                e0 <= self.emitted@,
                self.emitted@ <= stream_count(h.len() as int, src),
                d0 == h.len() - self.buffered@.len(),
                d0 >= 0,
                self.buffered@ == h.skip(d0),
                self.next_position as int == self.emitted@ * src - d0 * 16000,
                self.next_position < (self.buffered@.len() as int) * 16000 + 0x1_0000_0000,
                output@ == Seq::new((self.emitted@ - e0) as nat, |j: int| stream_sample(h, src, e0 + j)),
            decreases stream_count(h.len() as int, src) - self.emitted@,
        {
            let ghost k = self.emitted@ as int;
            let lower = (self.next_position / 16000) as usize;
            let fraction = (self.next_position % 16000) as i64;
            proof {
                assert(k * src >= 0) by (nonlinear_arith)
                    requires
                        k >= 0,
                        src > 0,
                ;
                let q0 = (k * src) / 16000;
                let r0 = (k * src) % 16000;
                vstd::arithmetic::div_mod::lemma_fundamental_div_mod(k * src, 16000);
                vstd::arithmetic::div_mod::lemma_fundamental_div_mod_converse(
                    self.next_position as int,
                    16000,
                    q0 - d0,
                    r0,
                );
                lemma_stream_count(h.len() as int, src, k);
            }
            let first = self.buffered[lower] as i64;
            let second = self.buffered[lower + 1] as i64;
            assert(0 <= fraction < 16000);
            assert(-70000 <= second - first <= 70000);
            assert(-70000 * 16000 <= (second - first) * fraction <= 70000 * 16000) by (nonlinear_arith)
                requires
                    0 <= fraction < 16000,
                    -70000 <= second - first <= 70000,
            ;
            let n = first * 16000 + (second - first) * fraction;
            let v = if n >= 0 { (n + 8000) / 16000 } else { -((-n + 8000) / 16000) };
            proof {
                lemma_lerp_bounds(first as int, second as int, fraction as int);
            }
            assert(v as i16 == stream_sample(h, src, k));
            output.push(v as i16);
            self.next_position = self.next_position + ratio;
            self.emitted = Ghost(self.emitted@ + 1);
            assert((k + 1) * src == k * src + src) by (nonlinear_arith);
            assert(output@ =~= Seq::new((self.emitted@ - e0) as nat, |j: int| stream_sample(h, src, e0 + j)));
        }
        proof {
            let k = self.emitted@ as int;
            lemma_stream_count(h.len() as int, src, k);
            assert(k * src >= 0) by (nonlinear_arith)
                requires
                    k >= 0,
                    src > 0,
            ;
            vstd::arithmetic::div_mod::lemma_fundamental_div_mod(k * src, 16000);
            vstd::arithmetic::div_mod::lemma_fundamental_div_mod_converse(
                self.next_position as int,
                16000,
                (k * src) / 16000 - d0,
                (k * src) % 16000,
            );
        }
        let whole = self.next_position / 16000;
        let consumed: usize = if whole < self.buffered.len() as u128 {
            whole as usize
        } else {
            self.buffered.len()
        };
        let rest = self.buffered.split_off(consumed);
        self.buffered = rest;
        self.next_position = self.next_position - (consumed as u128) * 16000;
        assert(self.buffered@ =~= h.skip(d0 + consumed)) by {
            assert(h.skip(d0).skip(consumed as int) =~= h.skip(d0 + consumed));
        }
        assert(stream_output(h, src) =~= stream_output(h0, src) + output@) by {
            assert(stream_output(h, src).take(e0 as int) == stream_output(h0, src));
        }
        output
    }
}

} // verus!
