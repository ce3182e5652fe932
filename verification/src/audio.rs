//! Audio input: which track is rendered, and how its samples get into the buffers.
//!
//! A sample is the bit pattern of an IEEE 754 single; the pattern 0 is silence. A planar
//! buffer holds one row of samples for each channel, all of the same length, one behind the
//! other.
use vstd::prelude::*;

verus! {

/// How many bits of `mask` are set.
pub open spec fn set_bits(mask: nat) -> nat
    decreases mask,
{
    if mask == 0 {
        0
    } else {
        mask % 2 + set_bits(mask / 2)
    }
}

/// `Channels::count` of the channels with the given mask: one for each bit that is set. The
/// crate defines channels for the lowest 26 bits; the others are dropped by
/// `Channels::from_bits_truncate`.
#[verifier::external_body]
pub(crate) fn channel_count(mask: u32) -> (count: usize)
    ensures
        count == set_bits((mask % 0x400_0000) as nat),
{
    symphonia::core::audio::Channels::from_bits_truncate(mask).count()
}

/// What a file says about one of its tracks.
#[derive(Debug, Clone, Copy)]
pub struct TrackInfo {
    /// Whether the track has a codec.
    pub has_codec: bool,
    pub sample_rate: Option<u32>,
    /// The mask of the channels.
    pub channels: Option<u32>,
    pub n_frames: Option<u64>,
}

/// The track to render.
#[derive(Debug, Clone, Copy, PartialEq, Eq, Structural)]
pub struct AudioInput {
    /// The number of the track in the file.
    pub track: usize,
    pub sample_rate: u32,
    pub num_channels: usize,
    /// The length in frames; 0 if the file does not say.
    pub total_frames: u64,
}

/// Why a file cannot be rendered.
#[derive(Debug, Clone, Copy, PartialEq, Eq, Structural)]
pub enum AudioError {
    NoAudio,
    NoSampleRate,
    NoChannels,
}

impl AudioError {
    /// The message for the user.
    pub fn message(&self) -> (text: String)
        ensures
            text@ == match self {
                AudioError::NoAudio => "No audio"@,
                AudioError::NoSampleRate => "No sample rate"@,
                AudioError::NoChannels => "No channels"@,
            },
    {
        match self {
            AudioError::NoAudio => "No audio".to_string(),
            AudioError::NoSampleRate => "No sample rate".to_string(),
            AudioError::NoChannels => "No channels".to_string(),
        }
    }
}

/// `i` is the first track that has a codec.
pub open spec fn first_with_codec(tracks: Seq<TrackInfo>, i: int) -> bool {
    &&& 0 <= i < tracks.len()
    &&& tracks[i].has_codec
    &&& forall|j: int| 0 <= j < i ==> !(#[trigger] tracks[j]).has_codec
}

/// What rendering the given track needs to know.
pub open spec fn input_of(tracks: Seq<TrackInfo>, i: int) -> Result<AudioInput, AudioError> {
    match (tracks[i].sample_rate, tracks[i].channels) {
        (None, _) => Err(AudioError::NoSampleRate),
        (Some(_), None) => Err(AudioError::NoChannels),
        (Some(sample_rate), Some(mask)) => Ok(
            AudioInput {
                track: i as usize,
                sample_rate,
                num_channels: set_bits((mask % 0x400_0000) as nat) as usize,
                total_frames: match tracks[i].n_frames {
                    Some(n) => n,
                    None => 0,
                },
            },
        ),
    }
}

/// Chooses the track to render: the first one that has a codec. It needs a sample rate and
/// channels.
pub fn setup_input_audio(tracks: &Vec<TrackInfo>) -> (r: Result<AudioInput, AudioError>)
    ensures
        (forall|i: int| 0 <= i < tracks@.len() ==> !(#[trigger] tracks@[i]).has_codec) ==> r
            == Err::<AudioInput, AudioError>(AudioError::NoAudio),
        forall|i: int| #[trigger]
            first_with_codec(tracks@, i) ==> r == input_of(tracks@, i) && (r matches Ok(input)
                ==> input.track == i),
        r matches Ok(input) ==> {
            &&& input.track < tracks@.len()
            &&& tracks@[input.track as int].has_codec
            &&& forall|j: int| 0 <= j < input.track ==> !(#[trigger] tracks@[j]).has_codec
            &&& tracks@[input.track as int].sample_rate == Some(input.sample_rate)
            &&& tracks@[input.track as int].channels matches Some(mask) && input.num_channels
                == set_bits((mask % 0x400_0000) as nat)
            &&& tracks@[input.track as int].n_frames matches Some(n) ==> input.total_frames == n
            &&& tracks@[input.track as int].n_frames is None ==> input.total_frames == 0
        },
        r == Err::<AudioInput, AudioError>(AudioError::NoAudio) <==> forall|j: int|
            0 <= j < tracks@.len() ==> !(#[trigger] tracks@[j]).has_codec,
        r == Err::<AudioInput, AudioError>(AudioError::NoSampleRate) <==> exists|i: int|
            {
                &&& 0 <= i < tracks@.len()
                &&& (#[trigger] tracks@[i]).has_codec
                &&& tracks@[i].sample_rate is None
                &&& forall|j: int| 0 <= j < i ==> !(#[trigger] tracks@[j]).has_codec
            },
        r == Err::<AudioInput, AudioError>(AudioError::NoChannels) <==> exists|i: int|
            {
                &&& 0 <= i < tracks@.len()
                &&& (#[trigger] tracks@[i]).has_codec
                &&& tracks@[i].sample_rate is Some
                &&& tracks@[i].channels is None
                &&& forall|j: int| 0 <= j < i ==> !(#[trigger] tracks@[j]).has_codec
            },
{
    let mut i: usize = 0;
    while i < tracks.len() && !tracks[i].has_codec
        invariant
            i <= tracks@.len(),
            forall|j: int| 0 <= j < i ==> !(#[trigger] tracks@[j]).has_codec,
        decreases tracks@.len() - i,
    {
        i += 1;
    }
    if i == tracks.len() {
        return Err(AudioError::NoAudio);
    }
    assert(first_with_codec(tracks@, i as int));
    assert forall|k: int| #[trigger] first_with_codec(tracks@, k) implies k == i by {}
    assert forall|k: int|
        0 <= k < tracks@.len() && (#[trigger] tracks@[k]).has_codec && (forall|j: int|
            0 <= j < k ==> !(#[trigger] tracks@[j]).has_codec) implies k == i by {
        assert(first_with_codec(tracks@, k));
    }
    let track = tracks[i];
    match (track.sample_rate, track.channels) {
        (None, _) => Err(AudioError::NoSampleRate),
        (Some(_), None) => Err(AudioError::NoChannels),
        (Some(sample_rate), Some(mask)) => {
            let num_channels = channel_count(mask);
            let total_frames = match track.n_frames {
                Some(n) => n,
                None => 0,
            };
            Ok(AudioInput { track: i, sample_rate, num_channels, total_frames })
        },
    }
}

/// The sample rate and the length in frames that the render goes by: 44100 frames a second
/// and an unknown length, which is 0, if the track does not say.
pub fn track_timing(track: &TrackInfo) -> (timing: (u32, u64))
    ensures
        timing.0 == match track.sample_rate {
            Some(rate) => rate,
            None => 44100,
        },
        timing.1 == match track.n_frames {
            Some(n) => n,
            None => 0,
        },
{
    let rate = match track.sample_rate {
        Some(rate) => rate,
        None => 44100,
    };
    let frames = match track.n_frames {
        Some(n) => n,
        None => 0,
    };
    (rate, frames)
}

/// The samples of each channel.
pub open spec fn planes(channels: Seq<Vec<u32>>) -> Seq<Seq<u32>> {
    channels.map_values(|channel: Vec<u32>| channel@)
}

/// What a `DecodedAudio` holds.
pub struct PacketView {
    pub frames: int,
    pub channels: Seq<Seq<u32>>,
    pub singles: bool,
}

impl PacketView {
    /// Each channel has one sample for each frame.
    pub open spec fn wf(self) -> bool {
        &&& self.frames >= 0
        &&& forall|ch: int|
            0 <= ch < self.channels.len() ==> (#[trigger] self.channels[ch]).len() == self.frames
    }
}

/// A packet after decoding.
#[derive(Debug)]
pub struct DecodedAudio {
    /// The length in frames.
    pub frames: usize,
    /// The samples of each channel.
    pub channels: Vec<Vec<u32>>,
    /// Whether the decoder gave singles, so that nothing had to be converted.
    pub singles: bool,
}

impl View for DecodedAudio {
    type V = PacketView;

    open spec fn view(&self) -> PacketView {
        PacketView {
            frames: self.frames as int,
            channels: planes(self.channels@),
            singles: self.singles,
        }
    }
}

impl DecodedAudio {
    /// Each channel has one sample for each frame.
    pub open spec fn wf(self) -> bool {
        forall|ch: int| 0 <= ch < self.channels@.len() ==> (#[trigger] self.channels@[ch])@.len()
            == self.frames
    }
}

/// `s` with the samples from `at` on replaced by `part`.
pub open spec fn splice(s: Seq<u32>, at: int, part: Seq<u32>) -> Seq<u32> {
    s.take(at) + part + s.skip(at + part.len())
}

/// Copies each channel of a packet to the start of its buffer, as far as there are buffers.
///
/// Singles are copied buffer to buffer, so there the lengths have to agree; converted samples
/// are copied one by one, and a longer buffer keeps the rest of what it held.
pub fn copy_to_f32_buffer(buf: &DecodedAudio, result: &mut Vec<Vec<u32>>)
    requires
        buf.wf(),
        forall|ch: int|
            0 <= ch < old(result)@.len() && ch < buf.channels@.len() ==> (if buf.singles {
                (#[trigger] old(result)@[ch])@.len() == buf.frames
            } else {
                old(result)@[ch]@.len() >= buf.frames
            }),
    ensures
        planes(final(result)@) == Seq::new(
            old(result)@.len(),
            |ch: int|
                if ch < buf.channels@.len() {
                    splice(old(result)@[ch]@, 0, buf.channels@[ch]@)
                } else {
                    old(result)@[ch]@
                },
        ),
        final(result)@.len() == old(result)@.len(),
        forall|ch: int|
            0 <= ch < old(result)@.len() ==> (#[trigger] final(result)@[ch])@.len() == old(
                result,
            )@[ch]@.len(),
        forall|ch: int, i: int|
            0 <= ch < old(result)@.len() && 0 <= i < old(result)@[ch]@.len()
                ==> #[trigger] final(result)@[ch]@[i] == (if ch < buf.channels@.len() && i
                < buf.frames {
                buf.channels@[ch]@[i]
            } else {
                old(result)@[ch]@[i]
            }),
{
    let count: usize = if result.len() < buf.channels.len() {
        result.len()
    } else {
        buf.channels.len()
    };
    let ghost before = result@;
    for ch in 0..count
        invariant
            buf.wf(),
            count <= before.len() == result@.len(),
            count <= buf.channels@.len(),
            forall|c: int|
                0 <= c < count ==> (#[trigger] before[c])@.len() >= buf.frames,
            forall|c: int| ch <= c < before.len() ==> #[trigger] result@[c] == before[c],
            forall|c: int|
                0 <= c < ch ==> (#[trigger] result@[c])@ == splice(
                    before[c]@,
                    0,
                    buf.channels@[c]@,
                ),
    {
        let source = &buf.channels[ch];
        let mut samples: Vec<u32> = Vec::new();
        let length: usize = result[ch].len();
        for i in 0..length
            invariant
                ch < result@.len(),
                length == result@[ch as int]@.len(),
                source@.len() <= result@[ch as int]@.len(),
                samples@.len() == i,
                forall|j: int|
                    0 <= j < i ==> #[trigger] samples@[j] == (if j < source@.len() {
                        source@[j]
                    } else {
                        result@[ch as int]@[j]
                    }),
        {
            if i < source.len() {
                samples.push(source[i]);
            } else {
                samples.push(result[ch][i]);
            }
        }
        assert(samples@ =~= splice(before[ch as int]@, 0, source@));
        result.set(ch, samples);
    }
    assert(planes(result@) =~= Seq::new(
        before.len(),
        |ch: int|
            if ch < buf.channels@.len() {
                splice(before[ch]@, 0, buf.channels@[ch]@)
            } else {
                before[ch]@
            },
    ));
    assert forall|ch: int| 0 <= ch < before.len() implies (#[trigger] result@[ch])@ == (if ch
        < buf.channels@.len() {
        splice(before[ch]@, 0, buf.channels@[ch]@)
    } else {
        before[ch]@
    }) by {
        assert(planes(result@)[ch] == result@[ch]@);
    }
}

/// The row of channel `ch` in a planar buffer.
pub open spec fn row(buffer: Seq<u32>, stride: int, ch: int) -> Seq<u32> {
    buffer.subrange(ch * stride, ch * stride + stride)
}

/// The rows of a planar buffer of `count` channels.
pub open spec fn rows(buffer: Seq<u32>, stride: int, count: int) -> Seq<Seq<u32>> {
    Seq::new(count as nat, |ch: int| row(buffer, stride, ch))
}

/// Where a sample of a planar buffer stands in its row.
pub(crate) proof fn lemma_place(buffer: Seq<u32>, stride: int, count: int, p: int)
    requires
        0 < stride,
        0 <= p < count * stride,
        buffer.len() == count * stride,
    ensures
        0 <= p / stride < count,
        0 <= p % stride < stride,
        (p / stride) * stride + p % stride == p,
        row(buffer, stride, p / stride).len() == stride,
        row(buffer, stride, p / stride)[p % stride] == buffer[p],
{
    vstd::arithmetic::div_mod::lemma_fundamental_div_mod(p, stride);
    vstd::arithmetic::div_mod::lemma_mod_bound(p, stride);
    vstd::arithmetic::div_mod::lemma_div_pos_is_pos(p, stride);
    vstd::arithmetic::mul::lemma_mul_is_commutative(count, stride);
    vstd::arithmetic::div_mod::lemma_multiply_divide_lt(p, stride, count);
    assert((p / stride) * stride == stride * (p / stride)) by (nonlinear_arith);
    lemma_rows(stride, count, p / stride);
}

/// Rows lie inside the buffer and one behind the other.
pub(crate) proof fn lemma_rows(stride: int, count: int, ch: int)
    requires
        0 <= stride,
        0 <= ch < count,
    ensures
        0 <= ch * stride,
        ch * stride + stride <= count * stride,
{
    assert(0 <= ch * stride) by (nonlinear_arith)
        requires
            0 <= stride,
            0 <= ch,
    ;
    assert(ch * stride + stride <= count * stride) by (nonlinear_arith)
        requires
            0 <= stride,
            ch + 1 <= count,
    ;
}

/// A change within the row of `ch` leaves the other rows as they are.
pub(crate) proof fn lemma_other_rows(
    before: Seq<u32>,
    after: Seq<u32>,
    stride: int,
    count: int,
    ch: int,
)
    requires
        0 <= stride,
        0 <= ch < count,
        before.len() == after.len() == count * stride,
        forall|p: int|
            0 <= p < before.len() && !(ch * stride <= p < ch * stride + stride) ==> after[p]
                == before[p],
    ensures
        forall|c: int|
            0 <= c < count && c != ch ==> #[trigger] row(after, stride, c) == row(
                before,
                stride,
                c,
            ),
{
    assert forall|c: int| 0 <= c < count && c != ch implies #[trigger] row(after, stride, c)
        == row(before, stride, c) by {
        lemma_rows(stride, count, c);
        lemma_rows(stride, count, ch);
        if c < ch {
            lemma_rows(stride, ch, c);
        } else {
            lemma_rows(stride, c, ch);
        }
        assert(row(after, stride, c) =~= row(before, stride, c));
    }
}

/// Copies `frames` samples of `source`, from number `from` on, into the row of `ch`, at
/// number `at` on.
fn write_row(
    buffer: &mut Vec<u32>,
    stride: usize,
    ch: usize,
    at: usize,
    source: &Vec<u32>,
    from: usize,
    frames: usize,
    Ghost(count): Ghost<int>,
)
    requires
        0 <= ch < count,
        old(buffer)@.len() == count * stride,
        at + frames <= stride,
        from + frames <= source@.len(),
    ensures
        final(buffer)@.len() == old(buffer)@.len(),
        row(final(buffer)@, stride as int, ch as int) == splice(
            row(old(buffer)@, stride as int, ch as int),
            at as int,
            source@.subrange(from as int, from + frames),
        ),
        forall|c: int|
            0 <= c < count && c != ch ==> #[trigger] row(final(buffer)@, stride as int, c) == row(
                old(buffer)@,
                stride as int,
                c,
            ),
{
    let length: usize = buffer.len();
    proof {
        lemma_rows(stride as int, count, ch as int);
    }
    let start: usize = ch * stride;
    let available: usize = source.len();
    for i in 0..frames
        invariant
            available == source@.len(),
            length == buffer@.len() == old(buffer)@.len(),
            start + stride <= length,
            at + frames <= stride,
            from + frames <= source@.len(),
            forall|p: int|
                0 <= p < length ==> #[trigger] buffer@[p] == (if start + at <= p < start + at + i {
                    source@[from + p - start - at]
                } else {
                    old(buffer)@[p]
                }),
    {
        buffer.set(start + at + i, source[from + i]);
    }
    proof {
        lemma_other_rows(old(buffer)@, buffer@, stride as int, count, ch as int);
        assert(row(buffer@, stride as int, ch as int) =~= splice(
            row(old(buffer)@, stride as int, ch as int),
            at as int,
            source@.subrange(from as int, from + frames),
        ));
    }
}

/// Copies `frames` frames of a packet, from frame `src_offset` on, into a planar buffer, at
/// frame `dst_offset` on. The channels that both have are copied; the other rows of the
/// buffer stay as they are.
pub fn copy_to_planar_f32(
    buf: &DecodedAudio,
    buffer: &mut Vec<u32>,
    src_offset: usize,
    dst_offset: usize,
    frames: usize,
    stride: usize,
)
    requires
        buf.wf(),
        stride > 0,
        old(buffer)@.len() as int % stride as int == 0,
        src_offset + frames <= buf.frames,
        dst_offset + frames <= stride,
    ensures
        final(buffer)@.len() == old(buffer)@.len(),
        forall|ch: int|
            0 <= ch < old(buffer)@.len() as int / stride as int ==> #[trigger] row(
                final(buffer)@,
                stride as int,
                ch,
            ) == (if ch < buf.channels@.len() {
                splice(
                    row(old(buffer)@, stride as int, ch),
                    dst_offset as int,
                    buf.channels@[ch]@.subrange(src_offset as int, src_offset + frames),
                )
            } else {
                row(old(buffer)@, stride as int, ch)
            }),
        forall|p: int|
            0 <= p < old(buffer)@.len() ==> #[trigger] final(buffer)@[p] == (if p / (stride as int)
                < buf.channels@.len() && dst_offset <= p % (stride as int) < dst_offset + frames {
                buf.channels@[p / (stride as int)]@[src_offset + p % (stride as int) - dst_offset]
            } else {
                old(buffer)@[p]
            }),
{
    let count: usize = buffer.len() / stride;
    let ghost length = buffer@.len() as int;
    proof {
        vstd::arithmetic::div_mod::lemma_fundamental_div_mod(length, stride as int);
        assert(count * stride == length) by (nonlinear_arith)
            requires
                length == stride * (length / stride as int) + length % stride as int,
                length % stride as int == 0,
                count == length / stride as int,
        ;
    }
    let shared: usize = if count < buf.channels.len() {
        count
    } else {
        buf.channels.len()
    };
    for ch in 0..shared
        invariant
            buf.wf(),
            length == buffer@.len() == old(buffer)@.len() == count * stride,
            shared <= count,
            shared <= buf.channels@.len(),
            src_offset + frames <= buf.frames,
            dst_offset + frames <= stride,
            forall|c: int|
                0 <= c < ch ==> #[trigger] row(buffer@, stride as int, c) == splice(
                    row(old(buffer)@, stride as int, c),
                    dst_offset as int,
                    buf.channels@[c]@.subrange(src_offset as int, src_offset + frames),
                ),
            forall|c: int|
                ch <= c < count ==> #[trigger] row(buffer@, stride as int, c) == row(
                    old(buffer)@,
                    stride as int,
                    c,
                ),
    {
        write_row(
            buffer,
            stride,
            ch,
            dst_offset,
            &buf.channels[ch],
            src_offset,
            frames,
            Ghost(count as int),
        );
    }
    proof {
        let width = stride as int;
        assert forall|p: int| 0 <= p < length implies #[trigger] buffer@[p] == (if p / width
            < buf.channels@.len() && dst_offset <= p % width < dst_offset + frames {
            buf.channels@[p / width]@[src_offset + p % width - dst_offset]
        } else {
            old(buffer)@[p]
        }) by {
            lemma_place(buffer@, width, count as int, p);
            lemma_place(old(buffer)@, width, count as int, p);
        }
    }
}

/// `n` samples of silence.
pub open spec fn silence(n: int) -> Seq<u32> {
    Seq::new(n as nat, |i: int| 0u32)
}

/// Silences the row of `ch` from frame `from` on.
fn silence_row(buffer: &mut Vec<u32>, stride: usize, ch: usize, from: usize)
    requires
        ch * stride + stride <= old(buffer)@.len(),
        from <= stride,
    ensures
        final(buffer)@ == splice(
            old(buffer)@,
            ch * stride + from,
            silence(stride - from),
        ),
{
    let length: usize = buffer.len();
    proof {
        lemma_rows(stride as int, ch + 1, ch as int);
    }
    let start: usize = ch * stride;
    for i in from..stride
        invariant
            from <= stride,
            length == buffer@.len() == old(buffer)@.len(),
            start + stride <= length,
            forall|p: int|
                0 <= p < length ==> #[trigger] buffer@[p] == (if start + from <= p < start + i {
                    0u32
                } else {
                    old(buffer)@[p]
                }),
    {
        buffer.set(start + i, 0);
    }
    assert(buffer@ =~= splice(old(buffer)@, start + from, silence(stride - from)));
}

/// Copies the first row of a planar buffer into the second one.
fn copy_first_row(buffer: &mut Vec<u32>, stride: usize)
    requires
        2 * stride <= old(buffer)@.len(),
    ensures
        final(buffer)@ == splice(
            old(buffer)@,
            stride as int,
            old(buffer)@.take(stride as int),
        ),
{
    let length: usize = buffer.len();
    for i in 0..stride
        invariant
            length == buffer@.len() == old(buffer)@.len(),
            2 * stride <= length,
            forall|p: int|
                0 <= p < length ==> #[trigger] buffer@[p] == (if stride <= p < stride + i {
                    old(buffer)@[p - stride]
                } else {
                    old(buffer)@[p]
                }),
    {
        let sample = buffer[i];
        buffer.set(stride + i, sample);
    }
    assert(buffer@ =~= splice(old(buffer)@, stride as int, old(buffer)@.take(stride as int)));
}

/// The row of a block that holds `chunk` frames of a packet, from frame `offset` on, and
/// silence behind them. A channel that the packet does not have keeps what the row held.
pub open spec fn block_row(
    before: Seq<u32>,
    packet: Seq<Seq<u32>>,
    ch: int,
    offset: int,
    chunk: int,
    block: int,
) -> Seq<u32> {
    (if ch < packet.len() {
        packet[ch].subrange(offset, offset + chunk)
    } else {
        before.take(chunk)
    }) + silence(block - chunk)
}

/// What stands at position `p` of a planar buffer that holds a block.
spec fn block_place(
    before: Seq<u32>,
    after: Seq<u32>,
    packet: Seq<Seq<u32>>,
    p: int,
    offset: int,
    chunk: int,
    block: int,
    upmix: bool,
) -> bool {
    after[p] == (if p % block >= chunk {
        0
    } else if upmix {
        if packet.len() > 0 {
            packet[0][offset + p % block]
        } else {
            before[p % block]
        }
    } else if p / block < packet.len() {
        packet[p / block][offset + p % block]
    } else {
        before[p]
    })
}

proof fn lemma_block_place(
    before: Seq<u32>,
    after: Seq<u32>,
    packet: Seq<Seq<u32>>,
    frames: int,
    p: int,
    offset: int,
    chunk: int,
    block: int,
    inputs: int,
    upmix: bool,
)
    requires
        0 < block,
        0 <= chunk <= block,
        0 <= offset,
        offset + chunk <= frames,
        before.len() == after.len() == inputs * block,
        forall|c: int| 0 <= c < packet.len() ==> (#[trigger] packet[c]).len() == frames,
        0 <= p < after.len(),
        forall|ch: int|
            0 <= ch < inputs ==> #[trigger] row(after, block, ch) == block_row(
                row(before, block, if upmix { 0 } else { ch }),
                packet,
                if upmix {
                    0
                } else {
                    ch
                },
                offset,
                chunk,
                block,
            ),
    ensures
        block_place(before, after, packet, p, offset, chunk, block, upmix),
{
    lemma_place(after, block, inputs, p);
    lemma_place(before, block, inputs, p);
    lemma_rows(block, inputs, 0);
    let ch = p / block;
    let i = p % block;
    let c: int = if upmix {
        0
    } else {
        ch
    };
    assert(row(before, block, 0)[i] == before[i]);
    assert(row(after, block, ch)[i] == block_row(
        row(before, block, c),
        packet,
        c,
        offset,
        chunk,
        block,
    )[i]);
    assert(row(before, block, c).len() == block);
    if c < packet.len() {
        assert(packet[c].len() == frames);
    }
}

/// Fills the input buffer of `inputs` channels with one block: `chunk` frames of the packet
/// and silence behind them. With `upmix`, the second row is a copy of the first.
pub fn load_block(
    buffer: &mut Vec<u32>,
    packet: &DecodedAudio,
    offset: usize,
    chunk: usize,
    block: usize,
    inputs: usize,
    upmix: bool,
)
    requires
        packet.wf(),
        block > 0,
        chunk <= block,
        offset + chunk <= packet.frames,
        old(buffer)@.len() == inputs * block,
        upmix ==> inputs == 2,
    ensures
        final(buffer)@.len() == old(buffer)@.len(),
        forall|ch: int|
            0 <= ch < inputs ==> #[trigger] row(final(buffer)@, block as int, ch) == block_row(
                row(old(buffer)@, block as int, if upmix { 0 } else { ch }),
                planes(packet.channels@),
                if upmix {
                    0
                } else {
                    ch
                },
                offset as int,
                chunk as int,
                block as int,
            ),
        forall|p: int|
            0 <= p < final(buffer)@.len() && p % (block as int) >= chunk ==> #[trigger] final(
                buffer)@[p] == 0,
        forall|p: int|
            0 <= p < final(buffer)@.len() && p % (block as int) < chunk && !upmix && p / (block as int)
                < packet.channels@.len() ==> #[trigger] final(buffer)@[p]
                == packet.channels@[p / (block as int)]@[offset + p % (block as int)],
        forall|p: int|
            0 <= p < final(buffer)@.len() && p % (block as int) < chunk && upmix
                && packet.channels@.len() > 0 ==> #[trigger] final(buffer)@[p]
                == packet.channels@[0]@[offset + p % (block as int)],
        forall|p: int|
            0 <= p < final(buffer)@.len() && p % (block as int) < chunk && !upmix && p / (block as int)
                >= packet.channels@.len() ==> #[trigger] final(buffer)@[p] == old(buffer)@[p],
{
    let ghost before = buffer@;
    let ghost width = block as int;
    proof {
        vstd::arithmetic::div_mod::lemma_fundamental_div_mod_converse(
            inputs * block,
            width,
            inputs as int,
            0,
        );
    }
    copy_to_planar_f32(packet, buffer, offset, 0, chunk, block);
    let ghost copied = buffer@;
    for ch in 0..inputs
        invariant
            chunk <= block,
            width == block,
            copied.len() == buffer@.len() == inputs * block,
            forall|c: int|
                ch <= c < inputs ==> #[trigger] row(buffer@, width, c) == row(copied, width, c),
            forall|c: int|
                0 <= c < ch && (!upmix || c == 0) ==> #[trigger] row(buffer@, width, c) == row(
                    copied,
                    width,
                    c,
                ).take(chunk as int) + silence(block - chunk),
    {
        if !upmix || ch == 0 {
            let ghost now = buffer@;
            proof {
                lemma_rows(width, inputs as int, ch as int);
            }
            silence_row(buffer, block, ch, chunk);
            proof {
                lemma_other_rows(now, buffer@, width, inputs as int, ch as int);
                assert(row(buffer@, width, ch as int) =~= row(now, width, ch as int).take(
                    chunk as int,
                ) + silence(block - chunk));
            }
        }
    }
    let ghost padded = buffer@;
    if upmix {
        assert(inputs * block == 2 * block) by (nonlinear_arith)
            requires
                inputs == 2,
        ;
        copy_first_row(buffer, block);
        proof {
            vstd::arithmetic::mul::lemma_mul_basics(width);
            assert(row(buffer@, width, 0) =~= row(padded, width, 0));
            assert(row(buffer@, width, 1) =~= row(padded, width, 0));
        }
    }
    proof {
        assert forall|ch: int| 0 <= ch < inputs implies #[trigger] row(buffer@, width, ch)
            == block_row(
            row(before, width, if upmix { 0 } else { ch }),
            planes(packet.channels@),
            if upmix {
                0
            } else {
                ch
            },
            offset as int,
            chunk as int,
            width,
        ) by {
            let c: int = if upmix {
                0
            } else {
                ch
            };
            lemma_rows(width, inputs as int, c);
            assert(row(buffer@, width, ch) == row(padded, width, c));
            assert(row(padded, width, c) == row(copied, width, c).take(chunk as int) + silence(
                block - chunk,
            ));
            assert(row(padded, width, c) =~= block_row(
                row(before, width, c),
                planes(packet.channels@),
                c,
                offset as int,
                chunk as int,
                width,
            ));
        }
        assert(planes(packet.channels@).len() == packet.channels@.len());
        assert forall|c: int| 0 <= c < packet.channels@.len() implies (#[trigger] planes(
            packet.channels@,
        )[c]).len() == packet.frames by {
            assert(packet.channels@[c]@.len() == packet.frames);
        }
        assert forall|p: int|
            #![trigger buffer@[p]]
            0 <= p < buffer@.len() implies block_place(
            before,
            buffer@,
            planes(packet.channels@),
            p,
            offset as int,
            chunk as int,
            width,
            upmix,
        ) by {
            lemma_block_place(
                before,
                buffer@,
                planes(packet.channels@),
                packet.frames as int,
                p,
                offset as int,
                chunk as int,
                width,
                inputs as int,
                upmix,
            );
        }
    }
}

/// Silences a whole buffer.
pub(crate) fn silence_all(buffer: &mut Vec<u32>)
    ensures
        final(buffer)@ == silence(old(buffer)@.len() as int),
        final(buffer)@.len() == old(buffer)@.len(),
        forall|p: int| 0 <= p < final(buffer)@.len() ==> #[trigger] final(buffer)@[p] == 0,
{
    let length: usize = buffer.len();
    for i in 0..length
        invariant
            length == buffer@.len() == old(buffer)@.len(),
            forall|p: int| 0 <= p < i ==> #[trigger] buffer@[p] == 0,
    {
        buffer.set(i, 0);
    }
    assert(buffer@ =~= silence(old(buffer)@.len() as int));
}

} // verus!
