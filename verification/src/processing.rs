//! Rendering: in which blocks the input goes through the chain, what each plugin gets, and
//! what is written.
//!
//! Reading and decoding the input, running a plugin and writing the output happen outside.
//! `process_audio` and `process_chunk` say what to do next; `process_audio` and
//! `store_outputs` take in what came of it.
use vstd::prelude::*;

use crate::audio;
use crate::audio::{load_block, silence_all, DecodedAudio};
use crate::laws;
use crate::plugin;
use crate::plugin::{zeros, PluginInstance};

verus! {

#[verifier::external_type_specification]
#[verifier::external_body]
pub struct ExInstant(std::time::Instant);

/// `Instant::now` gives the time of the call; nothing is stated of it.
pub assume_specification[ std::time::Instant::now ]() -> std::time::Instant
;

/// What to report of the progress.
#[derive(Debug, Clone, Copy, PartialEq, Eq, Structural)]
pub enum Progress {
    /// So many frames of the input have been decoded, of so many in all.
    Rendering { frames_processed: u64, frames_decoded: u64, total_frames: u64 },
    /// So many frames of the tail have been rendered, of so many in all.
    Draining { frames_processed: u64, drained: usize, drain_frames: usize },
}

/// Reports how far the render has come.
pub struct ProgressReporter {
    pub start_time: std::time::Instant,
    pub sample_rate: u32,
    /// The length of the input in frames; 0 if it is not known.
    pub total_frames: u64,
}

/// What to report after a block: once a second of output, and while the input is rendered
/// only if its length is known.
pub open spec fn progress(
    sample_rate: u32,
    total_frames: u64,
    frames_processed: u64,
    frames_decoded: u64,
    is_draining: bool,
    drain_frames: usize,
    drain_remaining: usize,
    block_size: usize,
) -> Option<Progress> {
    if frames_processed as int % sample_rate as int >= block_size {
        None
    } else if is_draining {
        Some(
            Progress::Draining {
                frames_processed,
                drained: (drain_frames - drain_remaining) as usize,
                drain_frames,
            },
        )
    } else if total_frames > 0 {
        Some(Progress::Rendering { frames_processed, frames_decoded, total_frames })
    } else {
        None
    }
}

impl ProgressReporter {
    /// A reporter that counts the time from now on.
    pub fn new(sample_rate: u32, total_frames: u64) -> (reporter: Self)
        ensures
            reporter.sample_rate == sample_rate,
            reporter.total_frames == total_frames,
    {
        ProgressReporter { start_time: std::time::Instant::now(), sample_rate, total_frames }
    }

    /// What to report after a block.
    pub fn tick(
        &self,
        frames_processed: u64,
        frames_decoded: u64,
        is_draining: bool,
        drain_frames: usize,
        drain_remaining: usize,
        block_size: usize,
    ) -> (report: Option<Progress>)
        requires
            self.sample_rate > 0,
            is_draining ==> drain_remaining <= drain_frames,
        ensures
            report == progress(
                self.sample_rate,
                self.total_frames,
                frames_processed,
                frames_decoded,
                is_draining,
                drain_frames,
                drain_remaining,
                block_size,
            ),
            frames_processed as int % self.sample_rate as int >= block_size ==> report is None,
            (frames_processed as int % self.sample_rate as int) < block_size && is_draining
                ==> report == Some(
                Progress::Draining {
                    frames_processed,
                    drained: (drain_frames - drain_remaining) as usize,
                    drain_frames,
                },
            ),
            (frames_processed as int % self.sample_rate as int) < block_size && !is_draining
                && self.total_frames > 0 ==> report == Some(
                Progress::Rendering {
                    frames_processed,
                    frames_decoded,
                    total_frames: self.total_frames,
                },
            ),
            !is_draining && self.total_frames == 0 ==> report is None,
    {
        let since: u64 = frames_processed % (self.sample_rate as u64);
        if since >= block_size as u64 {
            None
        } else if is_draining {
            let drained: usize = drain_frames - drain_remaining;
            Some(Progress::Draining { frames_processed, drained, drain_frames })
        } else if self.total_frames > 0 {
            Some(
                Progress::Rendering {
                    frames_processed,
                    frames_decoded,
                    total_frames: self.total_frames,
                },
            )
        } else {
            None
        }
    }
}

/// A chain that is ready to render, and how to render.
#[derive(Debug)]
pub struct ProcessingContext {
    pub instances: Vec<PluginInstance>,
    /// How many frames go through the chain at once.
    pub block_size: usize,
    pub input_channels: usize,
    /// How many frames of silence follow the input, for the plugins to fade out.
    pub drain_frames: usize,
}

impl ProcessingContext {
    /// There is a plugin, and the input buffer fits into memory.
    pub open spec fn wf(self) -> bool {
        &&& self.instances@.len() > 0
        &&& self.instances@[0].audio_inputs * self.block_size <= usize::MAX
        &&& forall|i: int|
            0 <= i < self.instances@.len() ==> (#[trigger] self.instances@[i]).wf(
                self.block_size as int,
            )
    }

    /// How many channels the first plugin takes.
    pub open spec fn first_inputs(self) -> usize {
        self.instances@[0].audio_inputs
    }

    /// Whether the one channel of the input goes to both inputs of the first plugin.
    pub open spec fn upmixes(self) -> bool {
        self.input_channels == 1 && self.first_inputs() == 2
    }

    /// Whether the one channel of the input goes to both inputs of the first plugin.
    pub fn needs_upmix(&self) -> (upmix: bool)
        requires
            self.wf(),
        ensures
            upmix == self.upmixes(),
            upmix <==> self.input_channels == 1 && self.instances@[0].audio_inputs == 2,
    {
        self.input_channels == 1 && self.instances[0].audio_inputs == 2
    }
}

/// What a `Phase` holds.
pub enum PhaseView {
    /// The next packet of the input is to be read.
    Reading,
    /// The frames of a packet before `offset` have been rendered.
    Packet { packet: audio::PacketView, offset: int },
    /// The input has ended; so many frames of silence remain.
    Draining { remaining: int },
    Finished,
    Failed,
}

/// What a `Render` holds.
pub struct RenderView {
    pub instances: Seq<plugin::InstanceView>,
    pub block: int,
    pub input_channels: int,
    pub drain: int,
    /// The block that the first plugin gets, one row for each channel.
    pub rows: Seq<Seq<u32>>,
    pub phase: PhaseView,
    /// How many plugins have run on the block.
    pub finished: int,
    pub processed: int,
    pub decoded: int,
}

impl RenderView {
    /// How many channels the first plugin takes.
    pub open spec fn first_inputs(self) -> int {
        self.instances[0].audio_inputs
    }

    /// Whether the one channel of the input goes to both inputs of the first plugin.
    pub open spec fn upmixes(self) -> bool {
        self.input_channels == 1 && self.first_inputs() == 2
    }

    /// Whether a block is on its way through the chain.
    pub open spec fn in_block(self) -> bool {
        self.phase is Packet || self.phase is Draining
    }
}

/// What came of the last action.
pub enum EventView {
    /// A packet was read and decoded.
    Packet(audio::PacketView),
    /// A packet was read, but could not be decoded.
    DecodeError,
    /// There are no more packets.
    EndOfInput,
    /// Reading failed.
    ReadError,
    /// The next plugin ran on the block, and gave this.
    PluginDone { control_outputs: Seq<u32>, audio_outputs: Seq<Seq<u32>> },
    /// The block went through the chain and was written.
    ChunkDone,
    /// A plugin or writing failed.
    ChunkFailed,
}

/// What came of the last action that `process_audio` asked for.
#[derive(Debug)]
pub enum RenderEvent {
    /// A packet was read and decoded.
    Packet(DecodedAudio),
    /// A packet was read, but could not be decoded.
    DecodeError,
    /// There are no more packets.
    EndOfInput,
    /// Reading failed.
    ReadError,
    /// The block went through the chain and was written.
    ChunkDone,
    /// A plugin or writing failed.
    ChunkFailed,
}

impl View for RenderEvent {
    type V = EventView;

    open spec fn view(&self) -> EventView {
        match self {
            RenderEvent::Packet(packet) => EventView::Packet(packet@),
            RenderEvent::DecodeError => EventView::DecodeError,
            RenderEvent::EndOfInput => EventView::EndOfInput,
            RenderEvent::ReadError => EventView::ReadError,
            RenderEvent::ChunkDone => EventView::ChunkDone,
            RenderEvent::ChunkFailed => EventView::ChunkFailed,
        }
    }
}

/// What to do next.
#[derive(Debug, Clone, Copy, PartialEq, Eq, Structural)]
pub enum RenderAction {
    /// Read and decode a packet.
    ReadPacket,
    /// Send the block in the input buffer through the chain, and write so many frames of what
    /// comes out.
    RunChunk(usize),
    /// All is written.
    Finish,
    /// Give up.
    Fail,
}

/// The smaller one of two numbers.
pub open spec fn smaller(a: int, b: int) -> int {
    if a <= b {
        a
    } else {
        b
    }
}

/// How many frames of the block in the input buffer count.
pub open spec fn chunk(v: RenderView) -> int {
    match v.phase {
        PhaseView::Packet { packet, offset } => smaller(packet.frames - offset, v.block),
        PhaseView::Draining { remaining } => smaller(remaining, v.block),
        _ => 0,
    }
}

/// What is to be done.
pub open spec fn action(v: RenderView) -> RenderAction {
    match v.phase {
        PhaseView::Reading => RenderAction::ReadPacket,
        PhaseView::Packet { .. } => RenderAction::RunChunk(chunk(v) as usize),
        PhaseView::Draining { .. } => RenderAction::RunChunk(chunk(v) as usize),
        PhaseView::Finished => RenderAction::Finish,
        PhaseView::Failed => RenderAction::Fail,
    }
}

/// Whether the event can come of what is to be done.
///
/// A plugin fills the buffers that it has: as many control outputs, as many channels, one
/// block of each. A block is done when every plugin has run on it. Blocks are not empty where
/// there are frames to render.
pub open spec fn can_follow(v: RenderView, event: EventView) -> bool {
    match event {
        EventView::Packet(packet) => {
            &&& v.phase is Reading
            &&& packet.wf()
            &&& packet.frames > 0 ==> v.block > 0
        },
        EventView::EndOfInput => v.phase is Reading && (v.drain > 0 ==> v.block > 0),
        EventView::DecodeError => v.phase is Reading,
        EventView::ReadError => v.phase is Reading,
        EventView::PluginDone { control_outputs, audio_outputs } => {
            &&& v.in_block()
            &&& 0 <= v.finished < v.instances.len()
            &&& control_outputs.len() == v.instances[v.finished].control_outputs.len()
            &&& audio_outputs.len() == v.instances[v.finished].audio_outputs.len()
            &&& forall|ch: int|
                0 <= ch < audio_outputs.len() ==> (#[trigger] audio_outputs[ch]).len() == v.block
        },
        EventView::ChunkDone => v.in_block() && v.finished == v.instances.len(),
        EventView::ChunkFailed => v.in_block(),
    }
}

/// The phase in which so many frames of a packet have been rendered.
pub open spec fn in_packet(packet: audio::PacketView, offset: int) -> PhaseView {
    if offset < packet.frames {
        PhaseView::Packet { packet, offset }
    } else {
        PhaseView::Reading
    }
}

/// The phase in which so many frames of silence remain.
pub open spec fn in_drain(remaining: int) -> PhaseView {
    if remaining > 0 {
        PhaseView::Draining { remaining }
    } else {
        PhaseView::Finished
    }
}

/// The block that the first plugin gets in this phase: the next frames of the packet and
/// silence behind them; only silence after the input; else what there was.
pub open spec fn block_rows(v: RenderView) -> Seq<Seq<u32>> {
    match v.phase {
        PhaseView::Packet { packet, offset } => Seq::new(
            v.first_inputs() as nat,
            |ch: int|
                {
                    let from = if v.upmixes() {
                        0
                    } else {
                        ch
                    };
                    audio::block_row(v.rows[from], packet.channels, from, offset, chunk(v), v.block)
                },
        ),
        PhaseView::Draining { .. } => Seq::new(
            v.first_inputs() as nat,
            |ch: int| audio::silence(v.block),
        ),
        _ => v.rows,
    }
}

/// The start of a block: the first plugin is next.
pub open spec fn loaded(v: RenderView) -> RenderView {
    RenderView { rows: block_rows(v), finished: 0, ..v }
}

/// The course of a render: the packets of the input, each block by block, then the silence,
/// block by block; each block through one plugin after the other. A packet that cannot be
/// decoded is passed over; any other failure ends the render.
pub open spec fn next(v: RenderView, event: EventView) -> RenderView {
    match event {
        EventView::Packet(packet) => loaded(RenderView { phase: in_packet(packet, 0), ..v }),
        EventView::DecodeError => v,
        EventView::EndOfInput => loaded(RenderView { phase: in_drain(v.drain), ..v }),
        EventView::PluginDone { control_outputs, audio_outputs } => RenderView {
            instances: v.instances.update(
                v.finished,
                plugin::InstanceView {
                    control_outputs,
                    audio_outputs,
                    ..v.instances[v.finished]
                },
            ),
            finished: v.finished + 1,
            ..v
        },
        EventView::ChunkDone => match v.phase {
            PhaseView::Packet { packet, offset } => loaded(
                RenderView {
                    phase: in_packet(packet, offset + chunk(v)),
                    processed: v.processed + chunk(v),
                    decoded: v.decoded + chunk(v),
                    ..v
                },
            ),
            PhaseView::Draining { remaining } => loaded(
                RenderView {
                    phase: in_drain(remaining - chunk(v)),
                    processed: v.processed + chunk(v),
                    ..v
                },
            ),
            _ => v,
        },
        EventView::ReadError => RenderView { phase: PhaseView::Failed, ..v },
        EventView::ChunkFailed => RenderView { phase: PhaseView::Failed, ..v },
    }
}

/// Where a render stands.
#[derive(Debug)]
pub enum Phase {
    Reading,
    /// This packet is being rendered, up to frame `offset` so far.
    Packet { packet: DecodedAudio, offset: usize },
    /// So many frames of silence remain.
    Draining { remaining: usize },
    Finished,
    Failed,
}

impl View for Phase {
    type V = PhaseView;

    open spec fn view(&self) -> PhaseView {
        match self {
            Phase::Reading => PhaseView::Reading,
            Phase::Packet { packet, offset } => PhaseView::Packet {
                packet: packet@,
                offset: *offset as int,
            },
            Phase::Draining { remaining } => PhaseView::Draining { remaining: *remaining as int },
            Phase::Finished => PhaseView::Finished,
            Phase::Failed => PhaseView::Failed,
        }
    }
}

/// A render under way.
#[derive(Debug)]
pub struct Render {
    pub ctx: ProcessingContext,
    /// The block that the first plugin gets: a planar buffer.
    pub input_buffer: Vec<u32>,
    pub phase: Phase,
    /// How many plugins have run on the block.
    pub finished: usize,
    pub frames_processed: u64,
    pub frames_decoded: u64,
}

/// What the plugins of a chain hold.
pub open spec fn instances_view(instances: Seq<PluginInstance>) -> Seq<plugin::InstanceView> {
    instances.map_values(|instance: PluginInstance| instance@)
}

impl View for Render {
    type V = RenderView;

    open spec fn view(&self) -> RenderView {
        RenderView {
            instances: instances_view(self.ctx.instances@),
            block: self.ctx.block_size as int,
            input_channels: self.ctx.input_channels as int,
            drain: self.ctx.drain_frames as int,
            rows: audio::rows(
                self.input_buffer@,
                self.ctx.block_size as int,
                self.ctx.first_inputs() as int,
            ),
            phase: self.phase@,
            finished: self.finished as int,
            processed: self.frames_processed as int,
            decoded: self.frames_decoded as int,
        }
    }
}

/// Whether the input has ended.
pub open spec fn input_ended(v: RenderView) -> bool {
    v.phase is Draining || v.phase is Finished
}

/// How many frames of silence have been rendered.
pub open spec fn drained(v: RenderView) -> int {
    match v.phase {
        PhaseView::Draining { remaining } => v.drain - remaining,
        PhaseView::Finished => v.drain,
        _ => 0,
    }
}

/// What holds of a render at any time: every frame that went through the chain is one of the
/// input or one of the silence, and plugins run on a block only.
pub open spec fn render_inv(v: RenderView) -> bool {
    &&& v.instances.len() > 0
    &&& v.block >= 0
    &&& v.drain >= 0
    &&& v.decoded >= 0
    &&& 0 <= v.finished <= v.instances.len()
    &&& match v.phase {
        PhaseView::Packet { packet, offset } => {
            &&& v.block > 0
            &&& packet.wf()
            &&& 0 <= offset < packet.frames
            &&& v.decoded >= offset
        },
        PhaseView::Draining { remaining } => v.block > 0 && 0 < remaining <= v.drain,
        PhaseView::Failed => true,
        _ => v.finished == 0,
    }
    &&& v.phase !is Failed ==> v.processed == v.decoded + drained(v)
}

/// A render of which nothing has been done.
pub open spec fn fresh(v: RenderView) -> bool {
    &&& render_inv(v)
    &&& v.phase is Reading
    &&& v.processed == 0
    &&& v.decoded == 0
}

impl Render {
    /// The chain is ready, the input buffer has a row for each channel that the first plugin
    /// takes, and the frames are all accounted for.
    pub open spec fn wf(self) -> bool {
        &&& self.ctx.wf()
        &&& self.input_buffer@.len() == self.ctx.first_inputs() * self.ctx.block_size
        &&& render_inv(self@)
    }

    /// How many frames of the block in the input buffer count.
    pub fn chunk_size(&self) -> (size: usize)
        requires
            self.wf(),
        ensures
            size == chunk(self@),
            size <= self.ctx.block_size,
            self.phase matches Phase::Packet { packet, offset } ==> size <= packet.frames - offset
                && (size == self.ctx.block_size || size == packet.frames - offset) && size > 0,
            self.phase matches Phase::Draining { remaining } ==> size <= remaining && (size
                == self.ctx.block_size || size == remaining) && size > 0,
    {
        let block: usize = self.ctx.block_size;
        let left: usize = match &self.phase {
            Phase::Packet { packet, offset } => packet.frames - *offset,
            Phase::Draining { remaining } => *remaining,
            _ => 0,
        };
        if left <= block {
            left
        } else {
            block
        }
    }

    /// Whether the input has ended, so that the blocks hold silence.
    pub fn is_draining(&self) -> (draining: bool)
        ensures
            draining == input_ended(self@),
            draining <==> self.phase is Draining || self.phase is Finished,
    {
        match &self.phase {
            Phase::Draining { .. } => true,
            Phase::Finished => true,
            _ => false,
        }
    }

    /// How many frames of silence are still to be rendered.
    pub fn drain_remaining(&self) -> (remaining: usize)
        requires
            self.wf(),
        ensures
            remaining == self@.drain - drained(self@),
            self.phase matches Phase::Draining { remaining: left } ==> remaining == left,
            self.phase is Finished ==> remaining == 0,
            self.phase is Reading || self.phase is Packet ==> remaining
                == self.ctx.drain_frames,
    {
        match &self.phase {
            Phase::Draining { remaining } => *remaining,
            Phase::Finished => 0,
            _ => self.ctx.drain_frames,
        }
    }

    /// What to report after a block.
    pub fn report(&self, reporter: &ProgressReporter) -> (report: Option<Progress>)
        requires
            self.wf(),
            reporter.sample_rate > 0,
        ensures
            report == progress(
                reporter.sample_rate,
                reporter.total_frames,
                self.frames_processed,
                self.frames_decoded,
                input_ended(self@),
                self.ctx.drain_frames,
                (self@.drain - drained(self@)) as usize,
                self.ctx.block_size,
            ),
            self.frames_processed as int % reporter.sample_rate as int >= self.ctx.block_size
                ==> report is None,
            self.frames_processed as int % reporter.sample_rate as int >= self.ctx.block_size || (
            self.phase matches Phase::Draining { remaining } ==> report == Some(
                Progress::Draining {
                    frames_processed: self.frames_processed,
                    drained: (self.ctx.drain_frames - remaining) as usize,
                    drain_frames: self.ctx.drain_frames,
                },
            )),
            self.frames_processed as int % reporter.sample_rate as int >= self.ctx.block_size || (
            self.phase is Finished ==> report == Some(
                Progress::Draining {
                    frames_processed: self.frames_processed,
                    drained: self.ctx.drain_frames,
                    drain_frames: self.ctx.drain_frames,
                },
            )),
            self.frames_processed as int % reporter.sample_rate as int >= self.ctx.block_size || (
            (self.phase is Reading || self.phase is Packet) && reporter.total_frames > 0
                ==> report == Some(
                Progress::Rendering {
                    frames_processed: self.frames_processed,
                    frames_decoded: self.frames_decoded,
                    total_frames: reporter.total_frames,
                },
            )),
            (self.phase is Reading || self.phase is Packet) && reporter.total_frames == 0
                ==> report is None,
    {
        reporter.tick(
            self.frames_processed,
            self.frames_decoded,
            self.is_draining(),
            self.ctx.drain_frames,
            self.drain_remaining(),
            self.ctx.block_size,
        )
    }
}

/// The first step: the chain is ready, and the input buffer holds silence.
pub fn start_render(ctx: ProcessingContext) -> (render: Render)
    requires
        ctx.wf(),
    ensures
        render.wf(),
        fresh(render@),
        render.ctx == ctx,
        render.input_buffer@ == audio::silence(ctx.first_inputs() * ctx.block_size),
        render.input_buffer@.len() == ctx.instances@[0].audio_inputs * ctx.block_size,
        forall|p: int|
            0 <= p < render.input_buffer@.len() ==> #[trigger] render.input_buffer@[p] == 0,
        render.phase is Reading,
        render.finished == 0,
        render.frames_processed == 0,
        render.frames_decoded == 0,
{
    let size: usize = ctx.instances[0].audio_inputs * ctx.block_size;
    let input_buffer = zeros(size);
    assert(input_buffer@ =~= audio::silence(size as int));
    Render {
        ctx,
        input_buffer,
        phase: Phase::Reading,
        finished: 0,
        frames_processed: 0,
        frames_decoded: 0,
    }
}

/// Puts the next frames of the packet into the input buffer.
fn load_packet(render: &mut Render, packet: DecodedAudio, offset: usize)
    requires
        old(render).ctx.wf(),
        old(render).ctx.block_size > 0,
        old(render).input_buffer@.len() == old(render).ctx.first_inputs()
            * old(render).ctx.block_size,
        packet@.wf(),
        offset < packet.frames,
    ensures
        final(render).ctx == old(render).ctx,
        final(render).input_buffer@.len() == old(render).input_buffer@.len(),
        final(render).phase == (Phase::Packet { packet, offset }),
        final(render)@ == loaded(
            RenderView {
                phase: PhaseView::Packet { packet: packet@, offset: offset as int },
                ..old(render)@
            },
        ),
        final(render).finished == 0,
        final(render).frames_processed == old(render).frames_processed,
        final(render).frames_decoded == old(render).frames_decoded,
        forall|p: int|
            0 <= p < final(render).input_buffer@.len() && p % (final(render).ctx.block_size as int)
                >= packet.frames - offset ==> #[trigger] final(render).input_buffer@[p] == 0,
        forall|p: int|
            0 <= p < final(render).input_buffer@.len() && p % (final(render).ctx.block_size as int)
                < packet.frames - offset && !(final(render).ctx.input_channels == 1 && final(
                render).ctx.instances@[0].audio_inputs == 2) && p / (final(
                render).ctx.block_size as int) < packet.channels@.len() ==> #[trigger] final(
                render).input_buffer@[p] == packet.channels@[p / (final(
                render).ctx.block_size as int)]@[offset + p % (final(
                render).ctx.block_size as int)],
        forall|p: int|
            0 <= p < final(render).input_buffer@.len() && p % (final(render).ctx.block_size as int)
                < packet.frames - offset && final(render).ctx.input_channels == 1 && final(
                render).ctx.instances@[0].audio_inputs == 2 && packet.channels@.len() > 0
                ==> #[trigger] final(render).input_buffer@[p] == packet.channels@[0]@[offset + p
                % (final(render).ctx.block_size as int)],
{
    let block: usize = render.ctx.block_size;
    let left: usize = packet.frames - offset;
    let size: usize = if left <= block {
        left
    } else {
        block
    };
    let upmix = render.ctx.needs_upmix();
    let inputs: usize = render.ctx.instances[0].audio_inputs;
    let ghost before = RenderView {
        phase: PhaseView::Packet { packet: packet@, offset: offset as int },
        ..render@
    };
    assert forall|ch: int| 0 <= ch < packet.channels@.len() implies (
    #[trigger] packet.channels@[ch])@.len() == packet.frames by {
        assert(packet@.channels[ch] == packet.channels@[ch]@);
    }
    load_block(&mut render.input_buffer, &packet, offset, size, block, inputs, upmix);
    render.phase = Phase::Packet { packet, offset };
    render.finished = 0;
    assert(before.first_inputs() == inputs);
    assert(render@.rows =~= block_rows(before)) by {
        assert forall|ch: int| 0 <= ch < inputs implies #[trigger] render@.rows[ch] == block_rows(
            before,
        )[ch] by {
            assert(render@.rows[ch] == audio::row(render.input_buffer@, block as int, ch));
            assert(upmix ==> before.rows[0] == audio::row(
                old(render).input_buffer@,
                block as int,
                0,
            ));
        }
    }
}

/// Puts silence into the input buffer.
fn load_silence(render: &mut Render, remaining: usize)
    requires
        old(render).ctx.wf(),
        old(render).input_buffer@.len() == old(render).ctx.first_inputs()
            * old(render).ctx.block_size,
    ensures
        final(render).ctx == old(render).ctx,
        final(render).input_buffer@.len() == old(render).input_buffer@.len(),
        final(render).phase == (Phase::Draining { remaining }),
        final(render)@ == loaded(
            RenderView {
                phase: PhaseView::Draining { remaining: remaining as int },
                ..old(render)@
            },
        ),
        final(render).finished == 0,
        final(render).frames_processed == old(render).frames_processed,
        final(render).frames_decoded == old(render).frames_decoded,
        forall|p: int|
            0 <= p < final(render).input_buffer@.len()
                ==> #[trigger] final(render).input_buffer@[p] == 0,
{
    let ghost before = RenderView {
        phase: PhaseView::Draining { remaining: remaining as int },
        ..render@
    };
    silence_all(&mut render.input_buffer);
    render.phase = Phase::Draining { remaining };
    render.finished = 0;
    assert(render@.rows =~= block_rows(before)) by {
        let inputs = render.ctx.first_inputs() as int;
        let block = render.ctx.block_size as int;
        assert(before.first_inputs() == inputs);
        assert forall|ch: int| 0 <= ch < inputs implies #[trigger] render@.rows[ch] == block_rows(
            before,
        )[ch] by {
            audio::lemma_rows(block, inputs, ch);
            assert(render@.rows[ch] =~= audio::silence(block));
        }
    }
}

/// Takes in what came of the last action, and says what to do next.
///
/// For `RunChunk`, the input buffer holds the block that the first plugin gets.
pub fn process_audio(render: &mut Render, event: RenderEvent) -> (todo: RenderAction)
    requires
        old(render).wf(),
        can_follow(old(render)@, event@),
        event is ChunkDone ==> old(render).frames_processed + chunk(old(render)@) <= u64::MAX,
    ensures
        final(render).wf(),
        final(render).ctx == old(render).ctx,
        final(render)@ == next(old(render)@, event@),
        todo == action(final(render)@),
        event matches RenderEvent::Packet(packet) ==> if packet.frames > 0 {
            final(render).phase == (Phase::Packet { packet, offset: 0 })
        } else {
            final(render).phase is Reading
        },
        event is DecodeError ==> final(render).phase is Reading,
        event is EndOfInput ==> if old(render).ctx.drain_frames > 0 {
            final(render).phase == (Phase::Draining { remaining: old(render).ctx.drain_frames })
        } else {
            final(render).phase is Finished
        },
        event is ReadError || event is ChunkFailed ==> final(render).phase is Failed,
        event is ChunkDone ==> (old(render).phase matches Phase::Packet { packet, offset } ==> if (
        packet.frames - offset <= old(render).ctx.block_size) {
            &&& final(render).phase is Reading
            &&& final(render).frames_decoded == old(render).frames_decoded + packet.frames - offset
            &&& final(render).frames_processed == old(render).frames_processed + packet.frames
                - offset
        } else {
            &&& final(render).phase == (Phase::Packet {
                packet,
                offset: (offset + old(render).ctx.block_size) as usize,
            })
            &&& final(render).frames_decoded == old(render).frames_decoded + old(
                render,
            ).ctx.block_size
            &&& final(render).frames_processed == old(render).frames_processed + old(
                render,
            ).ctx.block_size
        }),
        event is ChunkDone ==> (old(render).phase matches Phase::Draining { remaining } ==> if (
        remaining <= old(render).ctx.block_size) {
            &&& final(render).phase is Finished
            &&& final(render).frames_processed == old(render).frames_processed + remaining
        } else {
            &&& final(render).phase == (Phase::Draining {
                remaining: (remaining - old(render).ctx.block_size) as usize,
            })
            &&& final(render).frames_processed == old(render).frames_processed + old(
                render,
            ).ctx.block_size
        }),
        event is ChunkDone && old(render).phase is Draining ==> final(render).frames_decoded
            == old(render).frames_decoded,
        event !is ChunkDone ==> final(render).frames_processed == old(render).frames_processed
            && final(render).frames_decoded == old(render).frames_decoded,
        final(render).phase !is Failed ==> final(render).finished == 0,
        final(render).input_buffer@.len() == old(render).input_buffer@.len(),
        final(render).phase is Draining ==> forall|p: int|
            0 <= p < final(render).input_buffer@.len()
                ==> #[trigger] final(render).input_buffer@[p] == 0,
        final(render).phase matches Phase::Packet { packet, offset } ==> forall|p: int|
            0 <= p < final(render).input_buffer@.len() && p % (final(render).ctx.block_size as int)
                >= packet.frames - offset ==> #[trigger] final(render).input_buffer@[p] == 0,
        final(render).phase matches Phase::Packet { packet, offset } ==> forall|p: int|
            0 <= p < final(render).input_buffer@.len() && p % (final(render).ctx.block_size as int)
                < packet.frames - offset && !(final(render).ctx.input_channels == 1 && final(
                render).ctx.instances@[0].audio_inputs == 2) && p / (final(
                render).ctx.block_size as int) < packet.channels@.len() ==> #[trigger] final(
                render).input_buffer@[p] == packet.channels@[p / (final(
                render).ctx.block_size as int)]@[offset + p % (final(
                render).ctx.block_size as int)],
        final(render).phase matches Phase::Packet { packet, offset } ==> forall|p: int|
            0 <= p < final(render).input_buffer@.len() && p % (final(render).ctx.block_size as int)
                < packet.frames - offset && final(render).ctx.input_channels == 1 && final(
                render).ctx.instances@[0].audio_inputs == 2 && packet.channels@.len() > 0
                ==> #[trigger] final(render).input_buffer@[p] == packet.channels@[0]@[offset + p
                % (final(render).ctx.block_size as int)],
        final(render).phase is Reading ==> todo == RenderAction::ReadPacket,
        final(render).phase is Finished ==> todo == RenderAction::Finish,
        final(render).phase is Failed ==> todo == RenderAction::Fail,
        final(render).phase matches Phase::Packet { packet, offset } ==> (
        todo matches RenderAction::RunChunk(size) && size <= packet.frames - offset && size
            <= final(render).ctx.block_size && (size == packet.frames - offset || size == final(
            render).ctx.block_size)),
        final(render).phase matches Phase::Draining { remaining } ==> (
        todo matches RenderAction::RunChunk(size) && size <= remaining && size <= final(
            render).ctx.block_size && (size == remaining || size == final(
            render).ctx.block_size)),
{
    match event {
        RenderEvent::Packet(packet) => {
            if packet.frames > 0 {
                load_packet(render, packet, 0);
                RenderAction::RunChunk(render.chunk_size())
            } else {
                RenderAction::ReadPacket
            }
        },
        RenderEvent::DecodeError => RenderAction::ReadPacket,
        RenderEvent::EndOfInput => {
            let remaining: usize = render.ctx.drain_frames;
            if remaining > 0 {
                load_silence(render, remaining);
                RenderAction::RunChunk(render.chunk_size())
            } else {
                render.phase = Phase::Finished;
                RenderAction::Finish
            }
        },
        RenderEvent::ReadError => {
            render.phase = Phase::Failed;
            RenderAction::Fail
        },
        RenderEvent::ChunkFailed => {
            render.phase = Phase::Failed;
            RenderAction::Fail
        },
        RenderEvent::ChunkDone => {
            let size: usize = render.chunk_size();
            let mut phase = Phase::Reading;
            std::mem::swap(&mut phase, &mut render.phase);
            render.finished = 0;
            render.frames_processed = render.frames_processed + size as u64;
            match phase {
                Phase::Packet { packet, offset } => {
                    render.frames_decoded = render.frames_decoded + size as u64;
                    if offset + size < packet.frames {
                        load_packet(render, packet, offset + size);
                        RenderAction::RunChunk(render.chunk_size())
                    } else {
                        RenderAction::ReadPacket
                    }
                },
                Phase::Draining { remaining } => {
                    if size < remaining {
                        load_silence(render, remaining - size);
                        RenderAction::RunChunk(render.chunk_size())
                    } else {
                        render.phase = Phase::Finished;
                        RenderAction::Finish
                    }
                },
                other => {
                    render.phase = other;
                    RenderAction::Fail
                },
            }
        },
    }
}

/// One sample of each channel.
pub open spec fn frame(channels: Seq<Seq<u32>>, i: int) -> Seq<u32> {
    Seq::new(channels.len(), |ch: int| channels[ch][i])
}

/// The first `frames` frames, one behind the other.
pub open spec fn interleaved(channels: Seq<Seq<u32>>, frames: int) -> Seq<u32>
    decreases frames,
{
    if frames <= 0 {
        Seq::empty()
    } else {
        interleaved(channels, frames - 1) + frame(channels, frames - 1)
    }
}

/// Puts the first `frames` frames one behind the other.
pub fn interleave(channels: &Vec<Vec<u32>>, frames: usize) -> (samples: Vec<u32>)
    requires
        forall|ch: int|
            0 <= ch < channels@.len() ==> (#[trigger] channels@[ch])@.len() >= frames,
    ensures
        samples@ == interleaved(audio::planes(channels@), frames as int),
        samples@.len() == frames * channels@.len(),
        forall|i: int, ch: int|
            0 <= i < frames && 0 <= ch < channels@.len() ==> samples@[i * channels@.len() + ch]
                == #[trigger] channels@[ch]@[i],
{
    let ghost planes = audio::planes(channels@);
    let mut samples: Vec<u32> = Vec::new();
    assert(samples@ =~= interleaved(planes, 0));
    for i in 0..frames
        invariant
            planes == audio::planes(channels@),
            forall|ch: int|
                0 <= ch < channels@.len() ==> (#[trigger] channels@[ch])@.len() >= frames,
            samples@ == interleaved(planes, i as int),
    {
        let ghost before = samples@;
        assert(before =~= before + frame(planes, i as int).take(0));
        for ch in 0..channels.len()
            invariant
                i < frames,
                planes == audio::planes(channels@),
                forall|c: int|
                    0 <= c < channels@.len() ==> (#[trigger] channels@[c])@.len() >= frames,
                samples@ == before + frame(planes, i as int).take(ch as int),
        {
            samples.push(channels[ch][i]);
            assert(samples@ =~= before + frame(planes, i as int).take(ch + 1));
        }
        assert(frame(planes, i as int).take(channels@.len() as int) =~= frame(planes, i as int));
        assert(samples@ =~= interleaved(planes, i + 1));
    }
    proof {
        laws::law_interleaved(planes, frames as nat);
        assert forall|i: int, ch: int| 0 <= i < frames && 0 <= ch < channels@.len() implies samples@[
        i * channels@.len() + ch] == #[trigger] channels@[ch]@[i] by {
            assert(planes[ch][i] == channels@[ch]@[i]);
        }
    }
    samples
}

/// What a `ChunkAction` holds.
pub enum ChunkActionView {
    RunPlugin { stage: int, inputs: Seq<Seq<u32>> },
    Write(Seq<u32>),
}

/// What to do next to send a block through the chain.
#[derive(Debug)]
pub enum ChunkAction {
    /// Run the plugin with this number on one block, with these samples at its audio inputs.
    RunPlugin { stage: usize, inputs: Vec<Vec<u32>> },
    /// Write these samples.
    Write(Vec<u32>),
}

impl View for ChunkAction {
    type V = ChunkActionView;

    open spec fn view(&self) -> ChunkActionView {
        match self {
            ChunkAction::RunPlugin { stage, inputs } => ChunkActionView::RunPlugin {
                stage: *stage as int,
                inputs: audio::planes(inputs@),
            },
            ChunkAction::Write(samples) => ChunkActionView::Write(samples@),
        }
    }
}

/// What the plugin with number `stage` gets: the first one the input buffer, every other one
/// what the plugin before it gave.
pub open spec fn stage_inputs(v: RenderView, stage: int) -> Seq<Seq<u32>> {
    if stage == 0 {
        v.rows
    } else {
        v.instances[stage - 1].audio_outputs
    }
}

/// The samples to write for a block: the frames that count, of what the last plugin gave.
pub open spec fn block_samples(v: RenderView) -> Seq<u32> {
    interleaved(v.instances.last().audio_outputs, chunk(v))
}

/// What is to be done with a block: run the next plugin, or write what the last one gave.
pub open spec fn chunk_action(v: RenderView) -> ChunkActionView {
    if v.finished < v.instances.len() {
        ChunkActionView::RunPlugin { stage: v.finished, inputs: stage_inputs(v, v.finished) }
    } else {
        ChunkActionView::Write(block_samples(v))
    }
}

/// Copies the rows of a planar buffer.
fn split_rows(buffer: &Vec<u32>, stride: usize, count: usize) -> (list: Vec<Vec<u32>>)
    requires
        buffer@.len() == count * stride,
    ensures
        audio::planes(list@) == audio::rows(buffer@, stride as int, count as int),
        list@.len() == count,
        forall|ch: int| 0 <= ch < count ==> (#[trigger] list@[ch])@.len() == stride,
        forall|ch: int, i: int|
            0 <= ch < count && 0 <= i < stride ==> #[trigger] list@[ch]@[i] == buffer@[ch * stride
                + i],
{
    let mut list: Vec<Vec<u32>> = Vec::new();
    let length: usize = buffer.len();
    for ch in 0..count
        invariant
            length == buffer@.len() == count * stride,
            list@.len() == ch,
            forall|c: int|
                0 <= c < ch ==> (#[trigger] list@[c])@ == audio::row(buffer@, stride as int, c),
            forall|c: int| 0 <= c < ch ==> (#[trigger] list@[c])@.len() == stride,
            forall|c: int, i: int|
                0 <= c < ch && 0 <= i < stride ==> #[trigger] list@[c]@[i] == buffer@[c * stride
                    + i],
    {
        proof {
            audio::lemma_rows(stride as int, count as int, ch as int);
        }
        let start: usize = ch * stride;
        let mut samples: Vec<u32> = Vec::new();
        for i in 0..stride
            invariant
                start + stride <= length == buffer@.len(),
                samples@ == buffer@.subrange(start as int, start + i),
        {
            samples.push(buffer[start + i]);
            assert(samples@ =~= buffer@.subrange(start as int, start + i + 1));
        }
        list.push(samples);
    }
    assert(audio::planes(list@) =~= audio::rows(buffer@, stride as int, count as int));
    list
}

/// Copies samples.
fn copy_samples(source: &Vec<u32>) -> (samples: Vec<u32>)
    ensures
        samples@ == source@,
{
    let mut samples: Vec<u32> = Vec::new();
    for i in 0..source.len()
        invariant
            samples@ == source@.take(i as int),
    {
        samples.push(source[i]);
        assert(samples@ =~= source@.take(i + 1));
    }
    assert(source@.take(source@.len() as int) =~= source@);
    samples
}

/// Says what to do next to send the block in the input buffer through the chain: run the next
/// plugin, or write what the last one gave.
pub fn process_chunk(render: &Render) -> (todo: ChunkAction)
    requires
        render.wf(),
        render@.in_block(),
    ensures
        todo@ == chunk_action(render@),
        todo is RunPlugin <==> render.finished < render.ctx.instances@.len(),
        todo matches ChunkAction::RunPlugin { stage, inputs } ==> stage == render.finished,
        todo matches ChunkAction::RunPlugin { stage, inputs } ==> stage == 0 ==> {
            &&& inputs@.len() == render.ctx.instances@[0].audio_inputs
            &&& forall|ch: int|
                0 <= ch < inputs@.len() ==> (#[trigger] inputs@[ch])@.len()
                    == render.ctx.block_size
            &&& forall|ch: int, i: int|
                0 <= ch < inputs@.len() && 0 <= i < render.ctx.block_size
                    ==> #[trigger] inputs@[ch]@[i] == render.input_buffer@[ch
                    * render.ctx.block_size + i]
        },
        todo matches ChunkAction::RunPlugin { stage, inputs } ==> stage > 0 ==> {
            &&& inputs@.len() == render.ctx.instances@[stage - 1].audio_outputs@.len()
            &&& forall|ch: int|
                0 <= ch < inputs@.len() ==> (#[trigger] inputs@[ch])@
                    == render.ctx.instances@[stage - 1].audio_outputs@[ch]@
        },
        todo matches ChunkAction::Write(samples) ==> {
            let outputs = render.ctx.instances@[render.ctx.instances@.len() - 1].audio_outputs@;
            &&& samples@.len() == chunk(render@) * outputs.len()
            &&& forall|i: int, ch: int|
                0 <= i < chunk(render@) && 0 <= ch < outputs.len() ==> samples@[i * outputs.len()
                    + ch] == #[trigger] outputs[ch]@[i]
        },
{
    let count: usize = render.ctx.instances.len();
    let finished: usize = render.finished;
    if finished == count {
        assert(render@.instances.last() == render.ctx.instances@[count - 1]@);
        ChunkAction::Write(
            interleave(&render.ctx.instances[count - 1].audio_outputs, render.chunk_size()),
        )
    } else if finished == 0 {
        let inputs = split_rows(
            &render.input_buffer,
            render.ctx.block_size,
            render.ctx.instances[0].audio_inputs,
        );
        ChunkAction::RunPlugin { stage: 0, inputs }
    } else {
        let outputs = &render.ctx.instances[finished - 1].audio_outputs;
        let mut inputs: Vec<Vec<u32>> = Vec::new();
        for ch in 0..outputs.len()
            invariant
                inputs@.len() == ch,
                forall|c: int| 0 <= c < ch ==> (#[trigger] inputs@[c])@ == outputs@[c]@,
        {
            inputs.push(copy_samples(&outputs[ch]));
        }
        assert(audio::planes(inputs@) =~= audio::planes(outputs@));
        assert(render@.instances[finished - 1] == render.ctx.instances@[finished - 1]@);
        ChunkAction::RunPlugin { stage: finished, inputs }
    }
}

/// Takes in what the next plugin gave for a block: as many control outputs and as many
/// channels as it has, one block of each channel.
pub fn store_outputs(
    render: &mut Render,
    control_outputs: Vec<u32>,
    audio_outputs: Vec<Vec<u32>>,
)
    requires
        old(render).wf(),
        can_follow(
            old(render)@,
            (EventView::PluginDone {
                control_outputs: control_outputs@,
                audio_outputs: audio::planes(audio_outputs@),
            }),
        ),
    ensures
        final(render).wf(),
        final(render)@ == next(
            old(render)@,
            (EventView::PluginDone {
                control_outputs: control_outputs@,
                audio_outputs: audio::planes(audio_outputs@),
            }),
        ),
        final(render).phase == old(render).phase,
        final(render).input_buffer == old(render).input_buffer,
        final(render).frames_processed == old(render).frames_processed,
        final(render).frames_decoded == old(render).frames_decoded,
        final(render).finished == old(render).finished + 1,
        final(render).ctx.block_size == old(render).ctx.block_size,
        final(render).ctx.input_channels == old(render).ctx.input_channels,
        final(render).ctx.drain_frames == old(render).ctx.drain_frames,
        final(render).ctx.instances@ == old(render).ctx.instances@.update(
            old(render).finished as int,
            PluginInstance {
                control_outputs,
                audio_outputs,
                ..old(render).ctx.instances@[old(render).finished as int]
            },
        ),
{
    let stage: usize = render.finished;
    let count: usize = render.ctx.instances.len();
    assert(stage < count);
    let ghost planes = audio::planes(audio_outputs@);
    let ghost before = render.ctx.instances@[stage as int];
    let ghost instances = render.ctx.instances@;
    proof {
        assert forall|ch: int| 0 <= ch < audio_outputs@.len() implies (
        #[trigger] audio_outputs@[ch])@.len() == render.ctx.block_size by {
            assert(planes[ch] == audio_outputs@[ch]@);
        }
    }
    render.ctx.instances[stage].control_outputs = control_outputs;
    render.ctx.instances[stage].audio_outputs = audio_outputs;
    render.finished = stage + 1;
    assert(render.ctx.instances@ =~= instances.update(
        stage as int,
        PluginInstance { control_outputs, audio_outputs, ..before },
    ));
    assert(render@.instances =~= old(render)@.instances.update(
        stage as int,
        plugin::InstanceView {
            control_outputs: control_outputs@,
            audio_outputs: planes,
            ..old(render)@.instances[stage as int]
        },
    ));
    assert(render.ctx.first_inputs() == old(render).ctx.first_inputs());
}

} // verus!
