//! What the plugins get, and what is written of what they give.
use vstd::prelude::*;

use super::{law_all_frames_rendered, law_interleaved};
use crate::audio;
use crate::plugin;
use crate::processing;

verus! {

/// What a render holds.
pub proof fn law_render_view(render: processing::Render)
    requires
        render.wf(),
    ensures
        render@.block == render.ctx.block_size,
        render@.input_channels == render.ctx.input_channels,
        render@.drain == render.ctx.drain_frames,
        render@.finished == render.finished,
        render@.processed == render.frames_processed,
        render@.decoded == render.frames_decoded,
        render@.phase == render.phase@,
        render@.instances.len() == render.ctx.instances@.len(),
        forall|i: int|
            0 <= i < render.ctx.instances@.len() ==> {
                let (view, instance) = (
                    #[trigger] render@.instances[i],
                    render.ctx.instances@[i],
                );
                &&& view.audio_inputs == instance.audio_inputs
                &&& view.control_inputs == instance.control_inputs@
                &&& view.control_outputs == instance.control_outputs@
                &&& view.audio_outputs.len() == instance.audio_outputs@.len()
                &&& forall|ch: int|
                    0 <= ch < instance.audio_outputs@.len() ==> #[trigger] view.audio_outputs[ch]
                        == instance.audio_outputs@[ch]@
            },
        render@.rows.len() == render.ctx.instances@[0].audio_inputs,
        forall|ch: int|
            0 <= ch < render@.rows.len() ==> (#[trigger] render@.rows[ch]).len()
                == render.ctx.block_size,
        forall|ch: int, i: int|
            0 <= ch < render@.rows.len() && 0 <= i < render.ctx.block_size
                ==> #[trigger] render@.rows[ch][i] == render.input_buffer@[ch
                * render.ctx.block_size + i],
{
    assert forall|ch: int| 0 <= ch < render@.rows.len() implies (#[trigger] render@.rows[ch]).len()
        == render.ctx.block_size && forall|i: int|
        0 <= i < render.ctx.block_size ==> #[trigger] render@.rows[ch][i] == render.input_buffer@[
        ch * render.ctx.block_size + i] by {
        audio::lemma_rows(
            render.ctx.block_size as int,
            render.ctx.first_inputs() as int,
            ch,
        );
    }
}

/// What a phase holds.
pub proof fn law_phase_view(phase: processing::Phase)
    ensures
        phase is Reading <==> phase@ is Reading,
        phase is Finished <==> phase@ is Finished,
        phase is Failed <==> phase@ is Failed,
        phase matches processing::Phase::Draining { remaining } ==> phase@ == (
        processing::PhaseView::Draining { remaining: remaining as int }),
        phase matches processing::Phase::Packet { packet, offset } ==> phase@ == (
        processing::PhaseView::Packet { packet: packet@, offset: offset as int }),
{
}

/// What a packet holds: the samples of each channel, in order.
pub proof fn law_packet_view(packet: audio::DecodedAudio)
    ensures
        packet@.frames == packet.frames,
        packet@.singles == packet.singles,
        packet@.channels.len() == packet.channels@.len(),
        forall|ch: int|
            0 <= ch < packet.channels@.len() ==> #[trigger] packet@.channels[ch]
                == packet.channels@[ch]@,
        packet@.wf() <==> packet.wf(),
{
    if packet@.wf() {
        assert forall|ch: int| 0 <= ch < packet.channels@.len() implies (
        #[trigger] packet.channels@[ch])@.len() == packet.frames by {
            assert(packet@.channels[ch] == packet.channels@[ch]@);
        }
    }
}

/// A block has as many frames as fit into it, or as many as are left, whichever is less.
pub proof fn law_chunk(v: processing::RenderView)
    requires
        processing::render_inv(v),
    ensures
        v.phase matches processing::PhaseView::Packet { packet, offset } ==> {
            &&& 0 < processing::chunk(v) <= v.block
            &&& processing::chunk(v) <= packet.frames - offset
            &&& processing::chunk(v) == v.block || processing::chunk(v) == packet.frames - offset
        },
        v.phase matches processing::PhaseView::Draining { remaining } ==> {
            &&& 0 < processing::chunk(v) <= v.block
            &&& processing::chunk(v) <= remaining
            &&& processing::chunk(v) == v.block || processing::chunk(v) == remaining
        },
{
}

/// The samples written for a block are those of the last plugin of the chain: for each frame
/// of the block one sample of each channel that this plugin gives.
pub proof fn law_last_plugin_is_written(v: processing::RenderView)
    requires
        processing::render_inv(v),
    ensures
        processing::block_samples(v).len() == processing::chunk(v) * v.instances[v.instances.len()
            - 1].audio_outputs.len(),
        forall|i: int, ch: int|
            0 <= i < processing::chunk(v) && 0 <= ch < v.instances[v.instances.len()
                - 1].audio_outputs.len() ==> processing::block_samples(v)[i
                * v.instances[v.instances.len() - 1].audio_outputs.len() + ch]
                == #[trigger] v.instances[v.instances.len() - 1].audio_outputs[ch][i],
{
    let n = processing::chunk(v);
    law_interleaved(v.instances[v.instances.len() - 1].audio_outputs, n as nat);
}

/// What a finished block adds to the output is what the plugin that ran last gave for it,
/// frame by frame; and that was the last plugin of the chain.
pub proof fn law_block_is_written(
    v: processing::RenderView,
    events: Seq<processing::EventView>,
)
    requires
        processing::fresh(v),
        super::in_order(v, events),
        events.len() > 0,
        events.last() is ChunkDone,
    ensures
        events.len() > 1,
        events[events.len() - 2] matches processing::EventView::PluginDone { audio_outputs, .. }
            && {
            let u = super::run(v, events.drop_last());
            let before = super::written(v, events.drop_last());
            let after = super::written(v, events);
            let width = audio_outputs.len();
            &&& u.finished == v.instances.len()
            &&& after.len() == before.len() + processing::chunk(u) * width
            &&& after.take(before.len() as int) == before
            &&& forall|i: int, ch: int|
                0 <= i < processing::chunk(u) && 0 <= ch < width ==> after[before.len() + i * width
                    + ch] == #[trigger] audio_outputs[ch][i]
        },
{
    reveal_with_fuel(super::in_order, 3);
    reveal_with_fuel(super::run, 3);
    let init = events.drop_last();
    let u = super::run(v, init);
    super::law_each_plugin_runs_once(v, init, 0);
    assert(u.in_block() && u.finished == u.instances.len());
    assert(init.len() > 0);
    let first = init.drop_last();
    let w = super::run(v, first);
    super::law_each_plugin_runs_once(v, first, 0);
    assert(init.last() == events[events.len() - 2]);
    assert(init.last() is PluginDone);
    let outputs = init.last()->audio_outputs;
    assert(u.instances[u.instances.len() - 1].audio_outputs == outputs);
    law_last_plugin_is_written(u);
    let before = super::written(v, init);
    let after = super::written(v, events);
    let samples = processing::block_samples(u);
    let width = outputs.len();
    assert(after == before + samples);
    assert(after.take(before.len() as int) =~= before);
    assert forall|i: int, ch: int| 0 <= i < processing::chunk(u) && 0 <= ch < width implies after[
    before.len() + i * width + ch] == #[trigger] outputs[ch][i] by {
        let n = processing::chunk(u);
        assert(0 <= i * width) by (nonlinear_arith)
            requires
                0 <= i,
                0 <= width,
        ;
        assert(i * width + width <= n * width) by (nonlinear_arith)
            requires
                i + 1 <= n,
                0 <= width,
        ;
        assert(samples[i * width + ch] == outputs[ch][i]);
    }
}

/// Running a plugin changes what that plugin gave, and nothing else; the next one is next.
pub proof fn law_plugin_step(
    v: processing::RenderView,
    control_outputs: Seq<u32>,
    audio_outputs: Seq<Seq<u32>>,
)
    requires
        processing::can_follow(
            v,
            (processing::EventView::PluginDone { control_outputs, audio_outputs }),
        ),
    ensures
        ({
            let after = processing::next(
                v,
                (processing::EventView::PluginDone { control_outputs, audio_outputs }),
            );
            &&& after.finished == v.finished + 1
            &&& after.instances.len() == v.instances.len()
            &&& after.instances[v.finished].audio_outputs == audio_outputs
            &&& after.instances[v.finished].control_outputs == control_outputs
            &&& after.instances[v.finished].control_inputs
                == v.instances[v.finished].control_inputs
            &&& after.instances[v.finished].audio_inputs == v.instances[v.finished].audio_inputs
            &&& forall|i: int|
                0 <= i < v.instances.len() && i != v.finished ==> #[trigger] after.instances[i]
                    == v.instances[i]
            &&& after.rows == v.rows
            &&& after.phase == v.phase
            &&& after.block == v.block
            &&& after.drain == v.drain
            &&& after.input_channels == v.input_channels
            &&& after.processed == v.processed
            &&& after.decoded == v.decoded
        }),
{
}

/// Only running a plugin changes what the plugins hold.
pub proof fn law_plugins_stay(v: processing::RenderView, event: processing::EventView)
    requires
        processing::can_follow(v, event),
        event !is PluginDone,
    ensures
        processing::next(v, event).instances == v.instances,
        processing::next(v, event).block == v.block,
        processing::next(v, event).drain == v.drain,
        processing::next(v, event).input_channels == v.input_channels,
{
}

/// The first plugin gets the block; every other one gets what the plugin before it gave.
pub proof fn law_stage_inputs(v: processing::RenderView, stage: int)
    ensures
        processing::stage_inputs(v, 0) == v.rows,
        stage > 0 ==> processing::stage_inputs(v, stage) == v.instances[stage - 1].audio_outputs,
{
}

/// What is to be done with a block: the plugins run one after the other, and when all have
/// run the samples are written.
pub proof fn law_chunk_action(v: processing::RenderView)
    ensures
        v.finished < v.instances.len() ==> processing::chunk_action(v) == (
        processing::ChunkActionView::RunPlugin {
            stage: v.finished,
            inputs: processing::stage_inputs(v, v.finished),
        }),
        v.finished >= v.instances.len() ==> processing::chunk_action(v)
            == processing::ChunkActionView::Write(processing::block_samples(v)),
{
}

/// The channel of the input that goes to input `ch` of the first plugin.
pub open spec fn source_channel(v: processing::RenderView, ch: int) -> int {
    if v.input_channels == 1 && v.instances[0].audio_inputs == 2 {
        0
    } else {
        ch
    }
}

/// What the first plugin gets. While a packet is rendered: the next frames of the packet,
/// channel by channel, and silence behind its end; a mono input goes to both inputs of a
/// stereo plugin. After the input has ended: silence only, in every block, of whatever size.
pub proof fn law_first_plugin_gets(
    v: processing::RenderView,
    events: Seq<processing::EventView>,
)
    requires
        processing::fresh(v),
        super::shaped(v),
        super::in_order(v, events),
    ensures
        processing::stage_inputs(super::run(v, events), 0).len() == v.instances[0].audio_inputs,
        forall|ch: int|
            0 <= ch < v.instances[0].audio_inputs ==> (#[trigger] processing::stage_inputs(
                super::run(v, events),
                0,
            )[ch]).len() == v.block,
        super::run(v, events).phase is Draining ==> forall|ch: int, i: int|
            0 <= ch < v.instances[0].audio_inputs && 0 <= i < v.block
                ==> #[trigger] processing::stage_inputs(super::run(v, events), 0)[ch][i] == 0,
        super::run(v, events).phase matches processing::PhaseView::Packet { packet, offset }
            ==> forall|ch: int, i: int|
            0 <= ch < v.instances[0].audio_inputs && 0 <= i < v.block && i >= packet.frames - offset
                ==> #[trigger] processing::stage_inputs(super::run(v, events), 0)[ch][i] == 0,
        super::run(v, events).phase matches processing::PhaseView::Packet { packet, offset }
            ==> forall|ch: int, i: int|
            0 <= ch < v.instances[0].audio_inputs && 0 <= i < v.block && i < packet.frames - offset
                && source_channel(v, ch) < packet.channels.len()
                ==> #[trigger] processing::stage_inputs(super::run(v, events), 0)[ch][i]
                == packet.channels[source_channel(v, ch)][offset + i],
    decreases events.len(),
{
    super::law_setup_stays(v, events);
    if events.len() > 0 {
        let init = events.drop_last();
        let u = super::run(v, init);
        let w = super::run(v, events);
        let event = events.last();
        law_first_plugin_gets(v, init);
        super::law_setup_stays(v, init);
        assert(u.instances[0].audio_inputs == v.instances[0].audio_inputs);
        assert(w.instances[0].audio_inputs == v.instances[0].audio_inputs);
        assert(processing::stage_inputs(w, 0) == w.rows);
        assert(processing::stage_inputs(u, 0) == u.rows);
        if event is PluginDone || event is DecodeError {
            assert(w.rows == u.rows);
        } else {
            assert forall|ch: int, i: int|
                w.phase is Draining && 0 <= ch < v.instances[0].audio_inputs && 0 <= i
                    < v.block implies #[trigger] w.rows[ch][i] == 0 by {}
            if let processing::PhaseView::Packet { packet, offset } = w.phase {
                assert forall|ch: int, i: int|
                    0 <= ch < v.instances[0].audio_inputs && 0 <= i < v.block implies (i
                    >= packet.frames - offset ==> #[trigger] w.rows[ch][i] == 0) && (i
                    < packet.frames - offset && source_channel(v, ch) < packet.channels.len()
                    ==> w.rows[ch][i] == packet.channels[source_channel(v, ch)][offset + i]) by {
                    let from = source_channel(v, ch);
                    assert(u.rows[from].len() == v.block);
                    if from < packet.channels.len() {
                        assert(packet.channels[from].len() == packet.frames);
                    }
                }
            }
        }
    }
}

/// After the input has ended the first plugin gets only silence.
pub proof fn law_tail_is_silence(
    v: processing::RenderView,
    events: Seq<processing::EventView>,
)
    requires
        processing::fresh(v),
        super::shaped(v),
        super::in_order(v, events),
        super::run(v, events).phase is Draining,
    ensures
        super::run(v, events).rows.len() == v.instances[0].audio_inputs,
        forall|ch: int, i: int|
            0 <= ch < v.instances[0].audio_inputs && 0 <= i < v.block ==> #[trigger] super::run(
                v,
                events,
            ).rows[ch][i] == 0,
{
    law_first_plugin_gets(v, events);
    let w = super::run(v, events);
    assert(processing::stage_inputs(w, 0) == w.rows);
    assert forall|ch: int, i: int|
        0 <= ch < v.instances[0].audio_inputs && 0 <= i < v.block implies #[trigger] w.rows[ch][i]
        == 0 by {
        assert(processing::stage_inputs(w, 0)[ch][i] == 0);
    }
}

/// The samples of a channel of the input, packet by packet.
pub open spec fn input_channel(events: Seq<processing::EventView>, ch: int) -> Seq<u32>
    decreases events.len(),
{
    if events.len() == 0 {
        Seq::empty()
    } else {
        let before = input_channel(events.drop_last(), ch);
        match events.last() {
            processing::EventView::Packet(packet) => before + packet.channels[ch],
            _ => before,
        }
    }
}

/// The frames that count of what input `ch` of the first plugin got, block by block.
pub open spec fn got(
    v: processing::RenderView,
    events: Seq<processing::EventView>,
    ch: int,
) -> Seq<u32>
    decreases events.len(),
{
    if events.len() == 0 {
        Seq::empty()
    } else {
        let before = got(v, events.drop_last(), ch);
        let u = super::run(v, events.drop_last());
        if events.last() is ChunkDone {
            before + processing::stage_inputs(u, 0)[ch].take(processing::chunk(u))
        } else {
            before
        }
    }
}

/// Every packet has the channel `ch`.
pub open spec fn all_have_channel(events: Seq<processing::EventView>, ch: int) -> bool {
    forall|i: int|
        0 <= i < events.len() ==> ((#[trigger] events[i]) matches processing::EventView::Packet(
            packet,
        ) ==> ch < packet.channels.len())
}

/// The first plugin gets the input, sample by sample and in order, and then the silence: block
/// by block, the frames that count are the samples of the channel that have been decoded, and
/// zeros behind them.
pub proof fn law_input_arrives(
    v: processing::RenderView,
    events: Seq<processing::EventView>,
    ch: int,
)
    requires
        processing::fresh(v),
        super::shaped(v),
        super::in_order(v, events),
        0 <= ch < v.instances[0].audio_inputs,
        all_have_channel(events, source_channel(v, ch)),
        super::run(v, events).phase !is Failed,
    ensures
        super::run(v, events).decoded <= input_channel(events, source_channel(v, ch)).len(),
        got(v, events, ch).len() == super::run(v, events).processed,
        forall|k: int|
            0 <= k < super::run(v, events).decoded ==> #[trigger] got(v, events, ch)[k]
                == input_channel(events, source_channel(v, ch))[k],
        forall|k: int|
            super::run(v, events).decoded <= k < super::run(v, events).processed
                ==> #[trigger] got(v, events, ch)[k] == 0,
        super::run(v, events).phase is Finished ==> super::run(v, events).decoded == input_channel(
            events,
            source_channel(v, ch),
        ).len() && super::run(v, events).processed == super::run(v, events).decoded + v.drain,
{
    lemma_input_arrives(v, events, ch);
    law_all_frames_rendered(v, events);
}

proof fn lemma_input_arrives(
    v: processing::RenderView,
    events: Seq<processing::EventView>,
    ch: int,
)
    requires
        processing::fresh(v),
        super::shaped(v),
        super::in_order(v, events),
        0 <= ch < v.instances[0].audio_inputs,
        all_have_channel(events, source_channel(v, ch)),
        super::run(v, events).phase !is Failed,
    ensures
        input_channel(events, source_channel(v, ch)).len() == super::frames_read(events),
        super::run(v, events).phase matches processing::PhaseView::Packet { packet, offset }
            ==> source_channel(v, ch) < packet.channels.len() && forall|i: int|
            0 <= i < packet.frames ==> packet.channels[source_channel(v, ch)][i] == input_channel(
                events,
                source_channel(v, ch),
            )[#[trigger] (super::run(v, events).decoded - offset + i)],
        got(v, events, ch).len() == super::run(v, events).processed,
        forall|k: int|
            0 <= k < super::run(v, events).decoded ==> #[trigger] got(v, events, ch)[k]
                == input_channel(events, source_channel(v, ch))[k],
        forall|k: int|
            super::run(v, events).decoded <= k < super::run(v, events).processed
                ==> #[trigger] got(v, events, ch)[k] == 0,
    decreases events.len(),
{
    if events.len() > 0 {
        let init = events.drop_last();
        let from = source_channel(v, ch);
        let u = super::run(v, init);
        let w = super::run(v, events);
        let event = events.last();
        assert(event == events[events.len() - 1]);
        assert forall|i: int| 0 <= i < init.len() implies (
        (#[trigger] init[i]) matches processing::EventView::Packet(packet) ==> from
            < packet.channels.len()) by {
            assert(init[i] == events[i]);
        }
        law_all_frames_rendered(v, init);
        law_all_frames_rendered(v, events);
        lemma_input_arrives(v, init, ch);
        law_first_plugin_gets(v, init);
        let before = input_channel(init, from);
        let after = input_channel(events, from);
        let old_got = got(v, init, ch);
        let new_got = got(v, events, ch);
        if let processing::EventView::Packet(packet) = event {
            assert(packet.channels[from].len() == packet.frames);
            assert(u.decoded == before.len());
            assert(after == before + packet.channels[from]);
            if packet.frames > 0 {
                assert forall|i: int| 0 <= i < packet.frames implies packet.channels[from][i]
                    == after[#[trigger] (w.decoded - 0 + i)] by {}
            }
        } else {
            assert(after == before);
            if event is ChunkDone {
                let n = processing::chunk(u);
                let block = processing::stage_inputs(u, 0)[ch];
                assert(block.len() == v.block);
                assert(new_got == old_got + block.take(n));
                assert(old_got.len() == u.processed);
                if let processing::PhaseView::Packet { packet, offset } = u.phase {
                    assert(u.processed == u.decoded);
                    assert forall|k: int| 0 <= k < w.decoded implies #[trigger] new_got[k]
                        == after[k] by {
                        if k >= u.decoded {
                            let i = k - u.decoded;
                            assert(block[i] == packet.channels[from][offset + i]);
                            assert(packet.channels[from][offset + i] == before[u.decoded - offset
                                + (offset + i)]);
                        } else {
                            assert(new_got[k] == old_got[k]);
                        }
                    }
                    if w.phase is Packet {
                        assert forall|i: int| 0 <= i < packet.frames implies packet.channels[from][i]
                            == after[#[trigger] (w.decoded - (offset + n) + i)] by {
                            assert(before[u.decoded - offset + i] == packet.channels[from][i]);
                        }
                    }
                } else {
                    assert forall|k: int| w.decoded <= k < w.processed implies #[trigger] new_got[k]
                        == 0 by {
                        if k >= u.processed {
                            assert(block[k - u.processed] == 0);
                        } else {
                            assert(new_got[k] == old_got[k]);
                        }
                    }
                    assert forall|k: int| 0 <= k < w.decoded implies #[trigger] new_got[k]
                        == after[k] by {
                        assert(new_got[k] == old_got[k]);
                    }
                }
            } else {
                assert(new_got == old_got);
            }
        }
    }
}

/// Silence is zeros.
pub proof fn law_silence(n: int)
    requires
        n >= 0,
    ensures
        audio::silence(n).len() == n,
        forall|i: int| 0 <= i < n ==> #[trigger] audio::silence(n)[i] == 0,
{
}

/// The bits of a mask are counted one by one.
pub proof fn law_set_bits(rest: nat)
    ensures
        audio::set_bits(0) == 0,
        audio::set_bits(2 * rest) == audio::set_bits(rest),
        audio::set_bits(2 * rest + 1) == audio::set_bits(rest) + 1,
{
    assert((2 * rest) / 2 == rest && (2 * rest) % 2 == 0);
    assert((2 * rest + 1) / 2 == rest && (2 * rest + 1) % 2 == 1);
}

/// What a plugin in the chain holds.
pub proof fn law_instance_view(instance: plugin::PluginInstance)
    ensures
        instance@.audio_inputs == instance.audio_inputs,
        instance@.control_inputs == instance.control_inputs@,
        instance@.control_outputs == instance.control_outputs@,
        instance@.audio_outputs.len() == instance.audio_outputs@.len(),
        forall|ch: int|
            0 <= ch < instance.audio_outputs@.len() ==> #[trigger] instance@.audio_outputs[ch]
                == instance.audio_outputs@[ch]@,
{
}

/// What came of an action, and what is to be done with a block, hold what they are made of.
pub proof fn law_action_views(event: processing::RenderEvent, action: processing::ChunkAction)
    ensures
        event matches processing::RenderEvent::Packet(packet) ==> event@
            == processing::EventView::Packet(packet@),
        event is DecodeError <==> event@ is DecodeError,
        event is EndOfInput <==> event@ is EndOfInput,
        event is ReadError <==> event@ is ReadError,
        event is ChunkDone <==> event@ is ChunkDone,
        event is ChunkFailed <==> event@ is ChunkFailed,
        action matches processing::ChunkAction::RunPlugin { stage, inputs } ==> (
        action@ matches processing::ChunkActionView::RunPlugin { stage: number, inputs: rows }
            && number == stage && rows.len() == inputs@.len() && forall|ch: int|
            0 <= ch < inputs@.len() ==> #[trigger] rows[ch] == inputs@[ch]@),
        action matches processing::ChunkAction::Write(samples) ==> action@
            == processing::ChunkActionView::Write(samples@),
{
}

/// A chain of one plugin or more, whose output channels hold one block each and whose input
/// buffer fits into memory, is ready.
pub proof fn law_ready(ctx: processing::ProcessingContext)
    requires
        ctx.instances@.len() > 0,
        ctx.instances@[0].audio_inputs * ctx.block_size <= usize::MAX,
        forall|i: int, ch: int|
            0 <= i < ctx.instances@.len() && 0 <= ch < ctx.instances@[i].audio_outputs@.len() ==> (
            #[trigger] ctx.instances@[i].audio_outputs@[ch])@.len() == ctx.block_size,
    ensures
        ctx.wf(),
{
}

/// What can come of an action: of reading a packet, every packet, an error or the end; of a
/// block, that the next plugin ran and filled its buffers, that all is done once all plugins
/// ran, or a failure. Only where blocks are empty there must be nothing to render.
pub proof fn law_what_can_come(
    v: processing::RenderView,
    packet: audio::PacketView,
    control_outputs: Seq<u32>,
    audio_outputs: Seq<Seq<u32>>,
)
    ensures
        v.phase is Reading ==> {
            &&& processing::can_follow(v, processing::EventView::DecodeError)
            &&& processing::can_follow(v, processing::EventView::ReadError)
            &&& v.block > 0 || v.drain <= 0 ==> processing::can_follow(
                v,
                processing::EventView::EndOfInput,
            )
            &&& packet.frames >= 0 && (v.block > 0 || packet.frames == 0) && (forall|ch: int|
                0 <= ch < packet.channels.len() ==> (#[trigger] packet.channels[ch]).len()
                    == packet.frames) ==> processing::can_follow(
                v,
                processing::EventView::Packet(packet),
            )
        },
        v.phase is Packet || v.phase is Draining ==> {
            &&& processing::can_follow(v, processing::EventView::ChunkFailed)
            &&& v.finished == v.instances.len() ==> processing::can_follow(
                v,
                processing::EventView::ChunkDone,
            )
            &&& 0 <= v.finished < v.instances.len() && control_outputs.len()
                == v.instances[v.finished].control_outputs.len() && audio_outputs.len()
                == v.instances[v.finished].audio_outputs.len() && (forall|ch: int|
                0 <= ch < audio_outputs.len() ==> (#[trigger] audio_outputs[ch]).len() == v.block)
                ==> processing::can_follow(
                v,
                (processing::EventView::PluginDone { control_outputs, audio_outputs }),
            )
        },
{
}

/// What each event makes of a render: which phase follows, and how many frames are counted.
pub proof fn law_step(v: processing::RenderView, event: processing::EventView)
    requires
        processing::render_inv(v),
        processing::can_follow(v, event),
    ensures
        ({
            let after = processing::next(v, event);
            &&& event matches processing::EventView::Packet(packet) ==> after.phase == (
            if packet.frames > 0 {
                processing::PhaseView::Packet { packet, offset: 0 }
            } else {
                processing::PhaseView::Reading
            })
            &&& event is DecodeError ==> after == v
            &&& event is EndOfInput ==> after.phase == (if v.drain > 0 {
                processing::PhaseView::Draining { remaining: v.drain }
            } else {
                processing::PhaseView::Finished
            })
            &&& event is ReadError || event is ChunkFailed ==> after.phase is Failed
            &&& event !is ChunkDone ==> after.processed == v.processed && after.decoded
                == v.decoded
            &&& event is ChunkDone ==> (
            v.phase matches processing::PhaseView::Packet { packet, offset } ==> {
                let size = if packet.frames - offset <= v.block {
                    packet.frames - offset
                } else {
                    v.block
                };
                &&& after.processed == v.processed + size
                &&& after.decoded == v.decoded + size
                &&& after.phase == (if offset + size < packet.frames {
                    processing::PhaseView::Packet { packet, offset: offset + size }
                } else {
                    processing::PhaseView::Reading
                })
            })
            &&& event is ChunkDone ==> (
            v.phase matches processing::PhaseView::Draining { remaining } ==> {
                let size = if remaining <= v.block {
                    remaining
                } else {
                    v.block
                };
                &&& after.processed == v.processed + size
                &&& after.decoded == v.decoded
                &&& after.phase == (if size < remaining {
                    processing::PhaseView::Draining { remaining: remaining - size }
                } else {
                    processing::PhaseView::Finished
                })
            })
        }),
{
}

} // verus!
