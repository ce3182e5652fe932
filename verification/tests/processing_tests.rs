use lv2render::audio::{
    copy_to_f32_buffer, copy_to_planar_f32, load_block, setup_input_audio, track_timing,
    AudioError, AudioInput, DecodedAudio, TrackInfo,
};
use lv2render::plugin::{PluginInstance, PortCounts};
use lv2render::processing::{
    interleave, process_audio, process_chunk, start_render, store_outputs, ChunkAction, Progress,
    ProcessingContext, ProgressReporter, Render, RenderAction, RenderEvent,
};

fn track(has_codec: bool, sample_rate: Option<u32>, channels: Option<u32>) -> TrackInfo {
    TrackInfo { has_codec, sample_rate, channels, n_frames: Some(9) }
}

fn decoded(channels: Vec<Vec<u32>>) -> DecodedAudio {
    let frames = if channels.is_empty() { 0 } else { channels[0].len() };
    DecodedAudio { frames, channels, singles: false }
}

#[test]
fn the_first_track_with_a_codec_is_rendered() {
    let tracks = vec![
        track(false, Some(8000), Some(1)),
        track(true, Some(48000), Some(0b1011)),
        track(true, Some(96000), Some(1)),
    ];
    let expected =
        AudioInput { track: 1, sample_rate: 48000, num_channels: 3, total_frames: 9 };
    assert!(setup_input_audio(&tracks) == Ok(expected));
}

#[test]
fn channels_are_counted_by_the_mask() {
    for (mask, count) in [(0u32, 0usize), (3, 2), (0x3f, 6), (0x3ff_ffff, 26), (u32::MAX, 26)] {
        let input = setup_input_audio(&vec![track(true, Some(1), Some(mask))]).unwrap();
        assert_eq!(input.num_channels, count);
    }
    let stereo = symphonia::core::audio::Channels::FRONT_LEFT
        | symphonia::core::audio::Channels::FRONT_RIGHT;
    let input = setup_input_audio(&vec![track(true, Some(1), Some(stereo.bits()))]).unwrap();
    assert_eq!(input.num_channels, stereo.count());
}

#[test]
fn input_errors() {
    for tracks in [vec![], vec![track(false, Some(1), Some(1))]] {
        let e = setup_input_audio(&tracks).unwrap_err();
        assert!(e == AudioError::NoAudio);
        assert_eq!(e.message(), "No audio");
    }
    let tracks = vec![track(true, None, None), track(true, Some(1), Some(1))];
    let e = setup_input_audio(&tracks).unwrap_err();
    assert!(e == AudioError::NoSampleRate);
    assert_eq!(e.message(), "No sample rate");
    let e = setup_input_audio(&vec![track(true, Some(1), None)]).unwrap_err();
    assert!(e == AudioError::NoChannels);
    assert_eq!(e.message(), "No channels");
}

#[test]
fn missing_timing_has_defaults() {
    let mut info = track(true, None, Some(1));
    info.n_frames = None;
    assert_eq!(track_timing(&info), (44100, 0));
    assert_eq!(track_timing(&track(true, Some(8000), None)), (8000, 9));
    let input = setup_input_audio(&vec![TrackInfo { sample_rate: Some(1), ..info }]).unwrap();
    assert_eq!(input.total_frames, 0);
}

#[test]
fn channels_are_copied_to_their_buffers() {
    let packet = decoded(vec![vec![1, 2], vec![3, 4], vec![5, 6]]);
    let mut result = vec![vec![9, 9, 9], vec![8, 8]];
    copy_to_f32_buffer(&packet, &mut result);
    assert_eq!(result, vec![vec![1, 2, 9], vec![3, 4]]);
    let mut more = vec![vec![0, 0]; 4];
    copy_to_f32_buffer(&packet, &mut more);
    assert_eq!(more, vec![vec![1, 2], vec![3, 4], vec![5, 6], vec![0, 0]]);
}

#[test]
fn frames_are_copied_into_a_planar_buffer() {
    let packet = decoded(vec![vec![1, 2, 3, 4], vec![5, 6, 7, 8]]);
    let mut buffer = vec![9; 9];
    copy_to_planar_f32(&packet, &mut buffer, 1, 1, 2, 3);
    assert_eq!(buffer, vec![9, 2, 3, 9, 6, 7, 9, 9, 9]);
    let mut buffer = vec![9; 3];
    copy_to_planar_f32(&packet, &mut buffer, 3, 0, 1, 3);
    assert_eq!(buffer, vec![4, 9, 9]);
}

#[test]
fn a_block_ends_in_silence() {
    let packet = decoded(vec![vec![1, 2, 3], vec![4, 5, 6]]);
    let mut buffer = vec![9; 8];
    load_block(&mut buffer, &packet, 1, 2, 4, 2, false);
    assert_eq!(buffer, vec![2, 3, 0, 0, 5, 6, 0, 0]);
    let mut buffer = vec![9; 12];
    load_block(&mut buffer, &packet, 0, 3, 4, 3, false);
    assert_eq!(buffer, vec![1, 2, 3, 0, 4, 5, 6, 0, 9, 9, 9, 0]);
}

#[test]
fn a_mono_block_is_doubled() {
    let packet = decoded(vec![vec![1, 2, 3]]);
    let mut buffer = vec![9; 8];
    load_block(&mut buffer, &packet, 0, 3, 4, 2, true);
    assert_eq!(buffer, vec![1, 2, 3, 0, 1, 2, 3, 0]);
}

#[test]
fn samples_are_written_frame_by_frame() {
    let channels = vec![vec![1, 2, 3], vec![4, 5, 6]];
    assert_eq!(interleave(&channels, 2), vec![1, 4, 2, 5]);
    assert!(interleave(&channels, 0).is_empty());
    assert!(interleave(&Vec::new(), 3).is_empty());
}

#[test]
fn progress_is_reported_once_a_second() {
    let reporter = ProgressReporter::new(100, 1000);
    assert_eq!(reporter.sample_rate, 100);
    assert_eq!(reporter.total_frames, 1000);
    let earlier = std::time::Instant::now();
    assert!(reporter.start_time <= earlier);
    assert!(
        reporter.tick(205, 205, false, 50, 50, 10)
            == Some(Progress::Rendering {
                frames_processed: 205,
                frames_decoded: 205,
                total_frames: 1000
            })
    );
    assert!(reporter.tick(210, 210, false, 50, 50, 10).is_none());
    assert!(
        reporter.tick(1000, 950, true, 60, 10, 10)
            == Some(Progress::Draining { frames_processed: 1000, drained: 50, drain_frames: 60 })
    );
}

#[test]
fn progress_of_an_unknown_length_is_not_reported() {
    let reporter = ProgressReporter::new(100, 0);
    assert!(reporter.tick(200, 200, false, 50, 50, 10).is_none());
    assert!(reporter.tick(200, 150, true, 50, 0, 10).is_some());
}

/// A plugin that adds 1 to every sample and gives its inputs in turn.
fn run_plugin(inputs: &[Vec<u32>], outputs: usize) -> Vec<Vec<u32>> {
    (0..outputs)
        .map(|ch| inputs[ch % inputs.len()].iter().map(|s| s + 1).collect())
        .collect()
}

/// Sends the block in the input buffer through the chain.
fn run_chunk(render: &mut Render, written: &mut Vec<u32>) {
    let mut expected = 0;
    loop {
        match process_chunk(render) {
            ChunkAction::RunPlugin { stage, inputs } => {
                assert_eq!(stage, expected);
                assert_eq!(inputs.len(), render.ctx.instances[stage].audio_inputs);
                let outputs = render.ctx.instances[stage].audio_outputs.len();
                let result = run_plugin(&inputs, outputs);
                store_outputs(render, Vec::new(), result);
                expected += 1;
            }
            ChunkAction::Write(samples) => {
                assert_eq!(expected, render.ctx.instances.len());
                written.extend(samples);
                return;
            }
        }
    }
}

fn context(
    chain: &[(usize, usize)],
    block_size: usize,
    input_channels: usize,
    drain_frames: usize,
) -> ProcessingContext {
    let instances = chain
        .iter()
        .map(|counts| {
            let ports = PortCounts {
                audio_inputs: counts.0,
                audio_outputs: counts.1,
                control_outputs: 0,
            };
            PluginInstance::new(&ports, Vec::new(), block_size)
        })
        .collect();
    ProcessingContext { instances, block_size, input_channels, drain_frames }
}

/// Renders the packets; gives the samples written and the sizes of the blocks.
fn render_all(ctx: ProcessingContext, packets: Vec<DecodedAudio>) -> (Render, Vec<u32>, Vec<usize>) {
    let mut render = start_render(ctx);
    let mut written = Vec::new();
    let mut sizes = Vec::new();
    let mut input = packets.into_iter();
    let mut todo = RenderAction::ReadPacket;
    loop {
        match todo {
            RenderAction::ReadPacket => {
                let event = match input.next() {
                    Some(packet) => RenderEvent::Packet(packet),
                    None => RenderEvent::EndOfInput,
                };
                todo = process_audio(&mut render, event);
            }
            RenderAction::RunChunk(size) => {
                run_chunk(&mut render, &mut written);
                sizes.push(size);
                todo = process_audio(&mut render, RenderEvent::ChunkDone);
            }
            RenderAction::Finish => return (render, written, sizes),
            RenderAction::Fail => panic!("failed"),
        }
    }
}

#[test]
fn every_frame_is_rendered_once_and_then_the_silence() {
    let ctx = context(&[(1, 1), (1, 1)], 3, 1, 4);
    let packets = vec![
        decoded(vec![vec![10, 20, 30, 40, 50, 60, 70]]),
        decoded(vec![vec![]]),
        decoded(vec![vec![80, 90]]),
    ];
    let (render, written, sizes) = render_all(ctx, packets);
    assert_eq!(sizes, vec![3, 3, 1, 2, 3, 1]);
    assert_eq!(written, vec![12, 22, 32, 42, 52, 62, 72, 82, 92, 2, 2, 2, 2]);
    assert_eq!(render.frames_decoded, 9);
    assert_eq!(render.frames_processed, 13);
}

#[test]
fn stereo_goes_through_channel_by_channel() {
    let ctx = context(&[(2, 2)], 2, 2, 1);
    let packets = vec![decoded(vec![vec![10, 20, 30], vec![110, 120, 130]])];
    let (_, written, sizes) = render_all(ctx, packets);
    assert_eq!(sizes, vec![2, 1, 1]);
    assert_eq!(written, vec![11, 111, 21, 121, 31, 131, 1, 1]);
}

#[test]
fn mono_is_spread_over_a_stereo_chain() {
    let ctx = context(&[(2, 2), (2, 3)], 4, 1, 0);
    let packets = vec![decoded(vec![vec![10, 20, 30, 40, 50]])];
    let (render, written, sizes) = render_all(ctx, packets);
    assert_eq!(sizes, vec![4, 1]);
    assert_eq!(
        written,
        vec![12, 12, 12, 22, 22, 22, 32, 32, 32, 42, 42, 42, 52, 52, 52]
    );
    assert_eq!(render.frames_processed, 5);
}

#[test]
fn a_plugin_gets_what_the_one_before_it_gave() {
    let mut render = start_render(context(&[(1, 2), (2, 1)], 2, 1, 0));
    let todo = process_audio(&mut render, RenderEvent::Packet(decoded(vec![vec![7, 8]])));
    assert_eq!(todo, RenderAction::RunChunk(2));
    match process_chunk(&render) {
        ChunkAction::RunPlugin { stage, inputs } => {
            assert_eq!(stage, 0);
            assert_eq!(inputs, vec![vec![7, 8]]);
        }
        ChunkAction::Write(_) => panic!("no plugin has run"),
    }
    store_outputs(&mut render, Vec::new(), vec![vec![1, 2], vec![3, 4]]);
    match process_chunk(&render) {
        ChunkAction::RunPlugin { stage, inputs } => {
            assert_eq!(stage, 1);
            assert_eq!(inputs, vec![vec![1, 2], vec![3, 4]]);
        }
        ChunkAction::Write(_) => panic!("the second plugin has not run"),
    }
    store_outputs(&mut render, Vec::new(), vec![vec![5, 6]]);
    match process_chunk(&render) {
        ChunkAction::RunPlugin { .. } => panic!("both plugins have run"),
        ChunkAction::Write(samples) => assert_eq!(samples, vec![5, 6]),
    }
    assert_eq!(render.finished, 2);
    assert_eq!(process_audio(&mut render, RenderEvent::ChunkDone), RenderAction::ReadPacket);
    assert_eq!(render.finished, 0);
}

#[test]
fn buffers_keep_their_size() {
    let ports = PortCounts { audio_inputs: 1, audio_outputs: 2, control_outputs: 3 };
    let instances = vec![PluginInstance::new(&ports, vec![11, 12], 2)];
    let ctx = ProcessingContext { instances, block_size: 2, input_channels: 1, drain_frames: 0 };
    let mut render = start_render(ctx);
    process_audio(&mut render, RenderEvent::Packet(decoded(vec![vec![7]])));
    store_outputs(&mut render, vec![1, 2, 3], vec![vec![4, 5], vec![6, 7]]);
    let instance = &render.ctx.instances[0];
    assert_eq!(instance.control_inputs, vec![11, 12]);
    assert_eq!(instance.control_outputs, vec![1, 2, 3]);
    assert_eq!(instance.audio_outputs, vec![vec![4, 5], vec![6, 7]]);
    assert_eq!(render.input_buffer, vec![7, 0]);
}

#[test]
fn a_longer_tail_only_adds_samples_at_the_end() {
    let render_with = |drain: usize| {
        let packets = vec![decoded(vec![vec![10, 20, 30, 40, 50]])];
        render_all(context(&[(1, 2), (2, 2)], 4, 1, drain), packets).1
    };
    let longest = render_with(13);
    assert_eq!(longest.len(), (5 + 13) * 2);
    for drain in 0..13 {
        let shorter = render_with(drain);
        assert_eq!(shorter.len(), (5 + drain) * 2);
        assert_eq!(shorter[..], longest[..shorter.len()]);
    }
}

#[test]
fn the_tail_is_counted_down() {
    let mut render = start_render(context(&[(1, 1)], 4, 1, 6));
    let reporter = ProgressReporter::new(10, 5);
    let mut written = Vec::new();
    assert!(!render.is_draining());
    assert_eq!(render.drain_remaining(), 6);
    assert_eq!(render.chunk_size(), 0);
    process_audio(&mut render, RenderEvent::Packet(decoded(vec![vec![1, 2, 3]])));
    assert_eq!(render.chunk_size(), 3);
    run_chunk(&mut render, &mut written);
    process_audio(&mut render, RenderEvent::ChunkDone);
    assert!(!render.is_draining());
    assert_eq!(render.drain_remaining(), 6);
    assert_eq!(
        render.report(&reporter),
        Some(Progress::Rendering { frames_processed: 3, frames_decoded: 3, total_frames: 5 })
    );
    process_audio(&mut render, RenderEvent::EndOfInput);
    run_chunk(&mut render, &mut written);
    assert_eq!(process_audio(&mut render, RenderEvent::ChunkDone), RenderAction::RunChunk(2));
    assert!(render.is_draining());
    assert_eq!(render.drain_remaining(), 2);
    assert_eq!(render.report(&reporter), None);
    run_chunk(&mut render, &mut written);
    assert_eq!(process_audio(&mut render, RenderEvent::ChunkDone), RenderAction::Finish);
    assert!(render.is_draining());
    assert_eq!(render.drain_remaining(), 0);
    assert_eq!(render.report(&reporter), None);
    let reporter = ProgressReporter::new(3, 5);
    assert_eq!(
        render.report(&reporter),
        Some(Progress::Draining { frames_processed: 9, drained: 6, drain_frames: 6 })
    );
}

#[test]
fn empty_blocks_do_where_there_is_nothing_to_render() {
    let mut render = start_render(context(&[(1, 1)], 0, 1, 0));
    let packet = decoded(vec![vec![]]);
    assert_eq!(process_audio(&mut render, RenderEvent::Packet(packet)), RenderAction::ReadPacket);
    assert_eq!(process_audio(&mut render, RenderEvent::EndOfInput), RenderAction::Finish);
}

#[test]
fn an_empty_input_gives_only_the_tail() {
    let (render, written, sizes) = render_all(context(&[(1, 1)], 4, 1, 6), Vec::new());
    assert_eq!(sizes, vec![4, 2]);
    assert_eq!(written, vec![1; 6]);
    assert_eq!(render.frames_decoded, 0);
    let (_, written, sizes) = render_all(context(&[(1, 1)], 4, 1, 0), Vec::new());
    assert!(sizes.is_empty());
    assert!(written.is_empty());
}

#[test]
fn a_packet_that_cannot_be_decoded_is_passed_over() {
    let mut render = start_render(context(&[(1, 1)], 4, 1, 0));
    assert!(process_audio(&mut render, RenderEvent::DecodeError) == RenderAction::ReadPacket);
    let packet = decoded(vec![vec![7]]);
    assert!(
        process_audio(&mut render, RenderEvent::Packet(packet)) == RenderAction::RunChunk(1)
    );
    assert_eq!(render.input_buffer, vec![7, 0, 0, 0]);
    store_outputs(&mut render, Vec::new(), vec![vec![8, 1, 1, 1]]);
    assert!(process_audio(&mut render, RenderEvent::ChunkDone) == RenderAction::ReadPacket);
    assert!(process_audio(&mut render, RenderEvent::EndOfInput) == RenderAction::Finish);
}

#[test]
fn other_failures_end_the_render() {
    let mut render = start_render(context(&[(1, 1)], 4, 1, 0));
    assert!(process_audio(&mut render, RenderEvent::ReadError) == RenderAction::Fail);
    let mut render = start_render(context(&[(1, 1)], 4, 1, 5));
    assert!(process_audio(&mut render, RenderEvent::EndOfInput) == RenderAction::RunChunk(4));
    assert!(process_audio(&mut render, RenderEvent::ChunkFailed) == RenderAction::Fail);
    assert_eq!(render.frames_processed, 0);
}

#[test]
fn upmix_is_for_one_channel_into_two() {
    assert!(context(&[(2, 2)], 4, 1, 0).needs_upmix());
    assert!(!context(&[(2, 2)], 4, 2, 0).needs_upmix());
    assert!(!context(&[(1, 2)], 4, 1, 0).needs_upmix());
}
