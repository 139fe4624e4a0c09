use std::sync::Arc;

use muscli::audio::{
    channel_counts, choose_channels, choose_rate, negotiate, pick, rates, DeviceConfig, Mark,
    OutputFormat, Position, SampleKind, SinkState, StreamSpec, Timeline, Volume, FULL_VOLUME_BITS,
    plan_stream,
};

#[test]
fn a_rate_the_device_has_is_used_as_it_is() {
    assert_eq!(choose_rate(44_100, &[44_100, 48_000]), Some(44_100));
    assert_eq!(choose_rate(192_000, &[48_000, 192_000]), Some(192_000));
}

#[test]
fn a_whole_multiple_beats_a_nearer_rate() {
    assert_eq!(choose_rate(44_100, &[48_000, 88_200, 96_000]), Some(88_200));
}

#[test]
fn converting_downwards_is_the_last_resort() {
    assert_eq!(
        choose_rate(96_000, &[44_100, 48_000, 192_000]),
        Some(192_000)
    );
    assert_eq!(choose_rate(96_000, &[44_100, 48_000]), Some(48_000));
}

#[test]
fn a_mono_file_may_be_played_to_both_channels() {
    assert_eq!(choose_channels(1, &[2]), Some(2));
    assert_eq!(choose_channels(2, &[2]), Some(2));
}

#[test]
fn nothing_is_folded_without_being_asked() {
    assert_eq!(choose_channels(6, &[2]), None);
    assert_eq!(choose_channels(2, &[1]), None);
}

#[test]
fn the_lowest_multiple_and_the_lowest_higher_rate_are_chosen() {
    assert_eq!(choose_rate(44_100, &[176_400, 88_200]), Some(88_200));
    assert_eq!(choose_rate(44_100, &[96_000, 48_000]), Some(48_000));
    assert_eq!(choose_rate(48_000, &[]), None);
    assert_eq!(choose_rate(0, &[0, 44_100]), Some(0));
}

#[test]
fn a_report_from_before_a_declared_position_is_dropped() {
    let mut position = Position::default();
    let stale = position.epoch();
    position.declare(90_000);
    position.report(stale, 1_000);
    assert_eq!(position.ms(), 90_000);
    let current = position.epoch();
    position.report(current, 91_000);
    assert_eq!(position.ms(), 91_000);
}

#[test]
fn a_flush_is_carried_out_once_and_never_counted_as_starving() {
    let mut state = SinkState::new(Arc::new(Volume::default()));
    assert_eq!(state.volume.bits(), FULL_VOLUME_BITS);
    state.request_flush();
    let flushed = state.begin_fill(1_024, 2);
    assert!(flushed);
    assert_eq!(state.flushed_at, 512);
    state.end_fill(1_024, 1_024, 2, flushed);
    assert_eq!(state.played, 512);
    assert_eq!(state.starved, 0);
    let flushed = state.begin_fill(1_024, 2);
    assert!(!flushed);
    state.end_fill(1_024, 100, 2, flushed);
    assert_eq!(state.played, 1_024);
    assert_eq!(state.starved, 50);
}

#[test]
fn the_volume_holds_what_it_was_given() {
    let mut volume = Volume::default();
    volume.set_bits(0.5f64.to_bits());
    assert_eq!(f64::from_bits(volume.bits()), 0.5);
    assert_eq!(f64::from_bits(FULL_VOLUME_BITS), 1.0);
}

#[test]
fn the_position_follows_the_newest_mark_the_device_is_past() {
    let mut timeline = Timeline::new(48_000);
    timeline.marks.push(Mark { output_frame: 0, source_ms: 0 });
    timeline.marks.push(Mark { output_frame: 4_800, source_ms: 100 });
    timeline.marks.push(Mark { output_frame: 20_000, source_ms: 400 });
    timeline.handovers = vec![1_000, 20_000];
    let progress = timeline.report(9_600, 0, true);
    assert_eq!(progress.position_ms, Some(200));
    assert_eq!(progress.handovers_passed, 1);
    assert_eq!(progress.underrun_ms, None);
    assert!(!progress.end_of_file);
    assert_eq!(timeline.marks.len(), 2);
    assert_eq!(timeline.handovers, vec![20_000]);
}

#[test]
fn a_shortfall_is_told_once_and_the_end_once() {
    let mut timeline = Timeline::new(48_000);
    timeline.marks.push(Mark { output_frame: 0, source_ms: 0 });
    let first = timeline.report(1_000, 480, true);
    assert_eq!(first.underrun_ms, Some(10));
    let again = timeline.report(1_200, 480, true);
    assert_eq!(again.underrun_ms, None);
    let quiet = timeline.report(1_300, 500, false);
    assert_eq!(quiet.underrun_ms, None);
    assert_eq!(timeline.reported_starved, 500);
    timeline.ends_at = Some(2_000);
    let end = timeline.report(2_000, 9_000, true);
    assert!(end.end_of_file);
    assert_eq!(end.underrun_ms, None);
    assert!(!timeline.report(2_100, 9_000, true).end_of_file);
}

#[test]
fn a_seek_says_nothing_until_its_flush_lands() {
    let mut timeline = Timeline::new(44_100);
    timeline.marks.push(Mark { output_frame: 10, source_ms: 5_000 });
    timeline.restart_for_seek(3);
    timeline.marks.push(Mark { output_frame: 0, source_ms: 60_000 });
    timeline.handovers.push(100);
    let waiting = timeline.report(50_000, 7, true);
    assert_eq!(waiting.position_ms, None);
    assert!(!timeline.flush_landed(2, 44_100, 7));
    assert!(timeline.flush_landed(3, 44_100, 7));
    assert_eq!(timeline.marks[0], Mark { output_frame: 44_100, source_ms: 60_000 });
    assert_eq!(timeline.handovers, vec![44_200]);
    assert_eq!(timeline.pushed, 44_100);
    assert_eq!(timeline.report(88_200, 7, true).position_ms, Some(61_000));
}

fn device() -> Vec<DeviceConfig> {
    vec![
        DeviceConfig { channels: 2, min_rate: 44_100, max_rate: 48_000, kind: SampleKind::F32 },
        DeviceConfig { channels: 2, min_rate: 8_000, max_rate: 192_000, kind: SampleKind::I16 },
        DeviceConfig { channels: 1, min_rate: 48_000, max_rate: 48_000, kind: SampleKind::I24 },
        DeviceConfig { channels: 2, min_rate: 8_000, max_rate: 768_000, kind: SampleKind::Other },
    ]
}

#[test]
fn the_best_format_the_device_takes_is_picked() {
    let configs = device();
    assert_eq!(pick(&configs, 44_100, 2), Some((SampleKind::F32, None)));
    assert_eq!(pick(&configs, 96_000, 2), Some((SampleKind::I16, Some(16))));
    assert_eq!(pick(&configs, 48_000, 1), Some((SampleKind::I24, Some(24))));
    assert_eq!(pick(&configs, 44_100, 1), None);
    assert_eq!(pick(&configs, 384_000, 2), None);
}

#[test]
fn a_device_lists_its_channels_and_the_known_rates_it_takes() {
    let configs = device();
    assert_eq!(channel_counts(&configs), vec![1, 2]);
    assert_eq!(
        rates(&configs, 2),
        vec![8_000, 11_025, 12_000, 16_000, 22_050, 24_000, 32_000, 44_100, 48_000, 64_000, 88_200, 96_000, 176_400, 192_000]
    );
    assert_eq!(rates(&configs, 1), vec![48_000]);
    assert_eq!(rates(&configs, 6), Vec::<u32>::new());
}

#[test]
fn a_stream_is_opened_as_close_to_the_file_as_the_device_allows() {
    let configs = device();
    let cd = StreamSpec { sample_rate: 44_100, channels: 2, bits_per_sample: Some(16) };
    assert_eq!(negotiate(&configs, cd), Some(OutputFormat { sample_rate: 44_100, channels: 2, bits: None }));
    let mono = StreamSpec { sample_rate: 44_100, channels: 1, bits_per_sample: Some(24) };
    assert_eq!(negotiate(&configs, mono), Some(OutputFormat { sample_rate: 48_000, channels: 1, bits: Some(24) }));
    let surround = StreamSpec { sample_rate: 48_000, channels: 6, bits_per_sample: None };
    assert_eq!(negotiate(&configs, surround), None);
}

#[test]
fn each_declaration_moves_the_stamp_on_by_one() {
    let mut position = Position::default();
    let first = position.epoch();
    position.declare(1_000);
    assert_eq!(position.epoch(), first.wrapping_add(1));
    assert_eq!(position.ms(), 1_000);
    position.report(first, 9_999);
    assert_eq!(position.ms(), 1_000);
    assert_eq!(position.epoch(), first.wrapping_add(1));
    position.declare(2_000);
    assert_eq!(position.epoch(), first.wrapping_add(2));
}

#[test]
fn a_stream_is_planned_around_what_the_device_takes() {
    let spec = |rate: u32, channels: u16| StreamSpec { sample_rate: rate, channels, bits_per_sample: None };
    let out = |rate: u32, channels: u16| OutputFormat { sample_rate: rate, channels, bits: None };
    let same = plan_stream(spec(44_100, 2), out(44_100, 2), true);
    assert!(same.untouched && same.bit_perfect && !same.resample && !same.duplicate);
    assert_eq!(same.capacity, 22_050 * 2);
    let mono = plan_stream(spec(48_000, 1), out(48_000, 2), true);
    assert!(mono.duplicate && !mono.untouched && !mono.bit_perfect && !mono.resample);
    let resampled = plan_stream(spec(44_100, 2), out(48_000, 2), false);
    assert!(resampled.resample && resampled.untouched && !resampled.bit_perfect);
    assert_eq!(resampled.capacity, 48_000);
    let silent = plan_stream(spec(44_100, 0), out(44_100, 1), true);
    assert!(silent.untouched && silent.bit_perfect && !silent.duplicate);
}
