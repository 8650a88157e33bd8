use scope_waveform::chunks::{chunk_windows, get_data, Window};
use scope_waveform::series::CapturedSeries;
use scope_waveform::trigger::TRIGgerCommand;
use scope_waveform::waveform::{Error, MaxTransferSize, MemoryDepth, RecieveData, TwoDiv, WAVeformCommands};

fn byte_block(samples: &[u8]) -> Vec<u8> {
    let len = samples.len().to_string();
    let mut out = vec![b'#', b'0' + len.len() as u8];
    out.extend_from_slice(len.as_bytes());
    out.extend_from_slice(samples);
    out.push(b'\n');
    out
}

fn byte_state() -> WAVeformCommands {
    let trigger = TRIGgerCommand::new("SING").unwrap();
    let mut w = WAVeformCommands::new(MemoryDepth::DS1102Z_E);
    w.get_format("BYTE").unwrap();
    w.get_mode("RAW", &trigger).unwrap();
    w
}

#[test]
fn windows_partition_range() {
    let w = chunk_windows(10, 3);
    assert_eq!(
        w,
        vec![
            Window { start: 1, stop: 3 },
            Window { start: 4, stop: 6 },
            Window { start: 7, stop: 9 },
            Window { start: 10, stop: 10 },
        ]
    );
    assert_eq!(chunk_windows(9, 3).len(), 3);
    assert_eq!(chunk_windows(1, 250000), vec![Window { start: 1, stop: 1 }]);
    let big = chunk_windows(u32::MAX, 250000);
    assert_eq!(big.len(), (u32::MAX as usize + 249999) / 250000);
    assert_eq!(big.last().unwrap().stop, u32::MAX);
}

#[test]
fn empty_range_records_nothing() {
    assert!(chunk_windows(0, 250000).is_empty());
    let series = CapturedSeries::with_capacity(8);
    assert_eq!(series.count, 0);
    assert!(series.points.iter().all(|p| *p == TwoDiv { x: 0, y: 0 }));
}

#[test]
fn word_and_ascii_chunks_leave_series_alone() {
    let trigger = TRIGgerCommand::new("SING").unwrap();
    let mut w = WAVeformCommands::new(MemoryDepth::DS1102Z_E);
    w.get_format("WORD").unwrap();
    w.get_mode("RAW", &trigger).unwrap();
    let mut series = CapturedSeries::with_capacity(8);
    series.record_chunk(&w).unwrap();
    assert_eq!(series.count, 0);
}

#[test]
fn chunk_points_carry_index_and_code() {
    let mut w = byte_state();
    w.get_start_point("1").unwrap();
    w.get_stop_point("3").unwrap();
    w.get_data(&byte_block(&[10, 20, 30])).unwrap();
    let mut series = CapturedSeries::with_capacity(8);
    series.count = 2;
    series.record_chunk(&w).unwrap();
    assert_eq!(series.count, 5);
    assert_eq!(series.points[2], TwoDiv { x: 0, y: 10 });
    assert_eq!(series.points[3], TwoDiv { x: 1, y: 20 });
    assert_eq!(series.points[4], TwoDiv { x: 2, y: 30 });
    assert_eq!(series.points[5], TwoDiv { x: 0, y: 0 });
}

#[test]
fn chunk_overflowing_series_is_refused() {
    let mut w = byte_state();
    w.get_start_point("1").unwrap();
    w.get_stop_point("5").unwrap();
    let mut series = CapturedSeries::with_capacity(4);
    assert!(matches!(series.record_chunk(&w), Err(Error::OutputBufferExhausted)));
    assert_eq!(series.count, 0);
}

#[test]
fn chunk_with_reversed_window_is_refused() {
    let mut w = byte_state();
    w.get_start_point("5").unwrap();
    w.get_stop_point("4").unwrap();
    let mut series = CapturedSeries::with_capacity(4);
    assert!(matches!(series.record_chunk(&w), Err(Error::InvalidWindow(5, 4))));
}

#[test]
fn chunk_larger_than_buffer_is_refused() {
    let mut w = byte_state();
    w.get_start_point("1").unwrap();
    w.get_stop_point("250001").unwrap();
    let mut series = CapturedSeries::with_capacity(300000);
    assert!(matches!(
        series.record_chunk(&w),
        Err(Error::TransferSizeExceeded(MaxTransferSize::BYTE))
    ));
}

#[test]
fn full_acquisition_of_500001_points() {
    let mut w = byte_state();
    assert_eq!(w.max_transfer_size.to_u32(), 250000);
    let mut series = CapturedSeries::new();
    let windows = chunk_windows(500001, w.max_transfer_size.to_u32());
    assert_eq!(
        windows,
        vec![
            Window { start: 1, stop: 250000 },
            Window { start: 250001, stop: 500000 },
            Window { start: 500001, stop: 500001 },
        ]
    );
    for win in &windows {
        w.set_start_point(win.start).unwrap();
        w.get_start_point(&win.start.to_string()).unwrap();
        w.set_stop_point(win.stop).unwrap();
        w.get_stop_point(&win.stop.to_string()).unwrap();
        let n = (win.stop - win.start + 1) as usize;
        let samples: Vec<u8> = (0..n).map(|i| (i % 200) as u8 + 1).collect();
        w.get_data(&byte_block(&samples)).unwrap();
        series.record_chunk(&w).unwrap();
    }
    assert_eq!(series.count, 500001);
    assert_eq!(series.points[0], TwoDiv { x: 0, y: 1 });
    assert_eq!(series.points[250000], TwoDiv { x: 0, y: 1 });
    assert_eq!(series.points[500000], TwoDiv { x: 0, y: 1 });
    assert_eq!(series.points[250199], TwoDiv { x: 199, y: 200 });
    assert!(matches!(&w.data, RecieveData::BYTE(v) if v[0] == 1 && v[1] == 2));
}

#[test]
fn full_series_reported_before_oversized_window() {
    let mut w = byte_state();
    w.get_start_point("1").unwrap();
    w.get_stop_point("250001").unwrap();
    assert!(w.set_stop_point(250001).is_ok());
    let mut series = CapturedSeries::with_capacity(250000);
    assert!(matches!(series.record_chunk(&w), Err(Error::OutputBufferExhausted)));
    assert_eq!(series.count, 0);
}

#[test]
fn retrieval_plan_follows_transfer_ceiling() {
    let w = byte_state();
    assert_eq!(
        get_data(500001, &w),
        vec![
            Window { start: 1, stop: 250000 },
            Window { start: 250001, stop: 500000 },
            Window { start: 500001, stop: 500001 },
        ]
    );
    assert!(get_data(0, &w).is_empty());
    let trigger = TRIGgerCommand::new("SING").unwrap();
    let mut word = WAVeformCommands::new(MemoryDepth::DS1102Z_E);
    word.get_format("WORD").unwrap();
    word.get_mode("RAW", &trigger).unwrap();
    let plan = get_data(250001, &word);
    assert_eq!(plan.len(), 3);
    assert_eq!(plan[2], Window { start: 250001, stop: 250001 });
}
