use scope_waveform::trigger::{SWEep, TRIGgerCommand};
use scope_waveform::waveform::{
    check_mode, Error, Format, MaxMemorySize, MaxTransferSize, MemoryDepth, Mode, RecieveData, Source,
    WAVeformCommands,
};

fn state_in(format: &str, mode: &str, sweep: &str) -> WAVeformCommands {
    let trigger = TRIGgerCommand::new(sweep).unwrap();
    let mut w = WAVeformCommands::new(MemoryDepth::DS1102Z_E);
    w.get_format(format).unwrap();
    w.get_mode(mode, &trigger).unwrap();
    w
}

#[test]
fn sweep_tokens_parse() {
    assert_eq!(SWEep::parse("AUTO").unwrap(), SWEep::AUTO);
    assert_eq!(SWEep::parse("NORM").unwrap(), SWEep::NORM);
    assert_eq!(SWEep::parse("SING").unwrap(), SWEep::SING);
    match SWEep::parse("SINGLE") {
        Err(scope_waveform::trigger::Error::InvalidEnumValue(t)) => assert_eq!(t, "SINGLE"),
        other => panic!("unexpected {:?}", other),
    }
    assert_eq!(TRIGgerCommand::new("SING").unwrap().sweep, SWEep::SING);
}

#[test]
fn source_tokens_round_trip() {
    for s in [Source::D0, Source::D7, Source::D15, Source::CHAN1, Source::CHAN4, Source::MATH] {
        assert_eq!(Source::parse(s.name()).unwrap(), s);
    }
    assert_eq!(Source::CHAN2.name(), "CHAN2");
    assert!(matches!(Source::parse("CHAN5"), Err(Error::InvalidEnumValue(_))));
}

#[test]
fn mode_and_format_tokens() {
    assert_eq!(Mode::parse("RAW").unwrap(), Mode::RAW);
    assert_eq!(Format::parse("ASC").unwrap(), Format::ASC);
    assert_eq!(Format::BYTE.name(), "BYTE");
    assert!(matches!(Format::parse("byte"), Err(Error::InvalidEnumValue(t)) if t == "byte"));
}

#[test]
fn memory_ceilings() {
    let depth = MemoryDepth::DS1102Z_E;
    assert_eq!(depth.points(), 24000000);
    assert_eq!(MaxMemorySize::new(Mode::NORM, depth), MaxMemorySize::NORM(1200));
    assert_eq!(MaxMemorySize::new(Mode::MAX, depth), MaxMemorySize::MAX(depth));
    assert_eq!(MaxMemorySize::new(Mode::RAW, depth), MaxMemorySize::RAW(depth));
    assert_eq!(MaxMemorySize::NORM(1200).to_u32(), 1200);
    assert_eq!(MaxMemorySize::RAW(depth).to_u32(), 24000000);
}

#[test]
fn transfer_ceilings() {
    assert_eq!(MaxTransferSize::from(Format::WORD).to_u32(), 125000);
    assert_eq!(MaxTransferSize::from(Format::BYTE).to_u32(), 250000);
    assert_eq!(MaxTransferSize::from(Format::ASC).to_u32(), 15625);
    assert_eq!(MaxTransferSize::BYTE.name(), "BYTE (250000)");
}

#[test]
fn receive_buffers_are_sized_to_format() {
    match RecieveData::new(MaxTransferSize::BYTE) {
        RecieveData::BYTE(v) => assert!(v.len() == 250000 && v.iter().all(|b| *b == 0)),
        other => panic!("unexpected variant {:?}", std::mem::discriminant(&other)),
    }
    match RecieveData::new(MaxTransferSize::WORD) {
        RecieveData::WORD(v) => assert_eq!(v.len(), 125000),
        _ => panic!("expected WORD"),
    }
    match RecieveData::new(MaxTransferSize::ASC) {
        RecieveData::ASC(v) => assert!(v.len() == 15625 && v.iter().all(|s| s.is_empty())),
        _ => panic!("expected ASC"),
    }
}

#[test]
fn format_reply_resizes_buffer() {
    let mut w = WAVeformCommands::new(MemoryDepth::DS1102Z_E);
    w.get_format("WORD").unwrap();
    assert_eq!(w.format, Format::WORD);
    assert_eq!(w.max_transfer_size, MaxTransferSize::WORD);
    assert!(matches!(&w.data, RecieveData::WORD(v) if v.len() == 125000));
    assert!(matches!(w.get_format("FLOAT"), Err(Error::InvalidEnumValue(_))));
    assert_eq!(w.format, Format::WORD);
}

#[test]
fn raw_mode_refused_under_auto_sweep() {
    let auto = TRIGgerCommand::new("AUTO").unwrap();
    let mut w = WAVeformCommands::new(MemoryDepth::DS1102Z_E);
    w.get_mode("NORM", &auto).unwrap();
    assert_eq!(w.mode, Mode::NORM);
    assert_eq!(w.max_memory_size, MaxMemorySize::NORM(1200));
    match w.get_mode("RAW", &auto) {
        Err(Error::IllegalModeTransition(m)) => assert_eq!(m, Mode::RAW),
        other => panic!("unexpected {:?}", other),
    }
    assert_eq!(w.mode, Mode::NORM);
    assert_eq!(w.max_memory_size, MaxMemorySize::NORM(1200));
    assert!(matches!(w.get_mode("MAX", &auto), Err(Error::IllegalModeTransition(Mode::MAX))));
}

#[test]
fn raw_mode_allowed_under_single_sweep() {
    let single = TRIGgerCommand::new("SING").unwrap();
    let mut w = WAVeformCommands::new(MemoryDepth::DS1102Z_E);
    w.get_mode("RAW", &single).unwrap();
    assert_eq!(w.mode, Mode::RAW);
    assert_eq!(w.max_memory_size.to_u32(), 24000000);
}

#[test]
fn point_replies() {
    let mut w = WAVeformCommands::new(MemoryDepth::DS1102Z_E);
    w.get_start_point("250001").unwrap();
    w.get_stop_point("500000").unwrap();
    assert_eq!((w.start_point, w.stop_point), (250001, 500000));
    assert!(matches!(w.get_start_point("12a"), Err(Error::NumericParseError(t)) if t == "12a"));
    assert!(matches!(w.get_stop_point(""), Err(Error::NumericParseError(_))));
    assert!(matches!(w.get_stop_point("4294967296"), Err(Error::NumericParseError(_))));
    assert_eq!(w.get_stop_point("4294967295").map(|_| w.stop_point).unwrap(), 4294967295);
    assert_eq!(w.start_point, 250001);
}

#[test]
fn start_point_within_memory() {
    let w = state_in("BYTE", "NORM", "AUTO");
    assert!(w.set_start_point(1200).is_ok());
    assert!(matches!(w.set_start_point(1201), Err(Error::MemoryBoundsExceeded(MaxMemorySize::NORM(1200)))));
}

#[test]
fn stop_point_accepted_when_window_is_valid() {
    let mut w = state_in("BYTE", "RAW", "SING");
    w.get_start_point("1").unwrap();
    assert!(w.set_stop_point(1).is_ok());
    assert!(w.set_stop_point(250001).is_ok());
    w.get_start_point("23750000").unwrap();
    assert!(w.set_stop_point(24000000).is_ok());
}

#[test]
fn stop_point_beyond_memory() {
    let mut w = state_in("BYTE", "RAW", "SING");
    w.get_start_point("23999990").unwrap();
    match w.set_stop_point(24000001) {
        Err(Error::MemoryBoundsExceeded(m)) => assert_eq!(m, MaxMemorySize::RAW(MemoryDepth::DS1102Z_E)),
        other => panic!("unexpected {:?}", other),
    }
}

#[test]
fn stop_point_before_start() {
    let mut w = state_in("BYTE", "RAW", "SING");
    w.get_start_point("100").unwrap();
    assert!(matches!(w.set_stop_point(99), Err(Error::InvalidWindow(100, 99))));
}

#[test]
fn stop_point_beyond_transfer_size() {
    let mut w = state_in("BYTE", "RAW", "SING");
    w.get_start_point("1").unwrap();
    assert!(matches!(
        w.set_stop_point(250002),
        Err(Error::TransferSizeExceeded(MaxTransferSize::BYTE))
    ));
    let mut n = state_in("WORD", "RAW", "SING");
    n.get_start_point("10").unwrap();
    assert!(n.set_stop_point(125010).is_ok());
    assert!(matches!(n.set_stop_point(125011), Err(Error::TransferSizeExceeded(MaxTransferSize::WORD))));
}

#[test]
fn mode_checked_before_request() {
    let auto = TRIGgerCommand::new("AUTO").unwrap();
    let single = TRIGgerCommand::new("SING").unwrap();
    assert!(check_mode(Mode::NORM, &auto).is_ok());
    assert!(matches!(check_mode(Mode::RAW, &auto), Err(Error::IllegalModeTransition(Mode::RAW))));
    assert!(matches!(check_mode(Mode::MAX, &auto), Err(Error::IllegalModeTransition(Mode::MAX))));
    assert!(check_mode(Mode::RAW, &single).is_ok());
}

#[test]
fn format_change_zeroes_buffer() {
    let mut w = WAVeformCommands::new(MemoryDepth::DS1102Z_E);
    w.get_format("BYTE").unwrap();
    if let RecieveData::BYTE(v) = &mut w.data {
        v[0] = 7;
    }
    w.get_format("BYTE").unwrap();
    assert!(matches!(&w.data, RecieveData::BYTE(v) if v.len() == 250000 && v.iter().all(|b| *b == 0)));
    w.get_format("WORD").unwrap();
    assert!(matches!(&w.data, RecieveData::WORD(v) if v.iter().all(|b| *b == 0)));
}
