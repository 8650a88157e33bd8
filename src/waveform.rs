//! Acquisition state of the waveform subsystem: the value types the device
//! reports, the limits they imply, and the rules that guard every change.

use vstd::prelude::*;
use vstd::string::StringSliceAdditionalSpecFns;
use crate::ascii::{all_digits, decimal_value, parse_text_u32, text_eq};
use crate::trigger::{SWEep, TRIGgerCommand};

verus! {

/// Why an operation of the waveform subsystem failed.
#[derive(Debug)]
pub enum Error {
    /// A block did not open with `#` and a digit from 1 to 9.
    MalformedEnvelope,
    /// The length field of a block was missing or not decimal.
    MalformedLength,
    /// A size went over the ceiling of the transfer format.
    TransferSizeExceeded(MaxTransferSize),
    /// A short byte block did not end with the line terminator.
    TruncatedPayload,
    /// A word block held fewer bytes than it declared.
    IncompleteData,
    /// A reply named no value of the expected kind; it carries the reply.
    InvalidEnumValue(String),
    /// A reply was not a number; it carries the reply.
    NumericParseError(String),
    /// MAX and RAW need the SINGLE sweep; it carries the refused mode.
    IllegalModeTransition(Mode),
    /// A point lies beyond the memory ceiling.
    MemoryBoundsExceeded(MaxMemorySize),
    /// The stop point lies before the start point: (start, stop).
    InvalidWindow(u32, u32),
    /// The captured series has no room left for a chunk.
    OutputBufferExhausted,
}

/// Number of points a NORM acquisition keeps.
pub const NORMAL_MEMORY_POINTS: i32 = 1200;

/// Memory depth of the supported instrument: 24 million points.
pub const DEVICE_MEMORY_POINTS: u32 = 24000000;

/// Samples per transfer in the WORD format.
pub const WORD_TRANSFER_POINTS: u32 = 125000;

/// Samples per transfer in the BYTE format.
pub const BYTE_TRANSFER_POINTS: u32 = 250000;

/// Samples per transfer in the ASC format.
pub const ASC_TRANSFER_POINTS: u32 = 15625;

/// The memory depth of an instrument model.
#[allow(non_camel_case_types)]
#[derive(Debug, Clone, Copy, PartialEq, Eq, Hash, Structural)]
pub enum MemoryDepth {
    DS1102Z_E,
}

impl MemoryDepth {
    pub open spec fn spec_points(self) -> u32 {
        match self {
            MemoryDepth::DS1102Z_E => DEVICE_MEMORY_POINTS,
        }
    }

    /// The number of points the instrument can hold.
    pub fn points(&self) -> (r: u32)
        ensures
            r == self.spec_points(),
    {
        match self {
            MemoryDepth::DS1102Z_E => DEVICE_MEMORY_POINTS,
        }
    }

    /// The label of the depth, as the instrument's manual writes it.
    pub fn name(&self) -> (r: &'static str)
        ensures
            r@ == "24Mpts"@,
    {
        "24Mpts"
    }
}

/// The channel the device streams.
#[derive(Debug, Clone, Copy, PartialEq, Eq, Hash, Structural)]
pub enum Source {
    D0, D1, D2, D3, D4, D5, D6, D7, D8, D9, D10, D11, D12, D13, D14, D15,
    CHAN1, CHAN2, CHAN3, CHAN4, MATH,
}

impl Source {
    /// The token that names this value on the wire.
    pub open spec fn spec_name(self) -> Seq<char> {
        match self {
            Source::D0 => "D0"@,
            Source::D1 => "D1"@,
            Source::D2 => "D2"@,
            Source::D3 => "D3"@,
            Source::D4 => "D4"@,
            Source::D5 => "D5"@,
            Source::D6 => "D6"@,
            Source::D7 => "D7"@,
            Source::D8 => "D8"@,
            Source::D9 => "D9"@,
            Source::D10 => "D10"@,
            Source::D11 => "D11"@,
            Source::D12 => "D12"@,
            Source::D13 => "D13"@,
            Source::D14 => "D14"@,
            Source::D15 => "D15"@,
            Source::CHAN1 => "CHAN1"@,
            Source::CHAN2 => "CHAN2"@,
            Source::CHAN3 => "CHAN3"@,
            Source::CHAN4 => "CHAN4"@,
            Source::MATH => "MATH"@,
        }
    }

    /// The token that names this value on the wire.
    pub fn name(&self) -> (r: &'static str)
        ensures
            r@ == self.spec_name(),
    {
        match self {
            Source::D0 => "D0",
            Source::D1 => "D1",
            Source::D2 => "D2",
            Source::D3 => "D3",
            Source::D4 => "D4",
            Source::D5 => "D5",
            Source::D6 => "D6",
            Source::D7 => "D7",
            Source::D8 => "D8",
            Source::D9 => "D9",
            Source::D10 => "D10",
            Source::D11 => "D11",
            Source::D12 => "D12",
            Source::D13 => "D13",
            Source::D14 => "D14",
            Source::D15 => "D15",
            Source::CHAN1 => "CHAN1",
            Source::CHAN2 => "CHAN2",
            Source::CHAN3 => "CHAN3",
            Source::CHAN4 => "CHAN4",
            Source::MATH => "MATH",
        }
    }

    /// Length and last character of each token, folded into one number.
    spec fn token_key(self) -> int {
        match self {
            Source::D0 => 304,
            Source::D1 => 305,
            Source::D2 => 306,
            Source::D3 => 307,
            Source::D4 => 308,
            Source::D5 => 309,
            Source::D6 => 310,
            Source::D7 => 311,
            Source::D8 => 312,
            Source::D9 => 313,
            Source::D10 => 432,
            Source::D11 => 433,
            Source::D12 => 434,
            Source::D13 => 435,
            Source::D14 => 436,
            Source::D15 => 437,
            Source::CHAN1 => 689,
            Source::CHAN2 => 690,
            Source::CHAN3 => 691,
            Source::CHAN4 => 692,
            Source::MATH => 584,
        }
    }

    proof fn lemma_token_key(self)
        ensures
            self.spec_name().len() > 0,
            ({
                let s = self.spec_name();
                s.len() * 128 + s.last() as int == self.token_key()
            }),
    {
        match self {
            Source::D0 => reveal_strlit("D0"),
            Source::D1 => reveal_strlit("D1"),
            Source::D2 => reveal_strlit("D2"),
            Source::D3 => reveal_strlit("D3"),
            Source::D4 => reveal_strlit("D4"),
            Source::D5 => reveal_strlit("D5"),
            Source::D6 => reveal_strlit("D6"),
            Source::D7 => reveal_strlit("D7"),
            Source::D8 => reveal_strlit("D8"),
            Source::D9 => reveal_strlit("D9"),
            Source::D10 => reveal_strlit("D10"),
            Source::D11 => reveal_strlit("D11"),
            Source::D12 => reveal_strlit("D12"),
            Source::D13 => reveal_strlit("D13"),
            Source::D14 => reveal_strlit("D14"),
            Source::D15 => reveal_strlit("D15"),
            Source::CHAN1 => reveal_strlit("CHAN1"),
            Source::CHAN2 => reveal_strlit("CHAN2"),
            Source::CHAN3 => reveal_strlit("CHAN3"),
            Source::CHAN4 => reveal_strlit("CHAN4"),
            Source::MATH => reveal_strlit("MATH"),
        }
    }

    /// No two sources share a token.
    pub proof fn lemma_names_distinct()
        ensures
            forall|a: Source, b: Source| #[trigger] a.spec_name() == #[trigger] b.spec_name() ==> a == b,
    {
        assert forall|a: Source, b: Source| #[trigger] a.spec_name() == #[trigger] b.spec_name() implies a == b by {
            a.lemma_token_key();
            b.lemma_token_key();
        }
    }

    /// Reads a value from the token the device echoed.
    pub fn parse(reply: &str) -> (r: Result<Source, Error>)
        ensures
            r matches Ok(v) ==> reply@ == v.spec_name(),
            r is Err <==> forall|v: Source| reply@ != #[trigger] v.spec_name(),
            r matches Err(e) ==> e matches Error::InvalidEnumValue(t) && t@ == reply@,
    {
        if text_eq(reply, "D0") {
            assert(reply@ == Source::D0.spec_name());
            return Ok(Source::D0);
        }
        if text_eq(reply, "D1") {
            assert(reply@ == Source::D1.spec_name());
            return Ok(Source::D1);
        }
        if text_eq(reply, "D2") {
            assert(reply@ == Source::D2.spec_name());
            return Ok(Source::D2);
        }
        if text_eq(reply, "D3") {
            assert(reply@ == Source::D3.spec_name());
            return Ok(Source::D3);
        }
        if text_eq(reply, "D4") {
            assert(reply@ == Source::D4.spec_name());
            return Ok(Source::D4);
        }
        if text_eq(reply, "D5") {
            assert(reply@ == Source::D5.spec_name());
            return Ok(Source::D5);
        }
        if text_eq(reply, "D6") {
            assert(reply@ == Source::D6.spec_name());
            return Ok(Source::D6);
        }
        if text_eq(reply, "D7") {
            assert(reply@ == Source::D7.spec_name());
            return Ok(Source::D7);
        }
        if text_eq(reply, "D8") {
            assert(reply@ == Source::D8.spec_name());
            return Ok(Source::D8);
        }
        if text_eq(reply, "D9") {
            assert(reply@ == Source::D9.spec_name());
            return Ok(Source::D9);
        }
        if text_eq(reply, "D10") {
            assert(reply@ == Source::D10.spec_name());
            return Ok(Source::D10);
        }
        if text_eq(reply, "D11") {
            assert(reply@ == Source::D11.spec_name());
            return Ok(Source::D11);
        }
        if text_eq(reply, "D12") {
            assert(reply@ == Source::D12.spec_name());
            return Ok(Source::D12);
        }
        if text_eq(reply, "D13") {
            assert(reply@ == Source::D13.spec_name());
            return Ok(Source::D13);
        }
        if text_eq(reply, "D14") {
            assert(reply@ == Source::D14.spec_name());
            return Ok(Source::D14);
        }
        if text_eq(reply, "D15") {
            assert(reply@ == Source::D15.spec_name());
            return Ok(Source::D15);
        }
        if text_eq(reply, "CHAN1") {
            assert(reply@ == Source::CHAN1.spec_name());
            return Ok(Source::CHAN1);
        }
        if text_eq(reply, "CHAN2") {
            assert(reply@ == Source::CHAN2.spec_name());
            return Ok(Source::CHAN2);
        }
        if text_eq(reply, "CHAN3") {
            assert(reply@ == Source::CHAN3.spec_name());
            return Ok(Source::CHAN3);
        }
        if text_eq(reply, "CHAN4") {
            assert(reply@ == Source::CHAN4.spec_name());
            return Ok(Source::CHAN4);
        }
        if text_eq(reply, "MATH") {
            assert(reply@ == Source::MATH.spec_name());
            return Ok(Source::MATH);
        }
        Err(Error::InvalidEnumValue(reply.to_owned()))
    }
}

/// The acquisition mode.
#[derive(Debug, Clone, Copy, PartialEq, Eq, Hash, Structural)]
pub enum Mode {
    NORM, MAX, RAW,
}

impl Mode {
    /// The token that names this value on the wire.
    pub open spec fn spec_name(self) -> Seq<char> {
        match self {
            Mode::NORM => "NORM"@,
            Mode::MAX => "MAX"@,
            Mode::RAW => "RAW"@,
        }
    }

    /// The token that names this value on the wire.
    pub fn name(&self) -> (r: &'static str)
        ensures
            r@ == self.spec_name(),
    {
        match self {
            Mode::NORM => "NORM",
            Mode::MAX => "MAX",
            Mode::RAW => "RAW",
        }
    }

    /// No two modes share a token.
    pub proof fn lemma_names_distinct()
        ensures
            forall|a: Mode, b: Mode| #[trigger] a.spec_name() == #[trigger] b.spec_name() ==> a == b,
    {
        reveal_strlit("NORM");
        reveal_strlit("MAX");
        reveal_strlit("RAW");
        assert("NORM"@.len() != "MAX"@.len());
        assert("NORM"@.len() != "RAW"@.len());
        assert("MAX"@[0] != "RAW"@[0]);
    }

    /// Reads a value from the token the device echoed.
    pub fn parse(reply: &str) -> (r: Result<Mode, Error>)
        ensures
            r matches Ok(v) ==> reply@ == v.spec_name(),
            r is Err <==> forall|v: Mode| reply@ != #[trigger] v.spec_name(),
            r matches Err(e) ==> e matches Error::InvalidEnumValue(t) && t@ == reply@,
    {
        if text_eq(reply, "NORM") {
            assert(reply@ == Mode::NORM.spec_name());
            return Ok(Mode::NORM);
        }
        if text_eq(reply, "MAX") {
            assert(reply@ == Mode::MAX.spec_name());
            return Ok(Mode::MAX);
        }
        if text_eq(reply, "RAW") {
            assert(reply@ == Mode::RAW.spec_name());
            return Ok(Mode::RAW);
        }
        Err(Error::InvalidEnumValue(reply.to_owned()))
    }
}

/// The memory ceiling that the acquisition mode allows.
#[derive(Debug, Clone, Copy, PartialEq, Eq, Hash, Structural)]
pub enum MaxMemorySize {
    NORM(i32),
    MAX(MemoryDepth),
    RAW(MemoryDepth),
}

impl MaxMemorySize {
    pub open spec fn spec_new(mode: Mode, memory_depth: MemoryDepth) -> MaxMemorySize {
        match mode {
            Mode::MAX => MaxMemorySize::MAX(memory_depth),
            Mode::RAW => MaxMemorySize::RAW(memory_depth),
            Mode::NORM => MaxMemorySize::NORM(NORMAL_MEMORY_POINTS),
        }
    }

    pub open spec fn spec_to_u32(self) -> u32 {
        match self {
            MaxMemorySize::NORM(val) => val as u32,
            MaxMemorySize::MAX(depth) => depth.spec_points(),
            MaxMemorySize::RAW(depth) => depth.spec_points(),
        }
    }

    /// The ceiling of a mode on an instrument of the given depth.
    pub fn new(mode: Mode, memory_depth: MemoryDepth) -> (r: MaxMemorySize)
        ensures
            r == MaxMemorySize::spec_new(mode, memory_depth),
    {
        match mode {
            Mode::MAX => MaxMemorySize::MAX(memory_depth),
            Mode::RAW => MaxMemorySize::RAW(memory_depth),
            Mode::NORM => MaxMemorySize::NORM(NORMAL_MEMORY_POINTS),
        }
    }

    /// The ceiling as a number of points.
    pub fn to_u32(&self) -> (r: u32)
        ensures
            r == self.spec_to_u32(),
    {
        match *self {
            MaxMemorySize::NORM(val) => {
                #[verifier::truncate]
                let v = val as u32;
                v
            },
            MaxMemorySize::MAX(depth) => depth.points(),
            MaxMemorySize::RAW(depth) => depth.points(),
        }
    }
}

/// The transfer format of waveform data.
#[derive(Debug, Clone, Copy, PartialEq, Eq, Hash, Structural)]
pub enum Format {
    WORD, BYTE, ASC,
}

impl Format {
    /// The token that names this value on the wire.
    pub open spec fn spec_name(self) -> Seq<char> {
        match self {
            Format::WORD => "WORD"@,
            Format::BYTE => "BYTE"@,
            Format::ASC => "ASC"@,
        }
    }

    /// The token that names this value on the wire.
    pub fn name(&self) -> (r: &'static str)
        ensures
            r@ == self.spec_name(),
    {
        match self {
            Format::WORD => "WORD",
            Format::BYTE => "BYTE",
            Format::ASC => "ASC",
        }
    }

    /// No two formats share a token.
    pub proof fn lemma_names_distinct()
        ensures
            forall|a: Format, b: Format| #[trigger] a.spec_name() == #[trigger] b.spec_name() ==> a == b,
    {
        reveal_strlit("WORD");
        reveal_strlit("BYTE");
        reveal_strlit("ASC");
        assert("WORD"@.len() != "ASC"@.len());
        assert("BYTE"@.len() != "ASC"@.len());
        assert("WORD"@[0] != "BYTE"@[0]);
    }

    /// Reads a value from the token the device echoed.
    pub fn parse(reply: &str) -> (r: Result<Format, Error>)
        ensures
            r matches Ok(v) ==> reply@ == v.spec_name(),
            r is Err <==> forall|v: Format| reply@ != #[trigger] v.spec_name(),
            r matches Err(e) ==> e matches Error::InvalidEnumValue(t) && t@ == reply@,
    {
        if text_eq(reply, "WORD") {
            assert(reply@ == Format::WORD.spec_name());
            return Ok(Format::WORD);
        }
        if text_eq(reply, "BYTE") {
            assert(reply@ == Format::BYTE.spec_name());
            return Ok(Format::BYTE);
        }
        if text_eq(reply, "ASC") {
            assert(reply@ == Format::ASC.spec_name());
            return Ok(Format::ASC);
        }
        Err(Error::InvalidEnumValue(reply.to_owned()))
    }
}

/// The number of samples one transfer may carry, by format.
#[derive(Debug, Clone, Copy, PartialEq, Eq, Hash, Structural)]
pub enum MaxTransferSize {
    WORD,
    BYTE,
    ASC,
}

impl MaxTransferSize {
    pub open spec fn spec_of(format: Format) -> MaxTransferSize {
        match format {
            Format::WORD => MaxTransferSize::WORD,
            Format::BYTE => MaxTransferSize::BYTE,
            Format::ASC => MaxTransferSize::ASC,
        }
    }

    pub open spec fn spec_to_u32(self) -> u32 {
        match self {
            MaxTransferSize::WORD => WORD_TRANSFER_POINTS,
            MaxTransferSize::BYTE => BYTE_TRANSFER_POINTS,
            MaxTransferSize::ASC => ASC_TRANSFER_POINTS,
        }
    }

    /// The ceiling as a number of samples.
    pub fn to_u32(&self) -> (r: u32)
        ensures
            r == self.spec_to_u32(),
    {
        match self {
            MaxTransferSize::WORD => WORD_TRANSFER_POINTS,
            MaxTransferSize::BYTE => BYTE_TRANSFER_POINTS,
            MaxTransferSize::ASC => ASC_TRANSFER_POINTS,
        }
    }

    /// The label of the ceiling, format and size.
    pub fn name(&self) -> (r: &'static str)
        ensures
            r@ == match self {
                MaxTransferSize::WORD => "WORD (125000)"@,
                MaxTransferSize::BYTE => "BYTE (250000)"@,
                MaxTransferSize::ASC => "ASC (15625)"@,
            },
    {
        match self {
            MaxTransferSize::WORD => "WORD (125000)",
            MaxTransferSize::BYTE => "BYTE (250000)",
            MaxTransferSize::ASC => "ASC (15625)",
        }
    }
}

impl From<Format> for MaxTransferSize {
    fn from(format: Format) -> (r: MaxTransferSize) {
        match format {
            Format::WORD => MaxTransferSize::WORD,
            Format::BYTE => MaxTransferSize::BYTE,
            Format::ASC => MaxTransferSize::ASC,
        }
    }
}

impl vstd::std_specs::convert::FromSpecImpl<Format> for MaxTransferSize {
    open spec fn obeys_from_spec() -> bool {
        true
    }

    open spec fn from_spec(format: Format) -> MaxTransferSize {
        MaxTransferSize::spec_of(format)
    }
}

/// A pair of values, one per axis: x for time, y for voltage.
#[derive(Debug, Clone, Copy, PartialEq, Eq, Hash)]
pub struct TwoDiv<T> {
    pub x: T,
    pub y: T,
}

/// The raw sample buffer of one transfer, by format.
#[derive(Debug, Clone, PartialEq, Eq, Hash)]
pub enum RecieveData {
    ASC(Vec<String>),
    WORD(Vec<u16>),
    BYTE(Vec<u8>),
}

impl RecieveData {
    /// The buffer holds the variant of `size` and exactly its ceiling of samples.
    pub open spec fn sized_for(self, size: MaxTransferSize) -> bool {
        match self {
            RecieveData::ASC(v) => size == MaxTransferSize::ASC && v@.len() == ASC_TRANSFER_POINTS,
            RecieveData::WORD(v) => size == MaxTransferSize::WORD && v@.len() == WORD_TRANSFER_POINTS,
            RecieveData::BYTE(v) => size == MaxTransferSize::BYTE && v@.len() == BYTE_TRANSFER_POINTS,
        }
    }

    /// Every sample holds the "no sample" value: zero, or the empty string.
    pub open spec fn zeroed(self) -> bool {
        match self {
            RecieveData::ASC(v) => forall|i: int| 0 <= i < v@.len() ==> (#[trigger] v@[i])@.len() == 0,
            RecieveData::WORD(v) => forall|i: int| 0 <= i < v@.len() ==> #[trigger] v@[i] == 0,
            RecieveData::BYTE(v) => forall|i: int| 0 <= i < v@.len() ==> #[trigger] v@[i] == 0,
        }
    }

    /// A zeroed buffer sized to the ceiling of a transfer format.
    pub fn new(data_type: MaxTransferSize) -> (r: Self)
        ensures
            r.sized_for(data_type),
            r.zeroed(),
    {
        match data_type {
            MaxTransferSize::WORD => RecieveData::WORD(vec![0u16; WORD_TRANSFER_POINTS as usize]),
            MaxTransferSize::BYTE => RecieveData::BYTE(vec![0u8; BYTE_TRANSFER_POINTS as usize]),
            MaxTransferSize::ASC => {
                let mut v: Vec<String> = Vec::new();
                let mut i: u32 = 0;
                while i < ASC_TRANSFER_POINTS
                    invariant
                        i <= ASC_TRANSFER_POINTS,
                        v@.len() == i,
                        forall|j: int| 0 <= j < v@.len() ==> v@[j]@.len() == 0,
                    decreases ASC_TRANSFER_POINTS - i,
                {
                    v.push(String::new());
                    i = i + 1;
                }
                RecieveData::ASC(v)
            },
        }
    }
}

/// The acquisition state of the waveform subsystem. Every field holds what
/// the device last confirmed.
#[derive(Debug)]
pub struct WAVeformCommands {
    pub memory_depth: MemoryDepth,
    pub max_transfer_size: MaxTransferSize,
    pub data: RecieveData,
    pub start_point: u32,
    pub stop_point: u32,
    pub source: Source,
    pub format: Format,
    pub max_memory_size: MaxMemorySize,
    pub mode: Mode,
}

impl WAVeformCommands {
    /// The limits agree with the mode and format they derive from, and the
    /// sample buffer is sized to the format.
    pub open spec fn wf(&self) -> bool {
        &&& self.max_memory_size == MaxMemorySize::spec_new(self.mode, self.memory_depth)
        &&& self.max_transfer_size == MaxTransferSize::spec_of(self.format)
        &&& self.data.sized_for(self.max_transfer_size)
    }

    /// The state before the device is first queried.
    pub fn new(memory_depth: MemoryDepth) -> (r: WAVeformCommands)
        ensures
            r.wf(),
            r.memory_depth == memory_depth,
            r.mode == Mode::MAX,
            r.format == Format::ASC,
            r.source == Source::CHAN1,
            r.start_point == 0,
            r.stop_point == 0,
            r.data.zeroed(),
    {
        WAVeformCommands {
            memory_depth,
            max_transfer_size: MaxTransferSize::ASC,
            data: RecieveData::new(MaxTransferSize::ASC),
            start_point: 0,
            stop_point: 0,
            source: Source::CHAN1,
            format: Format::ASC,
            max_memory_size: MaxMemorySize::new(Mode::MAX, memory_depth),
            mode: Mode::MAX,
        }
    }

    /// Takes the source the device echoed.
    pub fn get_source(&mut self, reply: &str) -> (r: Result<(), Error>)
        ensures
            r is Ok <==> exists|v: Source| reply@ == #[trigger] v.spec_name(),
            r is Ok ==> reply@ == final(self).source.spec_name()
                && *final(self) == (WAVeformCommands { source: final(self).source, ..*old(self) }),
            r matches Err(e) ==> e matches Error::InvalidEnumValue(t) && t@ == reply@
                && *final(self) == *old(self),
    {
        let source = Source::parse(reply)?;
        self.source = source;
        Ok(())
    }

    /// Takes the mode the device echoed. MAX and RAW are refused unless the
    /// trigger sweeps SINGLE; a refused mode changes nothing.
    pub fn get_mode(&mut self, reply: &str, trigger: &TRIGgerCommand) -> (r: Result<(), Error>)
        requires
            old(self).wf(),
        ensures
            final(self).wf(),
            (forall|v: Mode| reply@ != #[trigger] v.spec_name()) ==> (r matches Err(
                Error::InvalidEnumValue(t),
            ) && t@ == reply@ && *final(self) == *old(self)),
            forall|m: Mode| reply@ == #[trigger] m.spec_name() ==> if m != Mode::NORM
                && trigger.sweep != SWEep::SING {
                r matches Err(Error::IllegalModeTransition(x)) && x == m && *final(self) == *old(self)
            } else {
                r is Ok && *final(self) == (WAVeformCommands {
                    mode: m,
                    max_memory_size: MaxMemorySize::spec_new(m, old(self).memory_depth),
                    ..*old(self)
                })
            },
    {
        proof {
            Mode::lemma_names_distinct();
        }
        let mode = Mode::parse(reply)?;
        check_mode(mode, trigger)?;
        self.max_memory_size = MaxMemorySize::new(mode, self.memory_depth);
        self.mode = mode;
        Ok(())
    }
    /// Takes the format the device echoed: the transfer ceiling follows it
    /// and the sample buffer is replaced by a zeroed one of that ceiling.
    pub fn get_format(&mut self, reply: &str) -> (r: Result<(), Error>)
        requires
            old(self).wf(),
        ensures
            final(self).wf(),
            (forall|v: Format| reply@ != #[trigger] v.spec_name()) ==> (r matches Err(
                Error::InvalidEnumValue(t),
            ) && t@ == reply@ && *final(self) == *old(self)),
            forall|f: Format| reply@ == #[trigger] f.spec_name() ==> r is Ok
                && final(self).format == f
                && final(self).max_transfer_size == MaxTransferSize::spec_of(f)
                && final(self).data.sized_for(MaxTransferSize::spec_of(f))
                && final(self).data.zeroed()
                && final(self).memory_depth == old(self).memory_depth
                && final(self).mode == old(self).mode
                && final(self).max_memory_size == old(self).max_memory_size
                && final(self).source == old(self).source
                && final(self).start_point == old(self).start_point
                && final(self).stop_point == old(self).stop_point,
    {
        proof {
            Format::lemma_names_distinct();
        }
        let format = Format::parse(reply)?;
        let size = MaxTransferSize::from(format);
        self.max_transfer_size = size;
        self.data = RecieveData::new(size);
        self.format = format;
        Ok(())
    }

    /// Takes the start point the device echoed.
    pub fn get_start_point(&mut self, reply: &str) -> (r: Result<(), Error>)
        ensures
            r is Ok <==> (reply.spec_bytes().len() > 0 && all_digits(reply.spec_bytes())
                && decimal_value(reply.spec_bytes()) <= u32::MAX),
            r is Ok ==> final(self).start_point as nat == decimal_value(reply.spec_bytes())
                && *final(self) == (WAVeformCommands { start_point: final(self).start_point, ..*old(self) }),
            r matches Err(e) ==> e matches Error::NumericParseError(t) && t@ == reply@
                && *final(self) == *old(self),
    {
        match parse_text_u32(reply) {
            Some(v) => {
                self.start_point = v;
                Ok(())
            },
            None => Err(Error::NumericParseError(reply.to_owned())),
        }
    }

    /// Takes the stop point the device echoed.
    pub fn get_stop_point(&mut self, reply: &str) -> (r: Result<(), Error>)
        ensures
            r is Ok <==> (reply.spec_bytes().len() > 0 && all_digits(reply.spec_bytes())
                && decimal_value(reply.spec_bytes()) <= u32::MAX),
            r is Ok ==> final(self).stop_point as nat == decimal_value(reply.spec_bytes())
                && *final(self) == (WAVeformCommands { stop_point: final(self).stop_point, ..*old(self) }),
            r matches Err(e) ==> e matches Error::NumericParseError(t) && t@ == reply@
                && *final(self) == *old(self),
    {
        match parse_text_u32(reply) {
            Some(v) => {
                self.stop_point = v;
                Ok(())
            },
            None => Err(Error::NumericParseError(reply.to_owned())),
        }
    }

    /// Checks a start point before it is sent: it may not lie beyond the
    /// memory ceiling of the current mode.
    pub fn set_start_point(&self, start_point: u32) -> (r: Result<(), Error>)
        ensures
            r is Ok <==> start_point <= self.max_memory_size.spec_to_u32(),
            r matches Err(e) ==> e matches Error::MemoryBoundsExceeded(m) && m == self.max_memory_size,
    {
        if start_point > self.max_memory_size.to_u32() {
            return Err(Error::MemoryBoundsExceeded(self.max_memory_size));
        }
        Ok(())
    }

    /// Checks a stop point before it is sent, against the memory ceiling,
    /// the confirmed start point and the transfer ceiling, in that order.
    pub fn set_stop_point(&self, stop_point: u32) -> (r: Result<(), Error>)
        ensures
            r is Ok <==> window_allowed(
                self.start_point as int,
                stop_point as int,
                self.max_memory_size.spec_to_u32() as int,
                self.max_transfer_size.spec_to_u32() as int,
            ),
            stop_point > self.max_memory_size.spec_to_u32() ==> (r matches Err(
                Error::MemoryBoundsExceeded(m),
            ) && m == self.max_memory_size),
            stop_point <= self.max_memory_size.spec_to_u32() && stop_point < self.start_point
                ==> (r matches Err(Error::InvalidWindow(a, b)) && a == self.start_point && b == stop_point),
            stop_point <= self.max_memory_size.spec_to_u32() && stop_point >= self.start_point
                && stop_point - self.start_point > self.max_transfer_size.spec_to_u32()
                ==> (r matches Err(Error::TransferSizeExceeded(t)) && t == self.max_transfer_size),
    {
        if stop_point > self.max_memory_size.to_u32() {
            return Err(Error::MemoryBoundsExceeded(self.max_memory_size));
        }
        if stop_point < self.start_point {
            return Err(Error::InvalidWindow(self.start_point, stop_point));
        }
        if stop_point - self.start_point > self.max_transfer_size.to_u32() {
            return Err(Error::TransferSizeExceeded(self.max_transfer_size));
        }
        Ok(())
    }
}

/// Checks a mode before it is requested: MAX and RAW need the SINGLE sweep.
pub fn check_mode(mode: Mode, trigger: &TRIGgerCommand) -> (r: Result<(), Error>)
    ensures
        r is Ok <==> (mode == Mode::NORM || trigger.sweep == SWEep::SING),
        r matches Err(e) ==> e matches Error::IllegalModeTransition(m) && m == mode,
{
    if (mode == Mode::MAX || mode == Mode::RAW) && trigger.sweep != SWEep::SING {
        return Err(Error::IllegalModeTransition(mode));
    }
    Ok(())
}

/// A window `[start, stop]` that the device accepts under a memory ceiling
/// and a transfer ceiling.
pub open spec fn window_allowed(start: int, stop: int, ceiling: int, max_transfer: int) -> bool {
    start <= stop && stop <= ceiling && stop - start <= max_transfer
}

} // verus!
