//! Labels of communication-log entries.
use vstd::prelude::*;

verus! {

/// Direction of a logged frame.
#[derive(Debug, Clone, Copy, PartialEq, Eq, Structural)]
pub enum Direction {
    Tx,
    Rx,
}

/// What kind of frame or event a log entry records.
#[derive(Debug, Clone, PartialEq, Eq)]
pub enum FrameLabel {
    ConnectionEvent,
    UStartAct,
    UStartCon,
    UStopAct,
    UStopCon,
    UTestAct,
    UTestCon,
    SFrame,
    IFrame(String),
    GeneralInterrogation,
    CounterRead,
    CounterInterrogation,
    ClockSync,
    SingleCommand,
    DoubleCommand,
    StepCommand,
    SetpointNormalized,
    SetpointScaled,
    SetpointFloat,
    Bitstring,
    RawApdu,
}

impl FrameLabel {
    /// Short label text of each kind.
    pub open spec fn spec_name(&self) -> Seq<char> {
        match self {
            FrameLabel::ConnectionEvent => "CONN"@,
            FrameLabel::UStartAct => "STARTDT_ACT"@,
            FrameLabel::UStartCon => "STARTDT_CON"@,
            FrameLabel::UStopAct => "STOPDT_ACT"@,
            FrameLabel::UStopCon => "STOPDT_CON"@,
            FrameLabel::UTestAct => "TESTFR_ACT"@,
            FrameLabel::UTestCon => "TESTFR_CON"@,
            FrameLabel::SFrame => "S"@,
            FrameLabel::IFrame(_) => "I"@,
            FrameLabel::GeneralInterrogation => "GI"@,
            FrameLabel::CounterRead => "CI"@,
            FrameLabel::CounterInterrogation => "CI"@,
            FrameLabel::ClockSync => "CS"@,
            FrameLabel::SingleCommand => "C_SC"@,
            FrameLabel::DoubleCommand => "C_DC"@,
            FrameLabel::StepCommand => "C_RC"@,
            FrameLabel::SetpointNormalized => "C_SE_NA"@,
            FrameLabel::SetpointScaled => "C_SE_NB"@,
            FrameLabel::SetpointFloat => "C_SE_NC"@,
            FrameLabel::Bitstring => "C_BO"@,
            FrameLabel::RawApdu => "RAW"@,
        }
    }

    /// Short label text, e.g. `C_RC` for a step command.
    pub fn name(&self) -> (s: &'static str)
        ensures
            s@ == self.spec_name(),
    {
        match self {
            FrameLabel::ConnectionEvent => "CONN",
            FrameLabel::UStartAct => "STARTDT_ACT",
            FrameLabel::UStartCon => "STARTDT_CON",
            FrameLabel::UStopAct => "STOPDT_ACT",
            FrameLabel::UStopCon => "STOPDT_CON",
            FrameLabel::UTestAct => "TESTFR_ACT",
            FrameLabel::UTestCon => "TESTFR_CON",
            FrameLabel::SFrame => "S",
            FrameLabel::IFrame(_) => "I",
            FrameLabel::GeneralInterrogation => "GI",
            FrameLabel::CounterRead => "CI",
            FrameLabel::CounterInterrogation => "CI",
            FrameLabel::ClockSync => "CS",
            FrameLabel::SingleCommand => "C_SC",
            FrameLabel::DoubleCommand => "C_DC",
            FrameLabel::StepCommand => "C_RC",
            FrameLabel::SetpointNormalized => "C_SE_NA",
            FrameLabel::SetpointScaled => "C_SE_NB",
            FrameLabel::SetpointFloat => "C_SE_NC",
            FrameLabel::Bitstring => "C_BO",
            FrameLabel::RawApdu => "RAW",
        }
    }
}

} // verus!
