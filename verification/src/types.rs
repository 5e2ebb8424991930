//! ASDU type identifiers, data categories, quality descriptors and causes of
//! transmission of IEC 60870-5-101/104.
use vstd::prelude::*;

verus! {

/// ASDU type identification (the first octet of every ASDU).
#[derive(Debug, Clone, Copy, PartialEq, Eq, Hash, Structural)]
pub enum AsduTypeId {
    MSpNa1,
    MSpTb1,
    MDpNa1,
    MDpTb1,
    MStNa1,
    MStTb1,
    MBoNa1,
    MBoTb1,
    MMeNa1,
    MMeTd1,
    MMeNb1,
    MMeTe1,
    MMeNc1,
    MMeTf1,
    MItNa1,
    MItTb1,
    CScNa1,
    CDcNa1,
    CRcNa1,
    CSeNa1,
    CSeNb1,
    CSeNc1,
    CBoNa1,
    CIcNa1,
    CCiNa1,
    CCsNa1,
}

/// Coarse grouping of ASDU types by the kind of value they carry.
#[derive(Debug, Clone, Copy, PartialEq, Eq, Hash, Structural)]
pub enum DataCategory {
    SinglePoint,
    DoublePoint,
    StepPosition,
    Bitstring,
    NormalizedMeasured,
    ScaledMeasured,
    FloatMeasured,
    IntegratedTotals,
    System,
}

impl AsduTypeId {
    /// The numeric type identification of each ASDU type.
    pub open spec fn code(self) -> u8 {
        match self {
            AsduTypeId::MSpNa1 => 1,
            AsduTypeId::MSpTb1 => 30,
            AsduTypeId::MDpNa1 => 3,
            AsduTypeId::MDpTb1 => 31,
            AsduTypeId::MStNa1 => 5,
            AsduTypeId::MStTb1 => 32,
            AsduTypeId::MBoNa1 => 7,
            AsduTypeId::MBoTb1 => 33,
            AsduTypeId::MMeNa1 => 9,
            AsduTypeId::MMeTd1 => 34,
            AsduTypeId::MMeNb1 => 11,
            AsduTypeId::MMeTe1 => 35,
            AsduTypeId::MMeNc1 => 13,
            AsduTypeId::MMeTf1 => 36,
            AsduTypeId::MItNa1 => 15,
            AsduTypeId::MItTb1 => 37,
            AsduTypeId::CScNa1 => 45,
            AsduTypeId::CDcNa1 => 46,
            AsduTypeId::CRcNa1 => 47,
            AsduTypeId::CSeNa1 => 48,
            AsduTypeId::CSeNb1 => 49,
            AsduTypeId::CSeNc1 => 50,
            AsduTypeId::CBoNa1 => 51,
            AsduTypeId::CIcNa1 => 100,
            AsduTypeId::CCiNa1 => 101,
            AsduTypeId::CCsNa1 => 103,
        }
    }

    /// The ASDU type whose identification is `b`, if any.
    pub open spec fn spec_from_code(b: u8) -> Option<AsduTypeId> {
        if b == 1 { Some(AsduTypeId::MSpNa1) }
        else if b == 30 { Some(AsduTypeId::MSpTb1) }
        else if b == 3 { Some(AsduTypeId::MDpNa1) }
        else if b == 31 { Some(AsduTypeId::MDpTb1) }
        else if b == 5 { Some(AsduTypeId::MStNa1) }
        else if b == 32 { Some(AsduTypeId::MStTb1) }
        else if b == 7 { Some(AsduTypeId::MBoNa1) }
        else if b == 33 { Some(AsduTypeId::MBoTb1) }
        else if b == 9 { Some(AsduTypeId::MMeNa1) }
        else if b == 34 { Some(AsduTypeId::MMeTd1) }
        else if b == 11 { Some(AsduTypeId::MMeNb1) }
        else if b == 35 { Some(AsduTypeId::MMeTe1) }
        else if b == 13 { Some(AsduTypeId::MMeNc1) }
        else if b == 36 { Some(AsduTypeId::MMeTf1) }
        else if b == 15 { Some(AsduTypeId::MItNa1) }
        else if b == 37 { Some(AsduTypeId::MItTb1) }
        else if b == 45 { Some(AsduTypeId::CScNa1) }
        else if b == 46 { Some(AsduTypeId::CDcNa1) }
        else if b == 47 { Some(AsduTypeId::CRcNa1) }
        else if b == 48 { Some(AsduTypeId::CSeNa1) }
        else if b == 49 { Some(AsduTypeId::CSeNb1) }
        else if b == 50 { Some(AsduTypeId::CSeNc1) }
        else if b == 51 { Some(AsduTypeId::CBoNa1) }
        else if b == 100 { Some(AsduTypeId::CIcNa1) }
        else if b == 101 { Some(AsduTypeId::CCiNa1) }
        else if b == 103 { Some(AsduTypeId::CCsNa1) }
        else { None }
    }

    /// The category of the values an ASDU type carries.
    pub open spec fn spec_category(self) -> DataCategory {
        match self {
            AsduTypeId::MSpNa1 | AsduTypeId::MSpTb1 | AsduTypeId::CScNa1 => DataCategory::SinglePoint,
            AsduTypeId::MDpNa1 | AsduTypeId::MDpTb1 | AsduTypeId::CDcNa1 => DataCategory::DoublePoint,
            AsduTypeId::MStNa1 | AsduTypeId::MStTb1 | AsduTypeId::CRcNa1 => DataCategory::StepPosition,
            AsduTypeId::MBoNa1 | AsduTypeId::MBoTb1 | AsduTypeId::CBoNa1 => DataCategory::Bitstring,
            AsduTypeId::MMeNa1 | AsduTypeId::MMeTd1 | AsduTypeId::CSeNa1 => DataCategory::NormalizedMeasured,
            AsduTypeId::MMeNb1 | AsduTypeId::MMeTe1 | AsduTypeId::CSeNb1 => DataCategory::ScaledMeasured,
            AsduTypeId::MMeNc1 | AsduTypeId::MMeTf1 | AsduTypeId::CSeNc1 => DataCategory::FloatMeasured,
            AsduTypeId::MItNa1 | AsduTypeId::MItTb1 => DataCategory::IntegratedTotals,
            AsduTypeId::CIcNa1 | AsduTypeId::CCiNa1 | AsduTypeId::CCsNa1 => DataCategory::System,
        }
    }

    /// The standard mnemonic of an ASDU type.
    pub open spec fn spec_name(self) -> Seq<char> {
        match self {
            AsduTypeId::MSpNa1 => "M_SP_NA_1"@,
            AsduTypeId::MSpTb1 => "M_SP_TB_1"@,
            AsduTypeId::MDpNa1 => "M_DP_NA_1"@,
            AsduTypeId::MDpTb1 => "M_DP_TB_1"@,
            AsduTypeId::MStNa1 => "M_ST_NA_1"@,
            AsduTypeId::MStTb1 => "M_ST_TB_1"@,
            AsduTypeId::MBoNa1 => "M_BO_NA_1"@,
            AsduTypeId::MBoTb1 => "M_BO_TB_1"@,
            AsduTypeId::MMeNa1 => "M_ME_NA_1"@,
            AsduTypeId::MMeTd1 => "M_ME_TD_1"@,
            AsduTypeId::MMeNb1 => "M_ME_NB_1"@,
            AsduTypeId::MMeTe1 => "M_ME_TE_1"@,
            AsduTypeId::MMeNc1 => "M_ME_NC_1"@,
            AsduTypeId::MMeTf1 => "M_ME_TF_1"@,
            AsduTypeId::MItNa1 => "M_IT_NA_1"@,
            AsduTypeId::MItTb1 => "M_IT_TB_1"@,
            AsduTypeId::CScNa1 => "C_SC_NA_1"@,
            AsduTypeId::CDcNa1 => "C_DC_NA_1"@,
            AsduTypeId::CRcNa1 => "C_RC_NA_1"@,
            AsduTypeId::CSeNa1 => "C_SE_NA_1"@,
            AsduTypeId::CSeNb1 => "C_SE_NB_1"@,
            AsduTypeId::CSeNc1 => "C_SE_NC_1"@,
            AsduTypeId::CBoNa1 => "C_BO_NA_1"@,
            AsduTypeId::CIcNa1 => "C_IC_NA_1"@,
            AsduTypeId::CCiNa1 => "C_CI_NA_1"@,
            AsduTypeId::CCsNa1 => "C_CS_NA_1"@,
        }
    }

    /// The human-readable description of an ASDU type.
    pub open spec fn spec_description(self) -> Seq<char> {
        match self {
            AsduTypeId::MSpNa1 => "单点信息"@,
            AsduTypeId::MSpTb1 => "带时标的单点信息"@,
            AsduTypeId::MDpNa1 => "双点信息"@,
            AsduTypeId::MDpTb1 => "带时标的双点信息"@,
            AsduTypeId::MStNa1 => "步位置信息"@,
            AsduTypeId::MStTb1 => "带时标的步位置信息"@,
            AsduTypeId::MBoNa1 => "32位串"@,
            AsduTypeId::MBoTb1 => "带时标的32位串"@,
            AsduTypeId::MMeNa1 => "测量值,归一化值"@,
            AsduTypeId::MMeTd1 => "带时标的测量值,归一化值"@,
            AsduTypeId::MMeNb1 => "测量值,标度化值"@,
            AsduTypeId::MMeTe1 => "带时标的测量值,标度化值"@,
            AsduTypeId::MMeNc1 => "测量值,短浮点数"@,
            AsduTypeId::MMeTf1 => "带时标的测量值,短浮点数"@,
            AsduTypeId::MItNa1 => "累计量"@,
            AsduTypeId::MItTb1 => "带时标的累计量"@,
            AsduTypeId::CScNa1 => "单点命令"@,
            AsduTypeId::CDcNa1 => "双点命令"@,
            AsduTypeId::CRcNa1 => "步调节命令"@,
            AsduTypeId::CSeNa1 => "设定值命令,归一化值"@,
            AsduTypeId::CSeNb1 => "设定值命令,标度化值"@,
            AsduTypeId::CSeNc1 => "设定值命令,短浮点数"@,
            AsduTypeId::CBoNa1 => "32位位串命令"@,
            AsduTypeId::CIcNa1 => "总召唤命令"@,
            AsduTypeId::CCiNa1 => "计数量召唤命令"@,
            AsduTypeId::CCsNa1 => "时钟同步命令"@,
        }
    }

    /// Numeric type identification.
    pub fn to_u8(self) -> (b: u8)
        ensures
            b == self.code(),
    {
        match self {
            AsduTypeId::MSpNa1 => 1,
            AsduTypeId::MSpTb1 => 30,
            AsduTypeId::MDpNa1 => 3,
            AsduTypeId::MDpTb1 => 31,
            AsduTypeId::MStNa1 => 5,
            AsduTypeId::MStTb1 => 32,
            AsduTypeId::MBoNa1 => 7,
            AsduTypeId::MBoTb1 => 33,
            AsduTypeId::MMeNa1 => 9,
            AsduTypeId::MMeTd1 => 34,
            AsduTypeId::MMeNb1 => 11,
            AsduTypeId::MMeTe1 => 35,
            AsduTypeId::MMeNc1 => 13,
            AsduTypeId::MMeTf1 => 36,
            AsduTypeId::MItNa1 => 15,
            AsduTypeId::MItTb1 => 37,
            AsduTypeId::CScNa1 => 45,
            AsduTypeId::CDcNa1 => 46,
            AsduTypeId::CRcNa1 => 47,
            AsduTypeId::CSeNa1 => 48,
            AsduTypeId::CSeNb1 => 49,
            AsduTypeId::CSeNc1 => 50,
            AsduTypeId::CBoNa1 => 51,
            AsduTypeId::CIcNa1 => 100,
            AsduTypeId::CCiNa1 => 101,
            AsduTypeId::CCsNa1 => 103,
        }
    }

    /// Look up the ASDU type with the given numeric identification.
    pub fn from_u8(b: u8) -> (t: Option<AsduTypeId>)
        ensures
            t == Self::spec_from_code(b),
    {
        match b {
            1 => Some(AsduTypeId::MSpNa1),
            30 => Some(AsduTypeId::MSpTb1),
            3 => Some(AsduTypeId::MDpNa1),
            31 => Some(AsduTypeId::MDpTb1),
            5 => Some(AsduTypeId::MStNa1),
            32 => Some(AsduTypeId::MStTb1),
            7 => Some(AsduTypeId::MBoNa1),
            33 => Some(AsduTypeId::MBoTb1),
            9 => Some(AsduTypeId::MMeNa1),
            34 => Some(AsduTypeId::MMeTd1),
            11 => Some(AsduTypeId::MMeNb1),
            35 => Some(AsduTypeId::MMeTe1),
            13 => Some(AsduTypeId::MMeNc1),
            36 => Some(AsduTypeId::MMeTf1),
            15 => Some(AsduTypeId::MItNa1),
            37 => Some(AsduTypeId::MItTb1),
            45 => Some(AsduTypeId::CScNa1),
            46 => Some(AsduTypeId::CDcNa1),
            47 => Some(AsduTypeId::CRcNa1),
            48 => Some(AsduTypeId::CSeNa1),
            49 => Some(AsduTypeId::CSeNb1),
            50 => Some(AsduTypeId::CSeNc1),
            51 => Some(AsduTypeId::CBoNa1),
            100 => Some(AsduTypeId::CIcNa1),
            101 => Some(AsduTypeId::CCiNa1),
            103 => Some(AsduTypeId::CCsNa1),
            _ => None,
        }
    }

    /// Category of the values this ASDU type carries.
    pub fn category(self) -> (c: DataCategory)
        ensures
            c == self.spec_category(),
    {
        match self {
            AsduTypeId::MSpNa1 | AsduTypeId::MSpTb1 | AsduTypeId::CScNa1 => DataCategory::SinglePoint,
            AsduTypeId::MDpNa1 | AsduTypeId::MDpTb1 | AsduTypeId::CDcNa1 => DataCategory::DoublePoint,
            AsduTypeId::MStNa1 | AsduTypeId::MStTb1 | AsduTypeId::CRcNa1 => DataCategory::StepPosition,
            AsduTypeId::MBoNa1 | AsduTypeId::MBoTb1 | AsduTypeId::CBoNa1 => DataCategory::Bitstring,
            AsduTypeId::MMeNa1 | AsduTypeId::MMeTd1 | AsduTypeId::CSeNa1 => DataCategory::NormalizedMeasured,
            AsduTypeId::MMeNb1 | AsduTypeId::MMeTe1 | AsduTypeId::CSeNb1 => DataCategory::ScaledMeasured,
            AsduTypeId::MMeNc1 | AsduTypeId::MMeTf1 | AsduTypeId::CSeNc1 => DataCategory::FloatMeasured,
            AsduTypeId::MItNa1 | AsduTypeId::MItTb1 => DataCategory::IntegratedTotals,
            AsduTypeId::CIcNa1 | AsduTypeId::CCiNa1 | AsduTypeId::CCsNa1 => DataCategory::System,
        }
    }

    /// Standard mnemonic, e.g. `M_SP_NA_1`.
    pub fn name(self) -> (s: &'static str)
        ensures
            s@ == self.spec_name(),
    {
        match self {
            AsduTypeId::MSpNa1 => "M_SP_NA_1",
            AsduTypeId::MSpTb1 => "M_SP_TB_1",
            AsduTypeId::MDpNa1 => "M_DP_NA_1",
            AsduTypeId::MDpTb1 => "M_DP_TB_1",
            AsduTypeId::MStNa1 => "M_ST_NA_1",
            AsduTypeId::MStTb1 => "M_ST_TB_1",
            AsduTypeId::MBoNa1 => "M_BO_NA_1",
            AsduTypeId::MBoTb1 => "M_BO_TB_1",
            AsduTypeId::MMeNa1 => "M_ME_NA_1",
            AsduTypeId::MMeTd1 => "M_ME_TD_1",
            AsduTypeId::MMeNb1 => "M_ME_NB_1",
            AsduTypeId::MMeTe1 => "M_ME_TE_1",
            AsduTypeId::MMeNc1 => "M_ME_NC_1",
            AsduTypeId::MMeTf1 => "M_ME_TF_1",
            AsduTypeId::MItNa1 => "M_IT_NA_1",
            AsduTypeId::MItTb1 => "M_IT_TB_1",
            AsduTypeId::CScNa1 => "C_SC_NA_1",
            AsduTypeId::CDcNa1 => "C_DC_NA_1",
            AsduTypeId::CRcNa1 => "C_RC_NA_1",
            AsduTypeId::CSeNa1 => "C_SE_NA_1",
            AsduTypeId::CSeNb1 => "C_SE_NB_1",
            AsduTypeId::CSeNc1 => "C_SE_NC_1",
            AsduTypeId::CBoNa1 => "C_BO_NA_1",
            AsduTypeId::CIcNa1 => "C_IC_NA_1",
            AsduTypeId::CCiNa1 => "C_CI_NA_1",
            AsduTypeId::CCsNa1 => "C_CS_NA_1",
        }
    }

    /// Human-readable description.
    pub fn description(self) -> (s: &'static str)
        ensures
            s@ == self.spec_description(),
    {
        match self {
            AsduTypeId::MSpNa1 => "单点信息",
            AsduTypeId::MSpTb1 => "带时标的单点信息",
            AsduTypeId::MDpNa1 => "双点信息",
            AsduTypeId::MDpTb1 => "带时标的双点信息",
            AsduTypeId::MStNa1 => "步位置信息",
            AsduTypeId::MStTb1 => "带时标的步位置信息",
            AsduTypeId::MBoNa1 => "32位串",
            AsduTypeId::MBoTb1 => "带时标的32位串",
            AsduTypeId::MMeNa1 => "测量值,归一化值",
            AsduTypeId::MMeTd1 => "带时标的测量值,归一化值",
            AsduTypeId::MMeNb1 => "测量值,标度化值",
            AsduTypeId::MMeTe1 => "带时标的测量值,标度化值",
            AsduTypeId::MMeNc1 => "测量值,短浮点数",
            AsduTypeId::MMeTf1 => "带时标的测量值,短浮点数",
            AsduTypeId::MItNa1 => "累计量",
            AsduTypeId::MItTb1 => "带时标的累计量",
            AsduTypeId::CScNa1 => "单点命令",
            AsduTypeId::CDcNa1 => "双点命令",
            AsduTypeId::CRcNa1 => "步调节命令",
            AsduTypeId::CSeNa1 => "设定值命令,归一化值",
            AsduTypeId::CSeNb1 => "设定值命令,标度化值",
            AsduTypeId::CSeNc1 => "设定值命令,短浮点数",
            AsduTypeId::CBoNa1 => "32位位串命令",
            AsduTypeId::CIcNa1 => "总召唤命令",
            AsduTypeId::CCiNa1 => "计数量召唤命令",
            AsduTypeId::CCsNa1 => "时钟同步命令",
        }
    }
}

/// Decoding a type identification inverts encoding it: every ASDU type is
/// found again from its numeric identification, and every identification
/// that names a type names exactly the one it decodes to.
pub proof fn lemma_asdu_type_code_roundtrip(t: AsduTypeId, b: u8)
    ensures
        AsduTypeId::spec_from_code(t.code()) == Some(t),
        AsduTypeId::spec_from_code(b) matches Some(u) ==> u.code() == b,
{
}

impl DataCategory {
    /// Short label of a category.
    pub open spec fn spec_name(self) -> Seq<char> {
        match self {
            DataCategory::SinglePoint => "SP"@,
            DataCategory::DoublePoint => "DP"@,
            DataCategory::StepPosition => "ST"@,
            DataCategory::Bitstring => "BO"@,
            DataCategory::NormalizedMeasured => "ME_NA"@,
            DataCategory::ScaledMeasured => "ME_NB"@,
            DataCategory::FloatMeasured => "ME_NC"@,
            DataCategory::IntegratedTotals => "IT"@,
            DataCategory::System => "SYS"@,
        }
    }

    /// Short label, as shown in the category tree.
    pub fn name(self) -> (s: &'static str)
        ensures
            s@ == self.spec_name(),
    {
        match self {
            DataCategory::SinglePoint => "SP",
            DataCategory::DoublePoint => "DP",
            DataCategory::StepPosition => "ST",
            DataCategory::Bitstring => "BO",
            DataCategory::NormalizedMeasured => "ME_NA",
            DataCategory::ScaledMeasured => "ME_NB",
            DataCategory::FloatMeasured => "ME_NC",
            DataCategory::IntegratedTotals => "IT",
            DataCategory::System => "SYS",
        }
    }
}

/// Quality descriptor bits (QDS): overflow, blocked, substituted, not
/// topical, invalid.
#[derive(Debug, Clone, Copy, PartialEq, Eq, Structural)]
pub struct QualityFlags {
    pub ov: bool,
    pub bl: bool,
    pub sb: bool,
    pub nt: bool,
    pub iv: bool,
}

impl QualityFlags {
    /// The quality of a value with no flag set.
    pub open spec fn spec_good() -> QualityFlags {
        QualityFlags { ov: false, bl: false, sb: false, nt: false, iv: false }
    }

    /// A quality descriptor with every flag cleared.
    pub fn good() -> (q: QualityFlags)
        ensures
            q == Self::spec_good(),
    {
        QualityFlags { ov: false, bl: false, sb: false, nt: false, iv: false }
    }
}

impl Default for QualityFlags {
    fn default() -> (q: QualityFlags)
        ensures
            q == QualityFlags::spec_good(),
    {
        QualityFlags::good()
    }
}

/// Cause of transmission (the low six bits of the COT octet).
#[derive(Debug, Clone, Copy, PartialEq, Eq, Structural)]
pub enum CauseOfTransmission {
    Periodic,
    Background,
    Spontaneous,
    Initialized,
    Request,
    Activation,
    ActivationCon,
    Deactivation,
    DeactivationCon,
    ActivationTerm,
    ReturnInfoRemote,
    ReturnInfoLocal,
    Interrogated,
    CounterInterrogated,
    UnknownType,
    UnknownCause,
    UnknownCommonAddress,
    UnknownIoa,
}

impl CauseOfTransmission {
    /// Numeric value of each cause.
    pub open spec fn code(self) -> u8 {
        match self {
            CauseOfTransmission::Periodic => 1,
            CauseOfTransmission::Background => 2,
            CauseOfTransmission::Spontaneous => 3,
            CauseOfTransmission::Initialized => 4,
            CauseOfTransmission::Request => 5,
            CauseOfTransmission::Activation => 6,
            CauseOfTransmission::ActivationCon => 7,
            CauseOfTransmission::Deactivation => 8,
            CauseOfTransmission::DeactivationCon => 9,
            CauseOfTransmission::ActivationTerm => 10,
            CauseOfTransmission::ReturnInfoRemote => 11,
            CauseOfTransmission::ReturnInfoLocal => 12,
            CauseOfTransmission::Interrogated => 20,
            CauseOfTransmission::CounterInterrogated => 37,
            CauseOfTransmission::UnknownType => 44,
            CauseOfTransmission::UnknownCause => 45,
            CauseOfTransmission::UnknownCommonAddress => 46,
            CauseOfTransmission::UnknownIoa => 47,
        }
    }

    /// The cause with numeric value `b`, if any.
    pub open spec fn spec_from_code(b: u8) -> Option<CauseOfTransmission> {
        if b == 1 { Some(CauseOfTransmission::Periodic) }
        else if b == 2 { Some(CauseOfTransmission::Background) }
        else if b == 3 { Some(CauseOfTransmission::Spontaneous) }
        else if b == 4 { Some(CauseOfTransmission::Initialized) }
        else if b == 5 { Some(CauseOfTransmission::Request) }
        else if b == 6 { Some(CauseOfTransmission::Activation) }
        else if b == 7 { Some(CauseOfTransmission::ActivationCon) }
        else if b == 8 { Some(CauseOfTransmission::Deactivation) }
        else if b == 9 { Some(CauseOfTransmission::DeactivationCon) }
        else if b == 10 { Some(CauseOfTransmission::ActivationTerm) }
        else if b == 11 { Some(CauseOfTransmission::ReturnInfoRemote) }
        else if b == 12 { Some(CauseOfTransmission::ReturnInfoLocal) }
        else if b == 20 { Some(CauseOfTransmission::Interrogated) }
        else if b == 37 { Some(CauseOfTransmission::CounterInterrogated) }
        else if b == 44 { Some(CauseOfTransmission::UnknownType) }
        else if b == 45 { Some(CauseOfTransmission::UnknownCause) }
        else if b == 46 { Some(CauseOfTransmission::UnknownCommonAddress) }
        else if b == 47 { Some(CauseOfTransmission::UnknownIoa) }
        else { None }
    }

    /// Human-readable name of a cause.
    pub open spec fn spec_name(self) -> Seq<char> {
        match self {
            CauseOfTransmission::Periodic => "周期循环"@,
            CauseOfTransmission::Background => "背景扫描"@,
            CauseOfTransmission::Spontaneous => "突发"@,
            CauseOfTransmission::Initialized => "初始化"@,
            CauseOfTransmission::Request => "请求"@,
            CauseOfTransmission::Activation => "激活"@,
            CauseOfTransmission::ActivationCon => "激活确认"@,
            CauseOfTransmission::Deactivation => "停止激活"@,
            CauseOfTransmission::DeactivationCon => "停止激活确认"@,
            CauseOfTransmission::ActivationTerm => "激活终止"@,
            CauseOfTransmission::ReturnInfoRemote => "远方命令引起的返送信息"@,
            CauseOfTransmission::ReturnInfoLocal => "当地命令引起的返送信息"@,
            CauseOfTransmission::Interrogated => "响应站召唤"@,
            CauseOfTransmission::CounterInterrogated => "响应计数量召唤"@,
            CauseOfTransmission::UnknownType => "未知的类型标识"@,
            CauseOfTransmission::UnknownCause => "未知的传送原因"@,
            CauseOfTransmission::UnknownCommonAddress => "未知的公共地址"@,
            CauseOfTransmission::UnknownIoa => "未知的信息对象地址"@,
        }
    }

    /// Look up the cause with the given numeric value.
    pub fn from_u8(b: u8) -> (c: Option<CauseOfTransmission>)
        ensures
            c == Self::spec_from_code(b),
    {
        match b {
            1 => Some(CauseOfTransmission::Periodic),
            2 => Some(CauseOfTransmission::Background),
            3 => Some(CauseOfTransmission::Spontaneous),
            4 => Some(CauseOfTransmission::Initialized),
            5 => Some(CauseOfTransmission::Request),
            6 => Some(CauseOfTransmission::Activation),
            7 => Some(CauseOfTransmission::ActivationCon),
            8 => Some(CauseOfTransmission::Deactivation),
            9 => Some(CauseOfTransmission::DeactivationCon),
            10 => Some(CauseOfTransmission::ActivationTerm),
            11 => Some(CauseOfTransmission::ReturnInfoRemote),
            12 => Some(CauseOfTransmission::ReturnInfoLocal),
            20 => Some(CauseOfTransmission::Interrogated),
            37 => Some(CauseOfTransmission::CounterInterrogated),
            44 => Some(CauseOfTransmission::UnknownType),
            45 => Some(CauseOfTransmission::UnknownCause),
            46 => Some(CauseOfTransmission::UnknownCommonAddress),
            47 => Some(CauseOfTransmission::UnknownIoa),
            _ => None,
        }
    }

    /// Numeric value of the cause.
    pub fn to_u8(self) -> (b: u8)
        ensures
            b == self.code(),
    {
        match self {
            CauseOfTransmission::Periodic => 1,
            CauseOfTransmission::Background => 2,
            CauseOfTransmission::Spontaneous => 3,
            CauseOfTransmission::Initialized => 4,
            CauseOfTransmission::Request => 5,
            CauseOfTransmission::Activation => 6,
            CauseOfTransmission::ActivationCon => 7,
            CauseOfTransmission::Deactivation => 8,
            CauseOfTransmission::DeactivationCon => 9,
            CauseOfTransmission::ActivationTerm => 10,
            CauseOfTransmission::ReturnInfoRemote => 11,
            CauseOfTransmission::ReturnInfoLocal => 12,
            CauseOfTransmission::Interrogated => 20,
            CauseOfTransmission::CounterInterrogated => 37,
            CauseOfTransmission::UnknownType => 44,
            CauseOfTransmission::UnknownCause => 45,
            CauseOfTransmission::UnknownCommonAddress => 46,
            CauseOfTransmission::UnknownIoa => 47,
        }
    }

    /// Human-readable name, e.g. `激活确认` for 7.
    pub fn name(self) -> (s: &'static str)
        ensures
            s@ == self.spec_name(),
    {
        match self {
            CauseOfTransmission::Periodic => "周期循环",
            CauseOfTransmission::Background => "背景扫描",
            CauseOfTransmission::Spontaneous => "突发",
            CauseOfTransmission::Initialized => "初始化",
            CauseOfTransmission::Request => "请求",
            CauseOfTransmission::Activation => "激活",
            CauseOfTransmission::ActivationCon => "激活确认",
            CauseOfTransmission::Deactivation => "停止激活",
            CauseOfTransmission::DeactivationCon => "停止激活确认",
            CauseOfTransmission::ActivationTerm => "激活终止",
            CauseOfTransmission::ReturnInfoRemote => "远方命令引起的返送信息",
            CauseOfTransmission::ReturnInfoLocal => "当地命令引起的返送信息",
            CauseOfTransmission::Interrogated => "响应站召唤",
            CauseOfTransmission::CounterInterrogated => "响应计数量召唤",
            CauseOfTransmission::UnknownType => "未知的类型标识",
            CauseOfTransmission::UnknownCause => "未知的传送原因",
            CauseOfTransmission::UnknownCommonAddress => "未知的公共地址",
            CauseOfTransmission::UnknownIoa => "未知的信息对象地址",
        }
    }
}

/// Decoding a cause of transmission inverts encoding it.
pub proof fn lemma_cause_code_roundtrip(c: CauseOfTransmission, b: u8)
    ensures
        CauseOfTransmission::spec_from_code(c.code()) == Some(c),
        CauseOfTransmission::spec_from_code(b) matches Some(u) ==> u.code() == b,
{
}

} // verus!
