//! The telemetry protocol proper: the system-status vocabulary, the header
//! detector, the 37-field data row and its decoder with field-level errors.

use vstd::prelude::*;
use vstd::string::StrSliceExecFns;
use vstd::string::StringExecFns;
use crate::chars::chars_of;
use crate::chars::to_upper;
use crate::chars::upper_char;
use crate::chars::trim;
use crate::chars::trim_string;
use crate::numbers::int_val;
use crate::numbers::is_decimal_str;
use crate::numbers::is_decimal_token;
use crate::numbers::is_i32_token;
use crate::numbers::parse_i32;
use crate::numbers::upper_is;
use crate::numbers::upper_is_range;
use crate::tokenize::join_with;
use crate::tokenize::plain_tokens;
use crate::tokenize::lemma_tokens_join;
use crate::tokenize::tokens;
use crate::tokenize::tokenize;
use crate::tokenize::views_of;

verus! {

/// Status reported by the extruder in field 29 of a data row. The named
/// states form a closed vocabulary; anything else is carried verbatim in
/// `Unknown`.
#[allow(non_camel_case_types)]
#[derive(Debug, Clone, PartialEq)]
pub enum SystemStatus {
    IDLE,
    HOMING,
    HEATING,
    PREPARED,
    RUNNING,
    ERROR,
    Unknown(String),
}

/// Mathematical model of a `SystemStatus`.
pub enum StatusModel {
    Idle,
    Homing,
    Heating,
    Prepared,
    Running,
    Error,
    Unknown(Seq<char>),
}

impl View for SystemStatus {
    type V = StatusModel;

    open spec fn view(&self) -> StatusModel {
        match self {
            SystemStatus::IDLE => StatusModel::Idle,
            SystemStatus::HOMING => StatusModel::Homing,
            SystemStatus::HEATING => StatusModel::Heating,
            SystemStatus::PREPARED => StatusModel::Prepared,
            SystemStatus::RUNNING => StatusModel::Running,
            SystemStatus::ERROR => StatusModel::Error,
            SystemStatus::Unknown(t) => StatusModel::Unknown(t@),
        }
    }
}

/// Status named by a raw token: matched case-insensitively after trimming,
/// and otherwise `Unknown` with the token kept verbatim.
pub open spec fn status_of(tok: Seq<char>) -> StatusModel {
    let t = trim(tok);
    if upper_is(t, "IDLE"@) {
        StatusModel::Idle
    } else if upper_is(t, "HOMING"@) {
        StatusModel::Homing
    } else if upper_is(t, "HEATING"@) {
        StatusModel::Heating
    } else if upper_is(t, "PREPARED"@) {
        StatusModel::Prepared
    } else if upper_is(t, "RUNNING"@) {
        StatusModel::Running
    } else if upper_is(t, "ERROR"@) {
        StatusModel::Error
    } else {
        StatusModel::Unknown(tok)
    }
}

impl SystemStatus {
    /// Reads a status token: whitespace around it and letter case are
    /// ignored for the named states; an unrecognized token is kept verbatim.
    pub fn from(s: &str) -> (r: SystemStatus)
        ensures
            r@ == status_of(s@),
    {
        let t = trim_string(s);
        let cs = chars_of(t.as_str());
        let n = cs.len();
        proof {
            assert(cs@.subrange(0, n as int) =~= trim(s@));
        }
        if upper_is_range(&cs, 0, n, "IDLE") {
            SystemStatus::IDLE
        } else if upper_is_range(&cs, 0, n, "HOMING") {
            SystemStatus::HOMING
        } else if upper_is_range(&cs, 0, n, "HEATING") {
            SystemStatus::HEATING
        } else if upper_is_range(&cs, 0, n, "PREPARED") {
            SystemStatus::PREPARED
        } else if upper_is_range(&cs, 0, n, "RUNNING") {
            SystemStatus::RUNNING
        } else if upper_is_range(&cs, 0, n, "ERROR") {
            SystemStatus::ERROR
        } else {
            SystemStatus::Unknown(String::from_str(s))
        }
    }
}

/// One telemetry sample: 37 positional fields. Decimal-valued fields keep
/// their (trimmed) token text, validated against the decimal grammar;
/// integer-coded fields are parsed 32-bit values; field 29 is the status.
#[derive(Debug, Clone, PartialEq)]
pub struct DataRow {
    pub time: String,
    pub set_t1: String,
    pub temp1: String,
    pub dc1: String,
    pub err1: i32,
    pub set_t2: String,
    pub temp2: String,
    pub dc2: String,
    pub err2: i32,
    pub set_t3: String,
    pub temp3: String,
    pub dc3: String,
    pub err3: i32,
    pub set_t4: String,
    pub temp4: String,
    pub dc4: String,
    pub err4: i32,
    pub int_t4: String,
    pub ext_cur: String,
    pub ext_pwm: i32,
    pub ext_tmp: String,
    pub unused: i32,
    pub fault: i32,
    pub set_rpm: String,
    pub rpm: String,
    pub ft: String,
    pub ft_avg: String,
    pub puller: i32,
    pub mem_free: i32,
    pub status: SystemStatus,
    pub wndr_spd: String,
    pub pos_spd: String,
    pub length: String,
    pub volume: String,
    pub sp_dia: String,
    pub sp_fill: String,
    pub fs_int_t: i32,
}

/// Mathematical model of a `DataRow`.
#[verifier::ext_equal]
pub struct RowModel {
    pub time: Seq<char>,
    pub set_t1: Seq<char>,
    pub temp1: Seq<char>,
    pub dc1: Seq<char>,
    pub err1: int,
    pub set_t2: Seq<char>,
    pub temp2: Seq<char>,
    pub dc2: Seq<char>,
    pub err2: int,
    pub set_t3: Seq<char>,
    pub temp3: Seq<char>,
    pub dc3: Seq<char>,
    pub err3: int,
    pub set_t4: Seq<char>,
    pub temp4: Seq<char>,
    pub dc4: Seq<char>,
    pub err4: int,
    pub int_t4: Seq<char>,
    pub ext_cur: Seq<char>,
    pub ext_pwm: int,
    pub ext_tmp: Seq<char>,
    pub unused: int,
    pub fault: int,
    pub set_rpm: Seq<char>,
    pub rpm: Seq<char>,
    pub ft: Seq<char>,
    pub ft_avg: Seq<char>,
    pub puller: int,
    pub mem_free: int,
    pub status: StatusModel,
    pub wndr_spd: Seq<char>,
    pub pos_spd: Seq<char>,
    pub length: Seq<char>,
    pub volume: Seq<char>,
    pub sp_dia: Seq<char>,
    pub sp_fill: Seq<char>,
    pub fs_int_t: int,
}

impl View for DataRow {
    type V = RowModel;

    open spec fn view(&self) -> RowModel {
        RowModel {
            time: self.time@,
            set_t1: self.set_t1@,
            temp1: self.temp1@,
            dc1: self.dc1@,
            err1: self.err1 as int,
            set_t2: self.set_t2@,
            temp2: self.temp2@,
            dc2: self.dc2@,
            err2: self.err2 as int,
            set_t3: self.set_t3@,
            temp3: self.temp3@,
            dc3: self.dc3@,
            err3: self.err3 as int,
            set_t4: self.set_t4@,
            temp4: self.temp4@,
            dc4: self.dc4@,
            err4: self.err4 as int,
            int_t4: self.int_t4@,
            ext_cur: self.ext_cur@,
            ext_pwm: self.ext_pwm as int,
            ext_tmp: self.ext_tmp@,
            unused: self.unused as int,
            fault: self.fault as int,
            set_rpm: self.set_rpm@,
            rpm: self.rpm@,
            ft: self.ft@,
            ft_avg: self.ft_avg@,
            puller: self.puller as int,
            mem_free: self.mem_free as int,
            status: self.status@,
            wndr_spd: self.wndr_spd@,
            pos_spd: self.pos_spd@,
            length: self.length@,
            volume: self.volume@,
            sp_dia: self.sp_dia@,
            sp_fill: self.sp_fill@,
            fs_int_t: self.fs_int_t as int,
        }
    }
}

/// Why a line was rejected as a data row: the wrong number of fields, or one
/// field whose text does not parse as its designated numeric type.
#[derive(Debug, Clone, PartialEq)]
pub enum DecodeError {
    FieldCount { count: usize, line: String },
    Field { name: String, index: usize, token: String },
}

/// Mathematical model of a `DecodeError`.
#[verifier::ext_equal]
pub enum DecodeErrorModel {
    FieldCount { count: int, line: Seq<char> },
    Field { name: Seq<char>, index: int, token: Seq<char> },
}

impl View for DecodeError {
    type V = DecodeErrorModel;

    open spec fn view(&self) -> DecodeErrorModel {
        match self {
            DecodeError::FieldCount { count, line } => DecodeErrorModel::FieldCount {
                count: *count as int,
                line: line@,
            },
            DecodeError::Field { name, index, token } => DecodeErrorModel::Field {
                name: name@,
                index: *index as int,
                token: token@,
            },
        }
    }
}

/// The positions whose fields are integer-coded; every other numeric
/// position holds a decimal field, and position 29 holds the status.
pub open spec fn int_field(i: int) -> bool {
    i == 4 || i == 8 || i == 12 || i == 16 || i == 19 || i == 21 || i == 22 || i == 27 || i == 28
        || i == 36
}

fn int_field_at(i: usize) -> (b: bool)
    ensures
        b == int_field(i as int),
{
    i == 4 || i == 8 || i == 12 || i == 16 || i == 19 || i == 21 || i == 22 || i == 27 || i == 28
        || i == 36
}

/// The column name of each of the 37 positions.
pub open spec fn field_name_spec(i: int) -> Seq<char> {
    if i == 0 {
        "Time"@
    } else if i == 1 {
        "SetT1"@
    } else if i == 2 {
        "Temp1"@
    } else if i == 3 {
        "dc1"@
    } else if i == 4 {
        "Err1"@
    } else if i == 5 {
        "SetT2"@
    } else if i == 6 {
        "Temp2"@
    } else if i == 7 {
        "dc2"@
    } else if i == 8 {
        "Err2"@
    } else if i == 9 {
        "SetT3"@
    } else if i == 10 {
        "Temp3"@
    } else if i == 11 {
        "dc3"@
    } else if i == 12 {
        "Err3"@
    } else if i == 13 {
        "SetT4"@
    } else if i == 14 {
        "Temp4"@
    } else if i == 15 {
        "dc4"@
    } else if i == 16 {
        "Err4"@
    } else if i == 17 {
        "intT4"@
    } else if i == 18 {
        "ExtCur"@
    } else if i == 19 {
        "ExtPWM"@
    } else if i == 20 {
        "ExtTmp"@
    } else if i == 21 {
        "Unused"@
    } else if i == 22 {
        "FAULT"@
    } else if i == 23 {
        "SetRPM"@
    } else if i == 24 {
        "RPM"@
    } else if i == 25 {
        "FT"@
    } else if i == 26 {
        "FTAVG"@
    } else if i == 27 {
        "Puller"@
    } else if i == 28 {
        "MemFree"@
    } else if i == 29 {
        "Status"@
    } else if i == 30 {
        "WndrSpd"@
    } else if i == 31 {
        "PosSpd"@
    } else if i == 32 {
        "Length"@
    } else if i == 33 {
        "Volume"@
    } else if i == 34 {
        "SpDia"@
    } else if i == 35 {
        "SpFill"@
    } else {
        "FsIntT"@
    }
}

fn field_name(i: usize) -> (r: &'static str)
    requires
        i < 37,
    ensures
        r@ == field_name_spec(i as int),
{
    if i == 0 {
        "Time"
    } else if i == 1 {
        "SetT1"
    } else if i == 2 {
        "Temp1"
    } else if i == 3 {
        "dc1"
    } else if i == 4 {
        "Err1"
    } else if i == 5 {
        "SetT2"
    } else if i == 6 {
        "Temp2"
    } else if i == 7 {
        "dc2"
    } else if i == 8 {
        "Err2"
    } else if i == 9 {
        "SetT3"
    } else if i == 10 {
        "Temp3"
    } else if i == 11 {
        "dc3"
    } else if i == 12 {
        "Err3"
    } else if i == 13 {
        "SetT4"
    } else if i == 14 {
        "Temp4"
    } else if i == 15 {
        "dc4"
    } else if i == 16 {
        "Err4"
    } else if i == 17 {
        "intT4"
    } else if i == 18 {
        "ExtCur"
    } else if i == 19 {
        "ExtPWM"
    } else if i == 20 {
        "ExtTmp"
    } else if i == 21 {
        "Unused"
    } else if i == 22 {
        "FAULT"
    } else if i == 23 {
        "SetRPM"
    } else if i == 24 {
        "RPM"
    } else if i == 25 {
        "FT"
    } else if i == 26 {
        "FTAVG"
    } else if i == 27 {
        "Puller"
    } else if i == 28 {
        "MemFree"
    } else if i == 29 {
        "Status"
    } else if i == 30 {
        "WndrSpd"
    } else if i == 31 {
        "PosSpd"
    } else if i == 32 {
        "Length"
    } else if i == 33 {
        "Volume"
    } else if i == 34 {
        "SpDia"
    } else if i == 35 {
        "SpFill"
    } else {
        "FsIntT"
    }
}

/// Position `i` of the token list parses as its designated type. The status
/// position always does.
pub open spec fn field_ok(toks: Seq<Seq<char>>, i: int) -> bool {
    if i == 29 {
        true
    } else if int_field(i) {
        is_i32_token(trim(toks[i]))
    } else {
        is_decimal_token(trim(toks[i]))
    }
}

pub open spec fn all_fields_ok(toks: Seq<Seq<char>>) -> bool {
    forall|i: int| 0 <= i < 37 ==> #[trigger] field_ok(toks, i)
}

/// The least position in `i..37` whose field does not parse, or 37 if all do.
pub open spec fn first_bad_from(toks: Seq<Seq<char>>, i: int) -> int
    decreases 37 - i,
{
    if i < 0 || i >= 37 {
        37
    } else if !field_ok(toks, i) {
        i
    } else {
        first_bad_from(toks, i + 1)
    }
}

pub proof fn lemma_first_bad_is(toks: Seq<Seq<char>>, i: int, b: int)
    requires
        0 <= i <= b <= 37,
        forall|j: int| i <= j < b ==> #[trigger] field_ok(toks, j),
        b < 37 ==> !field_ok(toks, b),
    ensures
        first_bad_from(toks, i) == b,
    decreases b - i,
{
    if i < b {
        lemma_first_bad_is(toks, i + 1, b);
    }
}

/// The model row read off a token list on which every field parses.
pub open spec fn row_model(toks: Seq<Seq<char>>) -> RowModel {
    RowModel {
        time: trim(toks[0]),
        set_t1: trim(toks[1]),
        temp1: trim(toks[2]),
        dc1: trim(toks[3]),
        err1: int_val(trim(toks[4])),
        set_t2: trim(toks[5]),
        temp2: trim(toks[6]),
        dc2: trim(toks[7]),
        err2: int_val(trim(toks[8])),
        set_t3: trim(toks[9]),
        temp3: trim(toks[10]),
        dc3: trim(toks[11]),
        err3: int_val(trim(toks[12])),
        set_t4: trim(toks[13]),
        temp4: trim(toks[14]),
        dc4: trim(toks[15]),
        err4: int_val(trim(toks[16])),
        int_t4: trim(toks[17]),
        ext_cur: trim(toks[18]),
        ext_pwm: int_val(trim(toks[19])),
        ext_tmp: trim(toks[20]),
        unused: int_val(trim(toks[21])),
        fault: int_val(trim(toks[22])),
        set_rpm: trim(toks[23]),
        rpm: trim(toks[24]),
        ft: trim(toks[25]),
        ft_avg: trim(toks[26]),
        puller: int_val(trim(toks[27])),
        mem_free: int_val(trim(toks[28])),
        status: status_of(toks[29]),
        wndr_spd: trim(toks[30]),
        pos_spd: trim(toks[31]),
        length: trim(toks[32]),
        volume: trim(toks[33]),
        sp_dia: trim(toks[34]),
        sp_fill: trim(toks[35]),
        fs_int_t: int_val(trim(toks[36])),
    }
}

/// What decoding one line yields: a row exactly when the line has at least
/// 37 tokens and every numeric field parses; otherwise the one error the
/// line deserves, naming the first offending position.
pub open spec fn decode_result(line: Seq<char>) -> Result<RowModel, DecodeErrorModel> {
    let toks = tokens(line);
    if toks.len() < 37 {
        Err(DecodeErrorModel::FieldCount { count: toks.len() as int, line: line })
    } else {
        let b = first_bad_from(toks, 0);
        if b < 37 {
            Err(
                DecodeErrorModel::Field {
                    name: field_name_spec(b),
                    index: b,
                    token: toks[b],
                },
            )
        } else {
            Ok(row_model(toks))
        }
    }
}

impl DataRow {
    /// A row is only ever constructed fully populated: every decimal field
    /// holds text that the decimal grammar accepts.
    pub open spec fn wf(&self) -> bool {
        &&& is_decimal_token(self.time@)
        &&& is_decimal_token(self.set_t1@)
        &&& is_decimal_token(self.temp1@)
        &&& is_decimal_token(self.dc1@)
        &&& is_decimal_token(self.set_t2@)
        &&& is_decimal_token(self.temp2@)
        &&& is_decimal_token(self.dc2@)
        &&& is_decimal_token(self.set_t3@)
        &&& is_decimal_token(self.temp3@)
        &&& is_decimal_token(self.dc3@)
        &&& is_decimal_token(self.set_t4@)
        &&& is_decimal_token(self.temp4@)
        &&& is_decimal_token(self.dc4@)
        &&& is_decimal_token(self.int_t4@)
        &&& is_decimal_token(self.ext_cur@)
        &&& is_decimal_token(self.ext_tmp@)
        &&& is_decimal_token(self.set_rpm@)
        &&& is_decimal_token(self.rpm@)
        &&& is_decimal_token(self.ft@)
        &&& is_decimal_token(self.ft_avg@)
        &&& is_decimal_token(self.wndr_spd@)
        &&& is_decimal_token(self.pos_spd@)
        &&& is_decimal_token(self.length@)
        &&& is_decimal_token(self.volume@)
        &&& is_decimal_token(self.sp_dia@)
        &&& is_decimal_token(self.sp_fill@)
    }

    /// Decode one line as a data row, against `decode_result` of the line.
    #[verifier::rlimit(100)]
    pub fn parse(line: &str) -> (r: Result<DataRow, DecodeError>)
        ensures
            r matches Ok(row) ==> decode_result(line@) == Ok::<RowModel, DecodeErrorModel>(row@),
            r matches Ok(row) ==> row.wf(),
            r matches Err(e) ==> decode_result(line@) == Err::<RowModel, DecodeErrorModel>(e@),
    {
        let toks = tokenize(line);
        let ghost tv = tokens(line@);
        proof {
            assert(views_of(toks@) == tv);
            assert forall|k: int| 0 <= k < toks@.len() implies #[trigger] toks@[k]@ == tv[k] by {
                assert(views_of(toks@)[k] == toks@[k]@);
            }
        }
        if toks.len() < 37 {
            let e = DecodeError::FieldCount { count: toks.len(), line: String::from_str(line) };
            return Err(e);
        }
        let mut i: usize = 0;
        while i < 37
            invariant
                toks@.len() >= 37,
                tv == tokens(line@),
                views_of(toks@) == tv,
                forall|k: int| 0 <= k < toks@.len() ==> #[trigger] toks@[k]@ == tv[k],
                i <= 37,
                forall|j: int| 0 <= j < i ==> #[trigger] field_ok(tv, j),
            decreases 37 - i,
        {
            if i != 29 {
                let t = trim_string(toks[i].as_str());
                let ok = if int_field_at(i) {
                    parse_i32(t.as_str()).is_some()
                } else {
                    is_decimal_str(t.as_str())
                };
                if !ok {
                    proof {
                        assert(!field_ok(tv, i as int));
                        lemma_first_bad_is(tv, 0, i as int);
                    }
                    let e = DecodeError::Field {
                        name: String::from_str(field_name(i)),
                        index: i,
                        token: toks[i].clone(),
                    };
                    return Err(e);
                }
                proof {
                    assert(field_ok(tv, i as int));
                }
            } else {
                proof {
                    assert(field_ok(tv, 29));
                }
            }
            i = i + 1;
        }
        proof {
            lemma_first_bad_is(tv, 0, 37);
            assert forall|j: int| 0 <= j < 37 && j != 29 && !int_field(j) implies is_decimal_token(
                #[trigger] trim(tv[j]),
            ) by {
                assert(field_ok(tv, j));
            }
            assert(field_ok(tv, 4));
            assert(field_ok(tv, 8));
            assert(field_ok(tv, 12));
            assert(field_ok(tv, 16));
            assert(field_ok(tv, 19));
            assert(field_ok(tv, 21));
            assert(field_ok(tv, 22));
            assert(field_ok(tv, 27));
            assert(field_ok(tv, 28));
            assert(field_ok(tv, 36));
        }
        let row = DataRow {
            time: trim_string(toks[0].as_str()),
            set_t1: trim_string(toks[1].as_str()),
            temp1: trim_string(toks[2].as_str()),
            dc1: trim_string(toks[3].as_str()),
            err1: parse_i32(trim_string(toks[4].as_str()).as_str()).unwrap(),
            set_t2: trim_string(toks[5].as_str()),
            temp2: trim_string(toks[6].as_str()),
            dc2: trim_string(toks[7].as_str()),
            err2: parse_i32(trim_string(toks[8].as_str()).as_str()).unwrap(),
            set_t3: trim_string(toks[9].as_str()),
            temp3: trim_string(toks[10].as_str()),
            dc3: trim_string(toks[11].as_str()),
            err3: parse_i32(trim_string(toks[12].as_str()).as_str()).unwrap(),
            set_t4: trim_string(toks[13].as_str()),
            temp4: trim_string(toks[14].as_str()),
            dc4: trim_string(toks[15].as_str()),
            err4: parse_i32(trim_string(toks[16].as_str()).as_str()).unwrap(),
            int_t4: trim_string(toks[17].as_str()),
            ext_cur: trim_string(toks[18].as_str()),
            ext_pwm: parse_i32(trim_string(toks[19].as_str()).as_str()).unwrap(),
            ext_tmp: trim_string(toks[20].as_str()),
            unused: parse_i32(trim_string(toks[21].as_str()).as_str()).unwrap(),
            fault: parse_i32(trim_string(toks[22].as_str()).as_str()).unwrap(),
            set_rpm: trim_string(toks[23].as_str()),
            rpm: trim_string(toks[24].as_str()),
            ft: trim_string(toks[25].as_str()),
            ft_avg: trim_string(toks[26].as_str()),
            puller: parse_i32(trim_string(toks[27].as_str()).as_str()).unwrap(),
            mem_free: parse_i32(trim_string(toks[28].as_str()).as_str()).unwrap(),
            status: SystemStatus::from(toks[29].as_str()),
            wndr_spd: trim_string(toks[30].as_str()),
            pos_spd: trim_string(toks[31].as_str()),
            length: trim_string(toks[32].as_str()),
            volume: trim_string(toks[33].as_str()),
            sp_dia: trim_string(toks[34].as_str()),
            sp_fill: trim_string(toks[35].as_str()),
            fs_int_t: parse_i32(trim_string(toks[36].as_str()).as_str()).unwrap(),
        };
        proof {
            assert(row@ =~= row_model(tv));
            assert(row.wf()) by {
                assert(is_decimal_token(trim(tv[0])));
                assert(is_decimal_token(trim(tv[1])));
                assert(is_decimal_token(trim(tv[2])));
                assert(is_decimal_token(trim(tv[3])));
                assert(is_decimal_token(trim(tv[5])));
                assert(is_decimal_token(trim(tv[6])));
                assert(is_decimal_token(trim(tv[7])));
                assert(is_decimal_token(trim(tv[9])));
                assert(is_decimal_token(trim(tv[10])));
                assert(is_decimal_token(trim(tv[11])));
                assert(is_decimal_token(trim(tv[13])));
                assert(is_decimal_token(trim(tv[14])));
                assert(is_decimal_token(trim(tv[15])));
                assert(is_decimal_token(trim(tv[17])));
                assert(is_decimal_token(trim(tv[18])));
                assert(is_decimal_token(trim(tv[20])));
                assert(is_decimal_token(trim(tv[23])));
                assert(is_decimal_token(trim(tv[24])));
                assert(is_decimal_token(trim(tv[25])));
                assert(is_decimal_token(trim(tv[26])));
                assert(is_decimal_token(trim(tv[30])));
                assert(is_decimal_token(trim(tv[31])));
                assert(is_decimal_token(trim(tv[32])));
                assert(is_decimal_token(trim(tv[33])));
                assert(is_decimal_token(trim(tv[34])));
                assert(is_decimal_token(trim(tv[35])));
            }
        }
        Ok(row)
    }
}

/// A line of at least 37 tokens, every field of which parses as its
/// designated type, decodes to the row read off its tokens: each output
/// field equals (the value of) the corresponding trimmed input token.
pub proof fn lemma_decode_wellformed(line: Seq<char>)
    requires
        tokens(line).len() >= 37,
        all_fields_ok(tokens(line)),
    ensures
        decode_result(line) == Ok::<RowModel, DecodeErrorModel>(row_model(tokens(line))),
{
    lemma_first_bad_is(tokens(line), 0, 37);
}

/// A line with fewer than 37 tokens is rejected outright, reporting the
/// actual count and the line itself; no partial row exists.
pub proof fn lemma_count_mismatch(line: Seq<char>)
    requires
        tokens(line).len() < 37,
    ensures
        decode_result(line) == Err::<RowModel, DecodeErrorModel>(
            (DecodeErrorModel::FieldCount { count: tokens(line).len() as int, line: line }),
        ),
{
}

/// If exactly one of the 37 positions fails to parse, the error names that
/// position, its column name, and its raw token — never a different one.
pub proof fn lemma_field_error_locality(line: Seq<char>, i: int)
    requires
        tokens(line).len() >= 37,
        0 <= i < 37,
        !field_ok(tokens(line), i),
        forall|j: int| 0 <= j < 37 && j != i ==> #[trigger] field_ok(tokens(line), j),
    ensures
        decode_result(line) == Err::<RowModel, DecodeErrorModel>(
            (DecodeErrorModel::Field {
                name: field_name_spec(i),
                index: i,
                token: tokens(line)[i],
            }),
        ),
{
    lemma_first_bad_is(tokens(line), 0, i);
}

/// Decoding is a pure function of the line text: equal lines yield equal
/// results, and decoding touches no state.
pub proof fn lemma_decode_pure(l1: Seq<char>, l2: Seq<char>)
    requires
        l1 == l2,
    ensures
        decode_result(l1) == decode_result(l2),
{
}

/// The same logical row rendered tab-delimited or single-space-delimited
/// tokenizes identically, and (with enough tokens) decodes identically,
/// field for field.
pub proof fn lemma_delimiter_invariant(toks: Seq<Seq<char>>)
    requires
        plain_tokens(toks),
    ensures
        tokens(join_with(toks, '\t')) == tokens(join_with(toks, ' ')),
        toks.len() >= 37 ==> decode_result(join_with(toks, '\t')) == decode_result(
            join_with(toks, ' '),
        ),
{
    lemma_tokens_join(toks);
    if toks.len() >= 37 {
        let b = first_bad_from(toks, 0);
        if b < 37 {
            assert(decode_result(join_with(toks, '\t')) == decode_result(join_with(toks, ' ')));
        } else {
            assert(decode_result(join_with(toks, '\t')) == decode_result(join_with(toks, ' ')));
        }
    }
}

/// The word `w` (upper case) stands at offset `at` of `s`, compared without
/// regard to case.
pub open spec fn match_ci_at(s: Seq<char>, w: Seq<char>, at: int) -> bool {
    forall|k: int| 0 <= k < w.len() ==> to_upper(#[trigger] s[at + k]) == w[k]
}

/// The word `w` (upper case) occurs in `s`, compared without regard to case.
pub open spec fn contains_ci(s: Seq<char>, w: Seq<char>) -> bool {
    exists|at: int| 0 <= at && at + w.len() <= s.len() && #[trigger] match_ci_at(s, w, at)
}

/// A line whose first characters spell TIME and which mentions SETT1 and
/// TEMP1 somewhere, all compared without regard to case.
pub open spec fn is_header_of(s: Seq<char>) -> bool {
    &&& "TIME"@.len() <= s.len()
    &&& match_ci_at(s, "TIME"@, 0)
    &&& contains_ci(s, "SETT1"@)
    &&& contains_ci(s, "TEMP1"@)
}

fn match_ci_at_str(cs: &Vec<char>, w: &str, at: usize) -> (b: bool)
    requires
        at + w@.len() <= cs@.len(),
    ensures
        b == match_ci_at(cs@, w@, at as int),
{
    let m = w.unicode_len();
    let n = cs.len();
    let mut k: usize = 0;
    while k < m
        invariant
            m == w@.len(),
            n == cs@.len(),
            at + m <= n,
            k <= m,
            forall|j: int| 0 <= j < k ==> to_upper(#[trigger] cs@[at + j]) == w@[j],
        decreases m - k,
    {
        if upper_char(cs[at + k]) != w.get_char(k) {
            proof {
                assert(to_upper(cs@[at + k as int]) != w@[k as int]);
            }
            return false;
        }
        k = k + 1;
    }
    true
}

fn contains_ci_str(cs: &Vec<char>, w: &str) -> (b: bool)
    ensures
        b == contains_ci(cs@, w@),
{
    let m = w.unicode_len();
    let n = cs.len();
    if m > n {
        return false;
    }
    let mut at: usize = 0;
    while at <= n - m
        invariant
            m == w@.len(),
            n == cs@.len(),
            m <= n,
            at <= n,
            forall|p: int| 0 <= p < at ==> !match_ci_at(cs@, w@, p),
        decreases n - at,
    {
        if match_ci_at_str(cs, w, at) {
            return true;
        }
        at = at + 1;
    }
    false
}

/// Is this line the device's column-header announcement?
pub fn is_header_line(line: &str) -> (b: bool)
    ensures
        b == is_header_of(line@),
{
    let cs = chars_of(line);
    let m = "TIME".unicode_len();
    if cs.len() < m {
        return false;
    }
    match_ci_at_str(&cs, "TIME", 0) && contains_ci_str(&cs, "SETT1") && contains_ci_str(
        &cs,
        "TEMP1",
    )
}

/// Header detection sees only the case-folded line: two lines equal up to
/// letter case are either both headers or both not.
pub proof fn lemma_header_case_insensitive(l1: Seq<char>, l2: Seq<char>)
    requires
        l1.len() == l2.len(),
        forall|i: int| 0 <= i < l1.len() ==> to_upper(#[trigger] l1[i]) == to_upper(l2[i]),
    ensures
        is_header_of(l1) == is_header_of(l2),
{
    assert forall|w: Seq<char>, at: int|
        0 <= at && at + w.len() <= l1.len() && #[trigger] match_ci_at(l1, w, at) implies match_ci_at(
        l2,
        w,
        at,
    ) by {
        assert forall|k: int| 0 <= k < w.len() implies to_upper(#[trigger] l2[at + k]) == w[k] by {
            assert(to_upper(l1[at + k]) == w[k]);
        }
    }
    assert forall|w: Seq<char>, at: int|
        0 <= at && at + w.len() <= l2.len() && #[trigger] match_ci_at(l2, w, at) implies match_ci_at(
        l1,
        w,
        at,
    ) by {
        assert forall|k: int| 0 <= k < w.len() implies to_upper(#[trigger] l1[at + k]) == w[k] by {
            assert(to_upper(l2[at + k]) == w[k]);
        }
    }
}

} // verus!
