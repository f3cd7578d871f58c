//! Typed core opcode subset and its validation.

use vstd::prelude::*;
use crate::ast::{opcode_diag, Diagnostic, RawOpcode, Severity, SpecDiagnostic, SpecRawOpcode};
use crate::number::{
    all_digits, digits_value, float_syntax, is_float_syntax, parse_signed, parse_signed_exec,
    parse_unsigned, parse_unsigned_exec,
};
use crate::text::{chars_of, eq_chars, occurs_at, slice_of, starts_with, string_of};

verus! {

/// A numeric opcode value, kept as the text that was written. The text is one
/// that `f32::from_str` accepts (see `float_syntax`).
#[derive(Debug, Clone, PartialEq, Eq)]
pub struct Number {
    pub text: String,
}

#[derive(Debug, Clone, Copy, PartialEq, Eq, Structural)]
pub enum LoopMode {
    NoLoop,
    OneShot,
    LoopContinuous,
    LoopSustain,
}

#[derive(Debug, Clone, Copy, PartialEq, Eq, Structural)]
pub enum Trigger {
    Attack,
    Release,
    First,
    Legato,
}

#[derive(Debug, Clone, Copy, PartialEq, Eq, Structural)]
pub enum OffMode {
    Fast,
    Normal,
}

#[derive(Debug, Clone, PartialEq, Eq)]
pub enum ControlIndex {
    Number(u8),
    Variable(String),
}

pub enum SpecControlIndex {
    Number(u8),
    Variable(Seq<char>),
}

impl DeepView for ControlIndex {
    type V = SpecControlIndex;

    open spec fn deep_view(&self) -> SpecControlIndex {
        match self {
            ControlIndex::Number(n) => SpecControlIndex::Number(*n),
            ControlIndex::Variable(s) => SpecControlIndex::Variable(s@),
        }
    }
}

#[derive(Debug, Clone, PartialEq, Eq)]
pub enum Opcode {
    Sample(String),
    Key(u8),
    LoKey(u8),
    HiKey(u8),
    LoVel(u8),
    HiVel(u8),
    PitchKeycenter(u8),
    Offset(u32),
    End(u32),
    LoopMode(LoopMode),
    LoopStart(u32),
    LoopEnd(u32),
    Trigger(Trigger),
    Group(i32),
    OffBy(i32),
    OffMode(OffMode),
    SeqPosition(u32),
    SeqLength(u32),
    Volume(Number),
    Pan(Number),
    AmpVeltrack(Number),
    DefaultPath(String),
    NoteOffset(i16),
    OctaveOffset(i16),
    LabelCc { cc: ControlIndex, label: String },
    SetCc { cc: u8, value: Number },
    CurveIndex(u32),
    CurveValue { index: u8, value: Number },
}

/// The model of `Opcode`; a `Number` is modelled by its text.
pub enum SpecOpcode {
    Sample(Seq<char>),
    Key(u8),
    LoKey(u8),
    HiKey(u8),
    LoVel(u8),
    HiVel(u8),
    PitchKeycenter(u8),
    Offset(u32),
    End(u32),
    LoopMode(LoopMode),
    LoopStart(u32),
    LoopEnd(u32),
    Trigger(Trigger),
    Group(i32),
    OffBy(i32),
    OffMode(OffMode),
    SeqPosition(u32),
    SeqLength(u32),
    Volume(Seq<char>),
    Pan(Seq<char>),
    AmpVeltrack(Seq<char>),
    DefaultPath(Seq<char>),
    NoteOffset(i16),
    OctaveOffset(i16),
    LabelCc { cc: SpecControlIndex, label: Seq<char> },
    SetCc { cc: u8, value: Seq<char> },
    CurveIndex(u32),
    CurveValue { index: u8, value: Seq<char> },
}

impl DeepView for Opcode {
    type V = SpecOpcode;

    open spec fn deep_view(&self) -> SpecOpcode {
        match self {
            Opcode::Sample(s) => SpecOpcode::Sample(s@),
            Opcode::Key(v) => SpecOpcode::Key(*v),
            Opcode::LoKey(v) => SpecOpcode::LoKey(*v),
            Opcode::HiKey(v) => SpecOpcode::HiKey(*v),
            Opcode::LoVel(v) => SpecOpcode::LoVel(*v),
            Opcode::HiVel(v) => SpecOpcode::HiVel(*v),
            Opcode::PitchKeycenter(v) => SpecOpcode::PitchKeycenter(*v),
            Opcode::Offset(v) => SpecOpcode::Offset(*v),
            Opcode::End(v) => SpecOpcode::End(*v),
            Opcode::LoopMode(m) => SpecOpcode::LoopMode(*m),
            Opcode::LoopStart(v) => SpecOpcode::LoopStart(*v),
            Opcode::LoopEnd(v) => SpecOpcode::LoopEnd(*v),
            Opcode::Trigger(t) => SpecOpcode::Trigger(*t),
            Opcode::Group(v) => SpecOpcode::Group(*v),
            Opcode::OffBy(v) => SpecOpcode::OffBy(*v),
            Opcode::OffMode(m) => SpecOpcode::OffMode(*m),
            Opcode::SeqPosition(v) => SpecOpcode::SeqPosition(*v),
            Opcode::SeqLength(v) => SpecOpcode::SeqLength(*v),
            Opcode::Volume(n) => SpecOpcode::Volume(n.text@),
            Opcode::Pan(n) => SpecOpcode::Pan(n.text@),
            Opcode::AmpVeltrack(n) => SpecOpcode::AmpVeltrack(n.text@),
            Opcode::DefaultPath(s) => SpecOpcode::DefaultPath(s@),
            Opcode::NoteOffset(v) => SpecOpcode::NoteOffset(*v),
            Opcode::OctaveOffset(v) => SpecOpcode::OctaveOffset(*v),
            Opcode::LabelCc { cc, label } => SpecOpcode::LabelCc {
                cc: cc.deep_view(),
                label: label@,
            },
            Opcode::SetCc { cc, value } => SpecOpcode::SetCc { cc: *cc, value: value.text@ },
            Opcode::CurveIndex(v) => SpecOpcode::CurveIndex(*v),
            Opcode::CurveValue { index, value } => SpecOpcode::CurveValue {
                index: *index,
                value: value.text@,
            },
        }
    }
}

/// The outcome of validating one raw opcode.
pub enum OpcodeParse {
    Known(Opcode),
    Unknown,
    Invalid(Diagnostic),
}

pub enum SpecOpcodeParse {
    Known(SpecOpcode),
    Unknown,
    Invalid(SpecDiagnostic),
}

impl DeepView for OpcodeParse {
    type V = SpecOpcodeParse;

    open spec fn deep_view(&self) -> SpecOpcodeParse {
        match self {
            OpcodeParse::Known(o) => SpecOpcodeParse::Known(o.deep_view()),
            OpcodeParse::Unknown => SpecOpcodeParse::Unknown,
            OpcodeParse::Invalid(d) => SpecOpcodeParse::Invalid(d.deep_view()),
        }
    }
}

// ---------------------------------------------------------------------------
// Model of validation
// ---------------------------------------------------------------------------

pub open spec fn err_diag(message: Seq<char>, op: SpecRawOpcode) -> SpecDiagnostic {
    opcode_diag(Severity::Error, message, op)
}

/// A MIDI number 0..=127, read as `u16` first.
pub open spec fn midi_value(op: SpecRawOpcode) -> Result<u8, SpecDiagnostic> {
    match parse_unsigned(op.value, 65535) {
        Some(n) => if n <= 127 {
            Ok(n as u8)
        } else {
            Err(err_diag("value must be in MIDI range 0..=127"@, op))
        },
        None => Err(err_diag("expected integer in MIDI range 0..=127"@, op)),
    }
}

pub open spec fn u32_value(op: SpecRawOpcode) -> Result<u32, SpecDiagnostic> {
    match parse_unsigned(op.value, 4294967295) {
        Some(n) => Ok(n as u32),
        None => Err(err_diag("expected unsigned integer"@, op)),
    }
}

pub open spec fn i32_value(op: SpecRawOpcode) -> Result<i32, SpecDiagnostic> {
    match parse_signed(op.value, 2147483647) {
        Some(n) => Ok(n as i32),
        None => Err(err_diag("expected integer"@, op)),
    }
}

pub open spec fn i16_value(op: SpecRawOpcode) -> Result<i16, SpecDiagnostic> {
    match parse_signed(op.value, 32767) {
        Some(n) => Ok(n as i16),
        None => Err(err_diag("expected integer"@, op)),
    }
}

pub open spec fn number_value(op: SpecRawOpcode) -> Result<Seq<char>, SpecDiagnostic> {
    if float_syntax(op.value) {
        Ok(op.value)
    } else {
        Err(err_diag("expected number"@, op))
    }
}

pub open spec fn known_u8(r: Result<u8, SpecDiagnostic>, f: spec_fn(u8) -> SpecOpcode) -> SpecOpcodeParse {
    match r {
        Ok(v) => SpecOpcodeParse::Known(f(v)),
        Err(d) => SpecOpcodeParse::Invalid(d),
    }
}

pub open spec fn known_u32(r: Result<u32, SpecDiagnostic>, f: spec_fn(u32) -> SpecOpcode) -> SpecOpcodeParse {
    match r {
        Ok(v) => SpecOpcodeParse::Known(f(v)),
        Err(d) => SpecOpcodeParse::Invalid(d),
    }
}

pub open spec fn known_i32(r: Result<i32, SpecDiagnostic>, f: spec_fn(i32) -> SpecOpcode) -> SpecOpcodeParse {
    match r {
        Ok(v) => SpecOpcodeParse::Known(f(v)),
        Err(d) => SpecOpcodeParse::Invalid(d),
    }
}

pub open spec fn known_i16(r: Result<i16, SpecDiagnostic>, f: spec_fn(i16) -> SpecOpcode) -> SpecOpcodeParse {
    match r {
        Ok(v) => SpecOpcodeParse::Known(f(v)),
        Err(d) => SpecOpcodeParse::Invalid(d),
    }
}

pub open spec fn known_number(
    r: Result<Seq<char>, SpecDiagnostic>,
    f: spec_fn(Seq<char>) -> SpecOpcode,
) -> SpecOpcodeParse {
    match r {
        Ok(v) => SpecOpcodeParse::Known(f(v)),
        Err(d) => SpecOpcodeParse::Invalid(d),
    }
}

pub open spec fn loop_mode_of(op: SpecRawOpcode) -> SpecOpcodeParse {
    let v = op.value;
    if v == "no_loop"@ {
        SpecOpcodeParse::Known(SpecOpcode::LoopMode(LoopMode::NoLoop))
    } else if v == "one_shot"@ {
        SpecOpcodeParse::Known(SpecOpcode::LoopMode(LoopMode::OneShot))
    } else if v == "loop_continuous"@ {
        SpecOpcodeParse::Known(SpecOpcode::LoopMode(LoopMode::LoopContinuous))
    } else if v == "loop_sustain"@ {
        SpecOpcodeParse::Known(SpecOpcode::LoopMode(LoopMode::LoopSustain))
    } else {
        SpecOpcodeParse::Invalid(err_diag("unknown loop_mode"@, op))
    }
}

pub open spec fn trigger_of(op: SpecRawOpcode) -> SpecOpcodeParse {
    let v = op.value;
    if v == "attack"@ {
        SpecOpcodeParse::Known(SpecOpcode::Trigger(Trigger::Attack))
    } else if v == "release"@ {
        SpecOpcodeParse::Known(SpecOpcode::Trigger(Trigger::Release))
    } else if v == "first"@ {
        SpecOpcodeParse::Known(SpecOpcode::Trigger(Trigger::First))
    } else if v == "legato"@ {
        SpecOpcodeParse::Known(SpecOpcode::Trigger(Trigger::Legato))
    } else {
        SpecOpcodeParse::Invalid(err_diag("unknown trigger"@, op))
    }
}

pub open spec fn off_mode_of(op: SpecRawOpcode) -> SpecOpcodeParse {
    let v = op.value;
    if v == "fast"@ {
        SpecOpcodeParse::Known(SpecOpcode::OffMode(OffMode::Fast))
    } else if v == "normal"@ {
        SpecOpcodeParse::Known(SpecOpcode::OffMode(OffMode::Normal))
    } else {
        SpecOpcodeParse::Invalid(err_diag("unknown off_mode"@, op))
    }
}

/// The CC number or `$VARIABLE` that follows `label_cc`.
pub open spec fn cc_suffix(op: SpecRawOpcode, suffix: Seq<char>) -> Result<
    SpecControlIndex,
    SpecDiagnostic,
> {
    if suffix.len() > 0 && suffix[0] == '$' {
        let variable = suffix.skip(1);
        if variable.len() == 0 {
            Err(err_diag("empty CC variable name"@, op))
        } else {
            Ok(SpecControlIndex::Variable(variable))
        }
    } else {
        match parse_unsigned(suffix, 65535) {
            Some(n) => if n <= 127 {
                Ok(SpecControlIndex::Number(n as u8))
            } else {
                Err(err_diag("CC number must be in range 0..=127"@, op))
            },
            None => Err(err_diag("expected label_ccN or label_cc$VAR"@, op)),
        }
    }
}

pub open spec fn label_cc_of(op: SpecRawOpcode) -> SpecOpcodeParse {
    match cc_suffix(op, op.key.skip(8)) {
        Ok(cc) => SpecOpcodeParse::Known(SpecOpcode::LabelCc { cc, label: op.value }),
        Err(d) => SpecOpcodeParse::Invalid(d),
    }
}

pub open spec fn set_cc_of(op: SpecRawOpcode) -> SpecOpcodeParse {
    match parse_unsigned(op.key.skip(6), 65535) {
        Some(n) => if n <= 127 {
            if float_syntax(op.value) {
                SpecOpcodeParse::Known(SpecOpcode::SetCc { cc: n as u8, value: op.value })
            } else {
                SpecOpcodeParse::Invalid(err_diag("expected numeric CC value"@, op))
            }
        } else {
            SpecOpcodeParse::Invalid(err_diag("CC number must be in range 0..=127"@, op))
        },
        None => SpecOpcodeParse::Invalid(err_diag("expected set_ccN with numeric N"@, op)),
    }
}

/// `v000` through `v127`: a `v` and three ASCII digits denoting at most 127.
pub open spec fn is_curve_value_key_spec(key: Seq<char>) -> bool {
    key.len() == 4 && key[0] == 'v' && all_digits(key.skip(1)) && digits_value(key.skip(1))
        <= 127
}

pub open spec fn curve_value_of(op: SpecRawOpcode) -> SpecOpcodeParse {
    let index = digits_value(op.key.skip(1)) as u8;
    if float_syntax(op.value) {
        SpecOpcodeParse::Known(SpecOpcode::CurveValue { index, value: op.value })
    } else {
        SpecOpcodeParse::Invalid(err_diag("expected curve value number"@, op))
    }
}

/// How one raw opcode is validated: known keys give a typed opcode or, when
/// the value does not fit, an error diagnostic; other keys are unknown.
pub open spec fn parse_opcode_spec(op: SpecRawOpcode) -> SpecOpcodeParse {
    let k = op.key;
    if k == "sample"@ {
        SpecOpcodeParse::Known(SpecOpcode::Sample(op.value))
    } else if k == "key"@ {
        known_u8(midi_value(op), |v: u8| SpecOpcode::Key(v))
    } else if k == "lokey"@ {
        known_u8(midi_value(op), |v: u8| SpecOpcode::LoKey(v))
    } else if k == "hikey"@ {
        known_u8(midi_value(op), |v: u8| SpecOpcode::HiKey(v))
    } else if k == "lovel"@ {
        known_u8(midi_value(op), |v: u8| SpecOpcode::LoVel(v))
    } else if k == "hivel"@ {
        known_u8(midi_value(op), |v: u8| SpecOpcode::HiVel(v))
    } else if k == "pitch_keycenter"@ {
        known_u8(midi_value(op), |v: u8| SpecOpcode::PitchKeycenter(v))
    } else if k == "offset"@ {
        known_u32(u32_value(op), |v: u32| SpecOpcode::Offset(v))
    } else if k == "end"@ {
        known_u32(u32_value(op), |v: u32| SpecOpcode::End(v))
    } else if k == "loop_start"@ {
        known_u32(u32_value(op), |v: u32| SpecOpcode::LoopStart(v))
    } else if k == "loop_end"@ {
        known_u32(u32_value(op), |v: u32| SpecOpcode::LoopEnd(v))
    } else if k == "loop_mode"@ {
        loop_mode_of(op)
    } else if k == "trigger"@ {
        trigger_of(op)
    } else if k == "group"@ {
        known_i32(i32_value(op), |v: i32| SpecOpcode::Group(v))
    } else if k == "off_by"@ {
        known_i32(i32_value(op), |v: i32| SpecOpcode::OffBy(v))
    } else if k == "off_mode"@ {
        off_mode_of(op)
    } else if k == "seq_position"@ {
        known_u32(u32_value(op), |v: u32| SpecOpcode::SeqPosition(v))
    } else if k == "seq_length"@ {
        known_u32(u32_value(op), |v: u32| SpecOpcode::SeqLength(v))
    } else if k == "volume"@ {
        known_number(number_value(op), |v: Seq<char>| SpecOpcode::Volume(v))
    } else if k == "pan"@ {
        known_number(number_value(op), |v: Seq<char>| SpecOpcode::Pan(v))
    } else if k == "amp_veltrack"@ {
        known_number(number_value(op), |v: Seq<char>| SpecOpcode::AmpVeltrack(v))
    } else if k == "default_path"@ {
        SpecOpcodeParse::Known(SpecOpcode::DefaultPath(op.value))
    } else if k == "note_offset"@ {
        known_i16(i16_value(op), |v: i16| SpecOpcode::NoteOffset(v))
    } else if k == "octave_offset"@ {
        known_i16(i16_value(op), |v: i16| SpecOpcode::OctaveOffset(v))
    } else if k == "curve_index"@ {
        known_u32(u32_value(op), |v: u32| SpecOpcode::CurveIndex(v))
    } else if starts_with(k, "label_cc"@) {
        label_cc_of(op)
    } else if starts_with(k, "set_cc"@) {
        set_cc_of(op)
    } else if is_curve_value_key_spec(k) {
        curve_value_of(op)
    } else {
        SpecOpcodeParse::Unknown
    }
}

/// The keys of the typed subset.
pub open spec fn is_known_key(k: Seq<char>) -> bool {
    ||| k == "sample"@
    ||| k == "key"@
    ||| k == "lokey"@
    ||| k == "hikey"@
    ||| k == "lovel"@
    ||| k == "hivel"@
    ||| k == "pitch_keycenter"@
    ||| k == "offset"@
    ||| k == "end"@
    ||| k == "loop_mode"@
    ||| k == "loop_start"@
    ||| k == "loop_end"@
    ||| k == "trigger"@
    ||| k == "group"@
    ||| k == "off_by"@
    ||| k == "off_mode"@
    ||| k == "seq_position"@
    ||| k == "seq_length"@
    ||| k == "volume"@
    ||| k == "pan"@
    ||| k == "amp_veltrack"@
    ||| k == "default_path"@
    ||| k == "note_offset"@
    ||| k == "octave_offset"@
    ||| k == "curve_index"@
    ||| starts_with(k, "label_cc"@)
    ||| starts_with(k, "set_cc"@)
    ||| is_curve_value_key_spec(k)
}

// ---------------------------------------------------------------------------
// Executable validation
// ---------------------------------------------------------------------------

/// Whether `s` is the text of `lit`.
fn is_lit(s: &Vec<char>, lit: &str) -> (r: bool)
    ensures
        r == (s@ == lit@),
{
    eq_chars(s, &chars_of(lit))
}

/// Whether `s` starts with the text of `lit`.
fn has_prefix(s: &Vec<char>, lit: &str) -> (r: bool)
    ensures
        r == starts_with(s@, lit@),
{
    let p = chars_of(lit);
    let r = occurs_at(s, 0, &p);
    assert(s@.skip(0) =~= s@);
    r
}

/// An error diagnostic about `opcode`.
fn error_for(message: &str, opcode: &RawOpcode) -> (d: Diagnostic)
    ensures
        d.deep_view() == err_diag(message@, opcode.deep_view()),
{
    Diagnostic::for_opcode(Severity::Error, message, opcode)
}

/// The value as a MIDI number (see `midi_value`).
fn parse_midi_u8(opcode: &RawOpcode) -> (r: Result<u8, Diagnostic>)
    ensures
        match (r, midi_value(opcode.deep_view())) {
            (Ok(a), Ok(b)) => a == b,
            (Err(a), Err(b)) => a.deep_view() == b,
            _ => false,
        },
{
    match parse_unsigned_exec(&chars_of(opcode.value.as_str()), 65535) {
        Some(n) => if n <= 127 {
            Ok(n as u8)
        } else {
            Err(error_for("value must be in MIDI range 0..=127", opcode))
        },
        None => Err(error_for("expected integer in MIDI range 0..=127", opcode)),
    }
}

/// The value as a `u32` (see `u32_value`).
fn parse_u32(opcode: &RawOpcode) -> (r: Result<u32, Diagnostic>)
    ensures
        match (r, u32_value(opcode.deep_view())) {
            (Ok(a), Ok(b)) => a == b,
            (Err(a), Err(b)) => a.deep_view() == b,
            _ => false,
        },
{
    match parse_unsigned_exec(&chars_of(opcode.value.as_str()), 4294967295) {
        Some(n) => Ok(n as u32),
        None => Err(error_for("expected unsigned integer", opcode)),
    }
}

/// The value as an `i32` (see `i32_value`).
fn parse_i32(opcode: &RawOpcode) -> (r: Result<i32, Diagnostic>)
    ensures
        match (r, i32_value(opcode.deep_view())) {
            (Ok(a), Ok(b)) => a == b,
            (Err(a), Err(b)) => a.deep_view() == b,
            _ => false,
        },
{
    match parse_signed_exec(&chars_of(opcode.value.as_str()), 2147483647) {
        Some(n) => Ok(n as i32),
        None => Err(error_for("expected integer", opcode)),
    }
}

/// The value as an `i16` (see `i16_value`).
fn parse_i16(opcode: &RawOpcode) -> (r: Result<i16, Diagnostic>)
    ensures
        match (r, i16_value(opcode.deep_view())) {
            (Ok(a), Ok(b)) => a == b,
            (Err(a), Err(b)) => a.deep_view() == b,
            _ => false,
        },
{
    match parse_signed_exec(&chars_of(opcode.value.as_str()), 32767) {
        Some(n) => Ok(n as i16),
        None => Err(error_for("expected integer", opcode)),
    }
}

/// The value as a number (see `number_value`).
fn parse_number(opcode: &RawOpcode) -> (r: Result<Number, Diagnostic>)
    ensures
        match (r, number_value(opcode.deep_view())) {
            (Ok(a), Ok(b)) => a.text@ == b,
            (Err(a), Err(b)) => a.deep_view() == b,
            _ => false,
        },
{
    if is_float_syntax(&chars_of(opcode.value.as_str())) {
        Ok(Number { text: opcode.value.clone() })
    } else {
        Err(error_for("expected number", opcode))
    }
}

/// `loop_mode_of(opcode)`.
fn parse_loop_mode(opcode: &RawOpcode) -> (r: OpcodeParse)
    ensures
        r.deep_view() == loop_mode_of(opcode.deep_view()),
{
    let v = chars_of(opcode.value.as_str());
    if is_lit(&v, "no_loop") {
        OpcodeParse::Known(Opcode::LoopMode(LoopMode::NoLoop))
    } else if is_lit(&v, "one_shot") {
        OpcodeParse::Known(Opcode::LoopMode(LoopMode::OneShot))
    } else if is_lit(&v, "loop_continuous") {
        OpcodeParse::Known(Opcode::LoopMode(LoopMode::LoopContinuous))
    } else if is_lit(&v, "loop_sustain") {
        OpcodeParse::Known(Opcode::LoopMode(LoopMode::LoopSustain))
    } else {
        OpcodeParse::Invalid(error_for("unknown loop_mode", opcode))
    }
}

/// `trigger_of(opcode)`.
fn parse_trigger(opcode: &RawOpcode) -> (r: OpcodeParse)
    ensures
        r.deep_view() == trigger_of(opcode.deep_view()),
{
    let v = chars_of(opcode.value.as_str());
    if is_lit(&v, "attack") {
        OpcodeParse::Known(Opcode::Trigger(Trigger::Attack))
    } else if is_lit(&v, "release") {
        OpcodeParse::Known(Opcode::Trigger(Trigger::Release))
    } else if is_lit(&v, "first") {
        OpcodeParse::Known(Opcode::Trigger(Trigger::First))
    } else if is_lit(&v, "legato") {
        OpcodeParse::Known(Opcode::Trigger(Trigger::Legato))
    } else {
        OpcodeParse::Invalid(error_for("unknown trigger", opcode))
    }
}

/// `off_mode_of(opcode)`.
fn parse_off_mode(opcode: &RawOpcode) -> (r: OpcodeParse)
    ensures
        r.deep_view() == off_mode_of(opcode.deep_view()),
{
    let v = chars_of(opcode.value.as_str());
    if is_lit(&v, "fast") {
        OpcodeParse::Known(Opcode::OffMode(OffMode::Fast))
    } else if is_lit(&v, "normal") {
        OpcodeParse::Known(Opcode::OffMode(OffMode::Normal))
    } else {
        OpcodeParse::Invalid(error_for("unknown off_mode", opcode))
    }
}

/// `cc_suffix(opcode, suffix)`.
pub fn parse_cc_suffix(opcode: &RawOpcode, suffix: &Vec<char>) -> (r: Result<ControlIndex, Diagnostic>)
    ensures
        match (r, cc_suffix(opcode.deep_view(), suffix@)) {
            (Ok(a), Ok(b)) => a.deep_view() == b,
            (Err(a), Err(b)) => a.deep_view() == b,
            _ => false,
        },
{
    if suffix.len() > 0 && suffix[0] == '$' {
        let variable = slice_of(suffix, 1, suffix.len());
        assert(variable@ =~= suffix@.skip(1));
        if variable.len() == 0 {
            return Err(error_for("empty CC variable name", opcode));
        }
        return Ok(ControlIndex::Variable(string_of(&variable)));
    }
    match parse_unsigned_exec(suffix, 65535) {
        Some(n) => if n <= 127 {
            Ok(ControlIndex::Number(n as u8))
        } else {
            Err(error_for("CC number must be in range 0..=127", opcode))
        },
        None => Err(error_for("expected label_ccN or label_cc$VAR", opcode)),
    }
}

/// `label_cc_of(opcode)`; `key` holds the opcode's key.
fn parse_label_cc(opcode: &RawOpcode, key: &Vec<char>) -> (r: OpcodeParse)
    requires
        key@ == opcode.key@,
        key@.len() >= 8,
    ensures
        r.deep_view() == label_cc_of(opcode.deep_view()),
{
    let suffix = slice_of(key, 8, key.len());
    assert(suffix@ =~= opcode.key@.skip(8));
    match parse_cc_suffix(opcode, &suffix) {
        Ok(cc) => OpcodeParse::Known(Opcode::LabelCc { cc, label: opcode.value.clone() }),
        Err(d) => OpcodeParse::Invalid(d),
    }
}

/// `set_cc_of(opcode)`; `key` holds the opcode's key.
fn parse_set_cc(opcode: &RawOpcode, key: &Vec<char>) -> (r: OpcodeParse)
    requires
        key@ == opcode.key@,
        key@.len() >= 6,
    ensures
        r.deep_view() == set_cc_of(opcode.deep_view()),
{
    let suffix = slice_of(key, 6, key.len());
    assert(suffix@ =~= opcode.key@.skip(6));
    match parse_unsigned_exec(&suffix, 65535) {
        Some(n) => if n <= 127 {
            if is_float_syntax(&chars_of(opcode.value.as_str())) {
                OpcodeParse::Known(
                    Opcode::SetCc { cc: n as u8, value: Number { text: opcode.value.clone() } },
                )
            } else {
                OpcodeParse::Invalid(error_for("expected numeric CC value", opcode))
            }
        } else {
            OpcodeParse::Invalid(error_for("CC number must be in range 0..=127", opcode))
        },
        None => OpcodeParse::Invalid(error_for("expected set_ccN with numeric N", opcode)),
    }
}

/// Whether `key` is one of `v000` through `v127`.
pub fn is_curve_value_key(key: &Vec<char>) -> (r: bool)
    ensures
        r == is_curve_value_key_spec(key@),
{
    if key.len() != 4 || key[0] != 'v' {
        return false;
    }
    let d = crate::number::digits_upto(key, 1, 4, 127);
    assert(key@.subrange(1, 4) =~= key@.skip(1));
    d.is_some()
}

/// `curve_value_of(opcode)`; `key` holds the opcode's key.
fn parse_curve_value(opcode: &RawOpcode, key: &Vec<char>) -> (r: OpcodeParse)
    requires
        key@ == opcode.key@,
        is_curve_value_key_spec(key@),
    ensures
        r.deep_view() == curve_value_of(opcode.deep_view()),
{
    let d = crate::number::digits_upto(key, 1, 4, 127);
    assert(key@.subrange(1, 4) =~= key@.skip(1));
    let index: u8 = match d {
        Some(v) => v as u8,
        None => 0,
    };
    if is_float_syntax(&chars_of(opcode.value.as_str())) {
        OpcodeParse::Known(Opcode::CurveValue { index, value: Number { text: opcode.value.clone() } })
    } else {
        OpcodeParse::Invalid(error_for("expected curve value number", opcode))
    }
}

/// Validates one raw opcode (see `parse_opcode_spec`).
pub fn parse_opcode(opcode: &RawOpcode) -> (r: OpcodeParse)
    ensures
        r.deep_view() == parse_opcode_spec(opcode.deep_view()),
{
    let k = chars_of(opcode.key.as_str());
    if is_lit(&k, "sample") {
        OpcodeParse::Known(Opcode::Sample(opcode.value.clone()))
    } else if is_lit(&k, "key") {
        match parse_midi_u8(opcode) {
            Ok(v) => OpcodeParse::Known(Opcode::Key(v)),
            Err(d) => OpcodeParse::Invalid(d),
        }
    } else if is_lit(&k, "lokey") {
        match parse_midi_u8(opcode) {
            Ok(v) => OpcodeParse::Known(Opcode::LoKey(v)),
            Err(d) => OpcodeParse::Invalid(d),
        }
    } else if is_lit(&k, "hikey") {
        match parse_midi_u8(opcode) {
            Ok(v) => OpcodeParse::Known(Opcode::HiKey(v)),
            Err(d) => OpcodeParse::Invalid(d),
        }
    } else if is_lit(&k, "lovel") {
        match parse_midi_u8(opcode) {
            Ok(v) => OpcodeParse::Known(Opcode::LoVel(v)),
            Err(d) => OpcodeParse::Invalid(d),
        }
    } else if is_lit(&k, "hivel") {
        match parse_midi_u8(opcode) {
            Ok(v) => OpcodeParse::Known(Opcode::HiVel(v)),
            Err(d) => OpcodeParse::Invalid(d),
        }
    } else if is_lit(&k, "pitch_keycenter") {
        match parse_midi_u8(opcode) {
            Ok(v) => OpcodeParse::Known(Opcode::PitchKeycenter(v)),
            Err(d) => OpcodeParse::Invalid(d),
        }
    } else if is_lit(&k, "offset") {
        match parse_u32(opcode) {
            Ok(v) => OpcodeParse::Known(Opcode::Offset(v)),
            Err(d) => OpcodeParse::Invalid(d),
        }
    } else if is_lit(&k, "end") {
        match parse_u32(opcode) {
            Ok(v) => OpcodeParse::Known(Opcode::End(v)),
            Err(d) => OpcodeParse::Invalid(d),
        }
    } else if is_lit(&k, "loop_start") {
        match parse_u32(opcode) {
            Ok(v) => OpcodeParse::Known(Opcode::LoopStart(v)),
            Err(d) => OpcodeParse::Invalid(d),
        }
    } else if is_lit(&k, "loop_end") {
        match parse_u32(opcode) {
            Ok(v) => OpcodeParse::Known(Opcode::LoopEnd(v)),
            Err(d) => OpcodeParse::Invalid(d),
        }
    } else if is_lit(&k, "loop_mode") {
        parse_loop_mode(opcode)
    } else if is_lit(&k, "trigger") {
        parse_trigger(opcode)
    } else if is_lit(&k, "group") {
        match parse_i32(opcode) {
            Ok(v) => OpcodeParse::Known(Opcode::Group(v)),
            Err(d) => OpcodeParse::Invalid(d),
        }
    } else if is_lit(&k, "off_by") {
        match parse_i32(opcode) {
            Ok(v) => OpcodeParse::Known(Opcode::OffBy(v)),
            Err(d) => OpcodeParse::Invalid(d),
        }
    } else if is_lit(&k, "off_mode") {
        parse_off_mode(opcode)
    } else if is_lit(&k, "seq_position") {
        match parse_u32(opcode) {
            Ok(v) => OpcodeParse::Known(Opcode::SeqPosition(v)),
            Err(d) => OpcodeParse::Invalid(d),
        }
    } else if is_lit(&k, "seq_length") {
        match parse_u32(opcode) {
            Ok(v) => OpcodeParse::Known(Opcode::SeqLength(v)),
            Err(d) => OpcodeParse::Invalid(d),
        }
    } else if is_lit(&k, "volume") {
        match parse_number(opcode) {
            Ok(v) => OpcodeParse::Known(Opcode::Volume(v)),
            Err(d) => OpcodeParse::Invalid(d),
        }
    } else if is_lit(&k, "pan") {
        match parse_number(opcode) {
            Ok(v) => OpcodeParse::Known(Opcode::Pan(v)),
            Err(d) => OpcodeParse::Invalid(d),
        }
    } else if is_lit(&k, "amp_veltrack") {
        match parse_number(opcode) {
            Ok(v) => OpcodeParse::Known(Opcode::AmpVeltrack(v)),
            Err(d) => OpcodeParse::Invalid(d),
        }
    } else if is_lit(&k, "default_path") {
        OpcodeParse::Known(Opcode::DefaultPath(opcode.value.clone()))
    } else if is_lit(&k, "note_offset") {
        match parse_i16(opcode) {
            Ok(v) => OpcodeParse::Known(Opcode::NoteOffset(v)),
            Err(d) => OpcodeParse::Invalid(d),
        }
    } else if is_lit(&k, "octave_offset") {
        match parse_i16(opcode) {
            Ok(v) => OpcodeParse::Known(Opcode::OctaveOffset(v)),
            Err(d) => OpcodeParse::Invalid(d),
        }
    } else if is_lit(&k, "curve_index") {
        match parse_u32(opcode) {
            Ok(v) => OpcodeParse::Known(Opcode::CurveIndex(v)),
            Err(d) => OpcodeParse::Invalid(d),
        }
    } else if has_prefix(&k, "label_cc") {
        proof {
            reveal_strlit("label_cc");
        }
        parse_label_cc(opcode, &k)
    } else if has_prefix(&k, "set_cc") {
        proof {
            reveal_strlit("set_cc");
        }
        parse_set_cc(opcode, &k)
    } else if is_curve_value_key(&k) {
        parse_curve_value(opcode, &k)
    } else {
        OpcodeParse::Unknown
    }
}

/// Whether `key` belongs to the typed subset (see `is_known_key`).
pub fn is_known_opcode_key(key: &Vec<char>) -> (r: bool)
    ensures
        r == is_known_key(key@),
{
    is_lit(key, "sample") || is_lit(key, "key") || is_lit(key, "lokey") || is_lit(key, "hikey")
        || is_lit(key, "lovel") || is_lit(key, "hivel") || is_lit(key, "pitch_keycenter")
        || is_lit(key, "offset") || is_lit(key, "end") || is_lit(key, "loop_mode") || is_lit(
        key,
        "loop_start",
    ) || is_lit(key, "loop_end") || is_lit(key, "trigger") || is_lit(key, "group") || is_lit(
        key,
        "off_by",
    ) || is_lit(key, "off_mode") || is_lit(key, "seq_position") || is_lit(key, "seq_length")
        || is_lit(key, "volume") || is_lit(key, "pan") || is_lit(key, "amp_veltrack") || is_lit(
        key,
        "default_path",
    ) || is_lit(key, "note_offset") || is_lit(key, "octave_offset") || is_lit(
        key,
        "curve_index",
    ) || has_prefix(key, "label_cc") || has_prefix(key, "set_cc") || is_curve_value_key(key)
}

} // verus!
