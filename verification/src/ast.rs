//! Public data model for raw and resolved SFZ documents, with the
//! mathematical model (`Spec*` types) that the contracts speak of.

use vstd::prelude::*;
use crate::opcode_mapping::{Opcode, SpecOpcode};
use crate::text::{ascii_lower, chars_of, eq_chars, lower_ch, string_of, trim, trimmed};

verus! {

/// 1-based source location. The column counts bytes.
#[derive(Debug, Clone, Copy, PartialEq, Eq, Structural)]
pub struct SourceSpan {
    pub line: usize,
    pub column: usize,
}

#[derive(Debug, Clone, Copy, PartialEq, Eq, Structural)]
pub enum Severity {
    Warning,
    Error,
}

/// A raw SFZ opcode assignment.
#[derive(Debug, Clone, PartialEq, Eq)]
pub struct RawOpcode {
    pub key: String,
    pub value: String,
    pub span: Option<SourceSpan>,
}

pub struct SpecRawOpcode {
    pub key: Seq<char>,
    pub value: Seq<char>,
    pub span: Option<SourceSpan>,
}

impl DeepView for RawOpcode {
    type V = SpecRawOpcode;

    open spec fn deep_view(&self) -> SpecRawOpcode {
        SpecRawOpcode { key: self.key@, value: self.value@, span: self.span }
    }
}

/// Known SFZ header names plus a raw fallback for extensions.
#[derive(Debug, Clone, PartialEq, Eq)]
pub enum HeaderKind {
    Control,
    Global,
    Master,
    Group,
    Region,
    Curve,
    Effect,
    Midi,
    Unknown(String),
}

pub enum SpecHeaderKind {
    Control,
    Global,
    Master,
    Group,
    Region,
    Curve,
    Effect,
    Midi,
    Unknown(Seq<char>),
}

impl DeepView for HeaderKind {
    type V = SpecHeaderKind;

    open spec fn deep_view(&self) -> SpecHeaderKind {
        match self {
            HeaderKind::Control => SpecHeaderKind::Control,
            HeaderKind::Global => SpecHeaderKind::Global,
            HeaderKind::Master => SpecHeaderKind::Master,
            HeaderKind::Group => SpecHeaderKind::Group,
            HeaderKind::Region => SpecHeaderKind::Region,
            HeaderKind::Curve => SpecHeaderKind::Curve,
            HeaderKind::Effect => SpecHeaderKind::Effect,
            HeaderKind::Midi => SpecHeaderKind::Midi,
            HeaderKind::Unknown(s) => SpecHeaderKind::Unknown(s@),
        }
    }
}

/// The header kind that a header name denotes: the name is trimmed and
/// lowercased (ASCII) before it is compared with the known names; any other
/// name is kept, trimmed and lowercased, as `Unknown`.
pub open spec fn header_kind_of(name: Seq<char>) -> SpecHeaderKind {
    let n = ascii_lower(trim(name));
    if n == "control"@ {
        SpecHeaderKind::Control
    } else if n == "global"@ {
        SpecHeaderKind::Global
    } else if n == "master"@ {
        SpecHeaderKind::Master
    } else if n == "group"@ {
        SpecHeaderKind::Group
    } else if n == "region"@ {
        SpecHeaderKind::Region
    } else if n == "curve"@ {
        SpecHeaderKind::Curve
    } else if n == "effect"@ {
        SpecHeaderKind::Effect
    } else if n == "midi"@ {
        SpecHeaderKind::Midi
    } else {
        SpecHeaderKind::Unknown(n)
    }
}

/// A preprocessor-style SFZ directive.
#[derive(Debug, Clone, PartialEq, Eq)]
pub enum Directive {
    Define { name: String, value: String, span: Option<SourceSpan> },
    Include { path: String, span: Option<SourceSpan> },
}

pub enum SpecDirective {
    Define { name: Seq<char>, value: Seq<char>, span: Option<SourceSpan> },
    Include { path: Seq<char>, span: Option<SourceSpan> },
}

impl DeepView for Directive {
    type V = SpecDirective;

    open spec fn deep_view(&self) -> SpecDirective {
        match self {
            Directive::Define { name, value, span } => SpecDirective::Define {
                name: name@,
                value: value@,
                span: *span,
            },
            Directive::Include { path, span } => SpecDirective::Include { path: path@, span: *span },
        }
    }
}

pub open spec fn directive_span(d: SpecDirective) -> Option<SourceSpan> {
    match d {
        SpecDirective::Define { span, .. } => span,
        SpecDirective::Include { span, .. } => span,
    }
}

/// A contiguous SFZ header block with its raw content.
#[derive(Debug, Clone, PartialEq, Eq)]
pub struct HeaderBlock {
    pub kind: HeaderKind,
    pub opcodes: Vec<RawOpcode>,
    pub directives: Vec<Directive>,
    pub span: Option<SourceSpan>,
}

pub struct SpecHeaderBlock {
    pub kind: SpecHeaderKind,
    pub opcodes: Seq<SpecRawOpcode>,
    pub directives: Seq<SpecDirective>,
    pub span: Option<SourceSpan>,
}

impl DeepView for HeaderBlock {
    type V = SpecHeaderBlock;

    open spec fn deep_view(&self) -> SpecHeaderBlock {
        SpecHeaderBlock {
            kind: self.kind.deep_view(),
            opcodes: self.opcodes.deep_view(),
            directives: self.directives.deep_view(),
            span: self.span,
        }
    }
}

/// An empty block of the given kind that starts at column 1 of `line`.
pub open spec fn empty_block(kind: SpecHeaderKind, line: usize) -> SpecHeaderBlock {
    SpecHeaderBlock {
        kind,
        opcodes: Seq::empty(),
        directives: Seq::empty(),
        span: Some(SourceSpan { line, column: 1 }),
    }
}

/// A non-fatal parse, resolution, or validation problem.
#[derive(Debug, Clone, PartialEq, Eq)]
pub struct Diagnostic {
    pub severity: Severity,
    pub message: String,
    pub opcode: Option<String>,
    pub value: Option<String>,
    pub span: Option<SourceSpan>,
}

pub struct SpecDiagnostic {
    pub severity: Severity,
    pub message: Seq<char>,
    pub opcode: Option<Seq<char>>,
    pub value: Option<Seq<char>>,
    pub span: Option<SourceSpan>,
}

impl DeepView for Diagnostic {
    type V = SpecDiagnostic;

    open spec fn deep_view(&self) -> SpecDiagnostic {
        SpecDiagnostic {
            severity: self.severity,
            message: self.message@,
            opcode: self.opcode.deep_view(),
            value: self.value.deep_view(),
            span: self.span,
        }
    }
}

/// A diagnostic that carries only a severity and a message.
pub open spec fn plain_diag(severity: Severity, message: Seq<char>) -> SpecDiagnostic {
    SpecDiagnostic { severity, message, opcode: None, value: None, span: None }
}

/// A diagnostic about an opcode: it names the opcode's key, value and span.
pub open spec fn opcode_diag(
    severity: Severity,
    message: Seq<char>,
    opcode: SpecRawOpcode,
) -> SpecDiagnostic {
    SpecDiagnostic {
        severity,
        message,
        opcode: Some(opcode.key),
        value: Some(opcode.value),
        span: opcode.span,
    }
}

/// Parsed control block details for the core subset.
#[derive(Debug, Clone, PartialEq, Eq)]
pub struct Control {
    pub default_path: Option<String>,
    pub note_offset: Option<i16>,
    pub octave_offset: Option<i16>,
    pub label_cc: Vec<RawOpcode>,
    pub set_cc: Vec<RawOpcode>,
    pub defines: Vec<(String, String)>,
    pub includes: Vec<String>,
    pub raw_opcodes: Vec<RawOpcode>,
    pub unknown_opcodes: Vec<RawOpcode>,
    pub diagnostics: Vec<Diagnostic>,
}

pub struct SpecControl {
    pub default_path: Option<Seq<char>>,
    pub note_offset: Option<i16>,
    pub octave_offset: Option<i16>,
    pub label_cc: Seq<SpecRawOpcode>,
    pub set_cc: Seq<SpecRawOpcode>,
    pub defines: Seq<(Seq<char>, Seq<char>)>,
    pub includes: Seq<Seq<char>>,
    pub raw_opcodes: Seq<SpecRawOpcode>,
    pub unknown_opcodes: Seq<SpecRawOpcode>,
    pub diagnostics: Seq<SpecDiagnostic>,
}

impl DeepView for Control {
    type V = SpecControl;

    open spec fn deep_view(&self) -> SpecControl {
        SpecControl {
            default_path: self.default_path.deep_view(),
            note_offset: self.note_offset,
            octave_offset: self.octave_offset,
            label_cc: self.label_cc.deep_view(),
            set_cc: self.set_cc.deep_view(),
            defines: self.defines.deep_view(),
            includes: self.includes.deep_view(),
            raw_opcodes: self.raw_opcodes.deep_view(),
            unknown_opcodes: self.unknown_opcodes.deep_view(),
            diagnostics: self.diagnostics.deep_view(),
        }
    }
}

impl Default for Control {
    /// A control block with nothing set.
    fn default() -> (c: Self)
        ensures
            c.deep_view() == empty_control(),
    {
        let c = Control {
            default_path: None,
            note_offset: None,
            octave_offset: None,
            label_cc: Vec::new(),
            set_cc: Vec::new(),
            defines: Vec::new(),
            includes: Vec::new(),
            raw_opcodes: Vec::new(),
            unknown_opcodes: Vec::new(),
            diagnostics: Vec::new(),
        };
        assert(c.label_cc.deep_view() =~= Seq::<SpecRawOpcode>::empty());
        assert(c.set_cc.deep_view() =~= Seq::<SpecRawOpcode>::empty());
        assert(c.defines.deep_view() =~= Seq::<(Seq<char>, Seq<char>)>::empty());
        assert(c.includes.deep_view() =~= Seq::<Seq<char>>::empty());
        assert(c.raw_opcodes.deep_view() =~= Seq::<SpecRawOpcode>::empty());
        assert(c.unknown_opcodes.deep_view() =~= Seq::<SpecRawOpcode>::empty());
        assert(c.diagnostics.deep_view() =~= Seq::<SpecDiagnostic>::empty());
        c
    }
}

pub open spec fn empty_control() -> SpecControl {
    SpecControl {
        default_path: None,
        note_offset: None,
        octave_offset: None,
        label_cc: Seq::empty(),
        set_cc: Seq::empty(),
        defines: Seq::empty(),
        includes: Seq::empty(),
        raw_opcodes: Seq::empty(),
        unknown_opcodes: Seq::empty(),
        diagnostics: Seq::empty(),
    }
}

/// A region after SFZ inheritance and typed validation.
#[derive(Debug, Clone, PartialEq)]
pub struct ResolvedRegion {
    pub raw_opcodes: Vec<RawOpcode>,
    pub typed_opcodes: Vec<Opcode>,
    pub unknown_opcodes: Vec<RawOpcode>,
    pub diagnostics: Vec<Diagnostic>,
}

pub struct SpecResolvedRegion {
    pub raw_opcodes: Seq<SpecRawOpcode>,
    pub typed_opcodes: Seq<SpecOpcode>,
    pub unknown_opcodes: Seq<SpecRawOpcode>,
    pub diagnostics: Seq<SpecDiagnostic>,
}

impl DeepView for ResolvedRegion {
    type V = SpecResolvedRegion;

    open spec fn deep_view(&self) -> SpecResolvedRegion {
        SpecResolvedRegion {
            raw_opcodes: self.raw_opcodes.deep_view(),
            typed_opcodes: self.typed_opcodes.deep_view(),
            unknown_opcodes: self.unknown_opcodes.deep_view(),
            diagnostics: self.diagnostics.deep_view(),
        }
    }
}

/// A parsed SFZ document.
///
/// `blocks` preserves the source structure and raw opcode data. `regions`
/// contains inheritance-resolved region views with typed known opcodes and raw
/// fallback data for everything else.
#[derive(Debug, Clone, PartialEq)]
pub struct SfzDocument {
    pub blocks: Vec<HeaderBlock>,
    pub control: Option<Control>,
    pub regions: Vec<ResolvedRegion>,
    pub diagnostics: Vec<Diagnostic>,
}

pub struct SpecDocument {
    pub blocks: Seq<SpecHeaderBlock>,
    pub control: Option<SpecControl>,
    pub regions: Seq<SpecResolvedRegion>,
    pub diagnostics: Seq<SpecDiagnostic>,
}

impl DeepView for SfzDocument {
    type V = SpecDocument;

    open spec fn deep_view(&self) -> SpecDocument {
        SpecDocument {
            blocks: self.blocks.deep_view(),
            control: self.control.deep_view(),
            regions: self.regions.deep_view(),
            diagnostics: self.diagnostics.deep_view(),
        }
    }
}

/// Top-level parse failure.
#[derive(Debug, Clone, PartialEq, Eq)]
pub struct ParseError {
    pub message: String,
}

/// Include loading failure returned by a caller-provided resolver.
#[derive(Debug, Clone, PartialEq, Eq)]
pub struct IncludeError {
    pub message: String,
}

impl SfzDocument {
    /// A document that holds `blocks` and nothing resolved yet.
    pub fn new(blocks: Vec<HeaderBlock>) -> (r: Self)
        ensures
            r.deep_view() == (SpecDocument {
                blocks: blocks.deep_view(),
                control: None,
                regions: Seq::empty(),
                diagnostics: Seq::empty(),
            }),
    {
        let r = SfzDocument {
            blocks,
            control: None,
            regions: Vec::new(),
            diagnostics: Vec::new(),
        };
        assert(r.regions.deep_view() =~= Seq::<SpecResolvedRegion>::empty());
        assert(r.diagnostics.deep_view() =~= Seq::<SpecDiagnostic>::empty());
        r
    }
}

impl HeaderBlock {
    /// An empty block of `kind` that starts at column 1 of `line`.
    pub fn new(kind: HeaderKind, line: usize) -> (r: Self)
        ensures
            r.deep_view() == empty_block(kind.deep_view(), line),
    {
        let r = HeaderBlock {
            kind,
            opcodes: Vec::new(),
            directives: Vec::new(),
            span: Some(SourceSpan { line, column: 1 }),
        };
        assert(r.opcodes.deep_view() =~= Seq::<SpecRawOpcode>::empty());
        assert(r.directives.deep_view() =~= Seq::<SpecDirective>::empty());
        r
    }
}

pub fn lowercase_ascii(s: &Vec<char>) -> (r: Vec<char>)
    ensures
        r@ == ascii_lower(s@),
{
    let mut r: Vec<char> = Vec::new();
    let mut i: usize = 0;
    while i < s.len()
        invariant
            i <= s.len(),
            r@ == ascii_lower(s@.take(i as int)),
        decreases s.len() - i,
    {
        let c = s[i];
        let l = if 'A' <= c && c <= 'Z' {
            ((c as u32) + 32) as u8 as char
        } else {
            c
        };
        assert(l == lower_ch(c));
        r.push(l);
        i = i + 1;
        assert(r@ =~= ascii_lower(s@.take(i as int)));
    }
    assert(s@.take(i as int) =~= s@);
    r
}

/// `header_kind_of` for a name given as characters.
pub fn header_kind_from_chars(name: &Vec<char>) -> (r: HeaderKind)
    ensures
        r.deep_view() == header_kind_of(name@),
{
    let n = lowercase_ascii(&trimmed(name));
    if eq_chars(&n, &chars_of("control")) {
        HeaderKind::Control
    } else if eq_chars(&n, &chars_of("global")) {
        HeaderKind::Global
    } else if eq_chars(&n, &chars_of("master")) {
        HeaderKind::Master
    } else if eq_chars(&n, &chars_of("group")) {
        HeaderKind::Group
    } else if eq_chars(&n, &chars_of("region")) {
        HeaderKind::Region
    } else if eq_chars(&n, &chars_of("curve")) {
        HeaderKind::Curve
    } else if eq_chars(&n, &chars_of("effect")) {
        HeaderKind::Effect
    } else if eq_chars(&n, &chars_of("midi")) {
        HeaderKind::Midi
    } else {
        HeaderKind::Unknown(string_of(&n))
    }
}

impl HeaderKind {
    /// The header kind that `name` denotes (see `header_kind_of`).
    pub fn from_name(name: &str) -> (r: Self)
        ensures
            r.deep_view() == header_kind_of(name@),
    {
        header_kind_from_chars(&chars_of(name))
    }
}

impl RawOpcode {
    /// An opcode `key=value` that starts at `line` and `column`.
    pub fn new(key: String, value: String, line: usize, column: usize) -> (r: Self)
        ensures
            r.deep_view() == (SpecRawOpcode {
                key: key@,
                value: value@,
                span: Some(SourceSpan { line, column }),
            }),
    {
        RawOpcode { key, value, span: Some(SourceSpan { line, column }) }
    }

    /// A copy of this opcode.
    pub fn duplicate(&self) -> (r: Self)
        ensures
            r.deep_view() == self.deep_view(),
    {
        RawOpcode { key: self.key.clone(), value: self.value.clone(), span: self.span }
    }
}

impl Directive {
    /// Where the directive stands in the source.
    pub fn span(&self) -> (r: Option<SourceSpan>)
        ensures
            r == directive_span(self.deep_view()),
    {
        match self {
            Directive::Define { span, .. } => *span,
            Directive::Include { span, .. } => *span,
        }
    }
}

impl Diagnostic {
    /// A warning with the given message.
    pub fn warning(message: &str) -> (r: Self)
        ensures
            r.deep_view() == plain_diag(Severity::Warning, message@),
    {
        Diagnostic {
            severity: Severity::Warning,
            message: message.to_owned(),
            opcode: None,
            value: None,
            span: None,
        }
    }

    /// An error with the given message.
    pub fn error(message: &str) -> (r: Self)
        ensures
            r.deep_view() == plain_diag(Severity::Error, message@),
    {
        Diagnostic {
            severity: Severity::Error,
            message: message.to_owned(),
            opcode: None,
            value: None,
            span: None,
        }
    }

    /// A diagnostic about `opcode`: it names the opcode's key, value and span.
    pub fn for_opcode(severity: Severity, message: &str, opcode: &RawOpcode) -> (r: Self)
        ensures
            r.deep_view() == opcode_diag(severity, message@, opcode.deep_view()),
    {
        Diagnostic {
            severity,
            message: message.to_owned(),
            opcode: Some(opcode.key.clone()),
            value: Some(opcode.value.clone()),
            span: opcode.span,
        }
    }

    /// A copy of this diagnostic.
    pub fn duplicate(&self) -> (r: Self)
        ensures
            r.deep_view() == self.deep_view(),
    {
        let opcode = match &self.opcode {
            Some(s) => Some(s.clone()),
            None => None,
        };
        let value = match &self.value {
            Some(s) => Some(s.clone()),
            None => None,
        };
        Diagnostic {
            severity: self.severity,
            message: self.message.clone(),
            opcode,
            value,
            span: self.span,
        }
    }
}

impl ParseError {
    /// A parse failure with the given message.
    pub fn new(message: &str) -> (r: Self)
        ensures
            r.message@ == message@,
    {
        ParseError { message: message.to_owned() }
    }
}

impl IncludeError {
    /// An include failure with the given message.
    pub fn new(message: &str) -> (r: Self)
        ensures
            r.message@ == message@,
    {
        IncludeError { message: message.to_owned() }
    }
}

} // verus!
