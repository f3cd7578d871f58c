//! Resolution and validation pass for parsed SFZ blocks.

use vstd::prelude::*;
use crate::ast::{
    empty_control, Control, Diagnostic, Directive, HeaderBlock, HeaderKind, RawOpcode,
    ResolvedRegion, Severity, SfzDocument, SpecControl, SpecDiagnostic, SpecDirective,
    SpecDocument, SpecHeaderBlock, SpecHeaderKind, SpecRawOpcode, SpecResolvedRegion,
};
use crate::opcode_mapping::{
    is_known_key, is_known_opcode_key, parse_opcode, parse_opcode_spec, Opcode, OpcodeParse,
    SpecOpcode, SpecOpcodeParse,
};
use crate::text::{append_chars, chars_of, string_of};

verus! {

// ---------------------------------------------------------------------------
// Model
// ---------------------------------------------------------------------------

/// A control-block directive: defines and include paths are listed in order.
pub open spec fn control_directive_step(c: SpecControl, d: SpecDirective) -> SpecControl {
    match d {
        SpecDirective::Define { name, value, .. } => SpecControl {
            defines: c.defines.push((name, value)),
            ..c
        },
        SpecDirective::Include { path, .. } => SpecControl { includes: c.includes.push(path), ..c },
    }
}

/// A control-block opcode: always kept raw; `default_path`, `note_offset` and
/// `octave_offset` set their field (a later one wins), `label_cc*` and
/// `set_cc*` are listed, other valid ones and unknown keys count as unknown,
/// invalid values give a diagnostic.
pub open spec fn control_opcode_step(c: SpecControl, op: SpecRawOpcode) -> SpecControl {
    let c1 = SpecControl { raw_opcodes: c.raw_opcodes.push(op), ..c };
    match parse_opcode_spec(op) {
        SpecOpcodeParse::Known(t) => match t {
            SpecOpcode::DefaultPath(v) => SpecControl { default_path: Some(v), ..c1 },
            SpecOpcode::NoteOffset(v) => SpecControl { note_offset: Some(v), ..c1 },
            SpecOpcode::OctaveOffset(v) => SpecControl { octave_offset: Some(v), ..c1 },
            SpecOpcode::LabelCc { .. } => SpecControl { label_cc: c1.label_cc.push(op), ..c1 },
            SpecOpcode::SetCc { .. } => SpecControl { set_cc: c1.set_cc.push(op), ..c1 },
            _ => SpecControl { unknown_opcodes: c1.unknown_opcodes.push(op), ..c1 },
        },
        SpecOpcodeParse::Unknown => SpecControl {
            unknown_opcodes: c1.unknown_opcodes.push(op),
            ..c1
        },
        SpecOpcodeParse::Invalid(d) => SpecControl { diagnostics: c1.diagnostics.push(d), ..c1 },
    }
}

pub open spec fn control_directives(c: SpecControl, ds: Seq<SpecDirective>, n: int) -> SpecControl
    decreases n,
{
    if n <= 0 {
        c
    } else {
        control_directive_step(control_directives(c, ds, n - 1), ds[n - 1])
    }
}

pub open spec fn control_opcodes(c: SpecControl, ops: Seq<SpecRawOpcode>, n: int) -> SpecControl
    decreases n,
{
    if n <= 0 {
        c
    } else {
        control_opcode_step(control_opcodes(c, ops, n - 1), ops[n - 1])
    }
}

/// A control block adds its directives, then its opcodes.
pub open spec fn control_block(c: SpecControl, b: SpecHeaderBlock) -> SpecControl {
    control_opcodes(
        control_directives(c, b.directives, b.directives.len() as int),
        b.opcodes,
        b.opcodes.len() as int,
    )
}

/// Whether one of the first `n` blocks is a control block, and the control
/// details that they give.
pub open spec fn control_blocks(bs: Seq<SpecHeaderBlock>, n: int) -> (bool, SpecControl)
    decreases n,
{
    if n <= 0 {
        (false, empty_control())
    } else {
        let prev = control_blocks(bs, n - 1);
        if bs[n - 1].kind is Control {
            (true, control_block(prev.1, bs[n - 1]))
        } else {
            prev
        }
    }
}

pub open spec fn resolve_control_spec(bs: Seq<SpecHeaderBlock>) -> Option<SpecControl> {
    let r = control_blocks(bs, bs.len() as int);
    if r.0 {
        Some(r.1)
    } else {
        None
    }
}

pub open spec fn unresolved_include_warning(path: Seq<char>, span: Option<crate::ast::SourceSpan>) -> SpecDiagnostic {
    SpecDiagnostic {
        severity: Severity::Warning,
        message: "include `"@ + path + "` was not resolved"@,
        opcode: None,
        value: Some(path),
        span,
    }
}

pub open spec fn directive_warnings(ds: Seq<SpecDirective>, n: int) -> Seq<SpecDiagnostic>
    decreases n,
{
    if n <= 0 {
        Seq::empty()
    } else {
        let prev = directive_warnings(ds, n - 1);
        match ds[n - 1] {
            SpecDirective::Include { path, span } => prev.push(unresolved_include_warning(path, span)),
            _ => prev,
        }
    }
}

/// One warning for each `#include` directive that is left in the blocks.
pub open spec fn include_warnings(bs: Seq<SpecHeaderBlock>, n: int) -> Seq<SpecDiagnostic>
    decreases n,
{
    if n <= 0 {
        Seq::empty()
    } else {
        include_warnings(bs, n - 1) + directive_warnings(
            bs[n - 1].directives,
            bs[n - 1].directives.len() as int,
        )
    }
}

/// Index of the first opcode with key `key` at or after `i`, or the length.
pub open spec fn key_index(ops: Seq<SpecRawOpcode>, key: Seq<char>, i: int) -> int
    decreases ops.len() - i,
{
    if 0 <= i < ops.len() && ops[i].key != key {
        key_index(ops, key, i + 1)
    } else if 0 <= i < ops.len() {
        i
    } else {
        ops.len() as int
    }
}

/// An opcode replaces the earlier one with the same key, in its place; a new
/// key is added at the end.
pub open spec fn override_step(out: Seq<SpecRawOpcode>, op: SpecRawOpcode) -> Seq<SpecRawOpcode> {
    let k = key_index(out, op.key, 0);
    if k < out.len() {
        out.update(k, op)
    } else {
        out.push(op)
    }
}

pub open spec fn override_fold(ops: Seq<SpecRawOpcode>, n: int) -> Seq<SpecRawOpcode>
    decreases n,
{
    if n <= 0 {
        Seq::empty()
    } else {
        override_step(override_fold(ops, n - 1), ops[n - 1])
    }
}

pub open spec fn override_by_key_spec(ops: Seq<SpecRawOpcode>) -> Seq<SpecRawOpcode> {
    override_fold(ops, ops.len() as int)
}

/// One raw opcode of a region: valid ones become typed, unknown keys are
/// listed as unknown, invalid values give a diagnostic.
pub open spec fn validate_step(r: SpecResolvedRegion, op: SpecRawOpcode) -> SpecResolvedRegion {
    match parse_opcode_spec(op) {
        SpecOpcodeParse::Known(t) => SpecResolvedRegion { typed_opcodes: r.typed_opcodes.push(t), ..r },
        SpecOpcodeParse::Unknown => SpecResolvedRegion {
            unknown_opcodes: r.unknown_opcodes.push(op),
            ..r
        },
        SpecOpcodeParse::Invalid(d) => SpecResolvedRegion {
            diagnostics: r.diagnostics.push(d),
            unknown_opcodes: if is_known_key(op.key) {
                r.unknown_opcodes
            } else {
                r.unknown_opcodes.push(op)
            },
            ..r
        },
    }
}

pub open spec fn validate_fold(raw: Seq<SpecRawOpcode>, n: int) -> SpecResolvedRegion
    decreases n,
{
    if n <= 0 {
        SpecResolvedRegion {
            raw_opcodes: raw,
            typed_opcodes: Seq::empty(),
            unknown_opcodes: Seq::empty(),
            diagnostics: Seq::empty(),
        }
    } else {
        validate_step(validate_fold(raw, n - 1), raw[n - 1])
    }
}

pub open spec fn validate_region_spec(raw: Seq<SpecRawOpcode>) -> SpecResolvedRegion {
    validate_fold(raw, raw.len() as int)
}

/// The inheritance state: the opcodes of the latest `<global>`, `<master>`
/// and `<group>` in force, and the regions resolved so far.
pub struct RegionState {
    pub global: Seq<SpecRawOpcode>,
    pub master: Seq<SpecRawOpcode>,
    pub group: Seq<SpecRawOpcode>,
    pub regions: Seq<SpecResolvedRegion>,
}

/// The opcodes that a region sees: global, master, group, then its own.
pub open spec fn inherited(st: RegionState, local: Seq<SpecRawOpcode>) -> Seq<SpecRawOpcode> {
    st.global + st.master + st.group + local
}

/// `<global>` resets global state and clears master and group state,
/// `<master>` resets master state and clears group state, `<group>` resets
/// group state, `<region>` is resolved; other blocks change nothing.
pub open spec fn region_step(st: RegionState, b: SpecHeaderBlock) -> RegionState {
    match b.kind {
        SpecHeaderKind::Global => RegionState {
            global: b.opcodes,
            master: Seq::empty(),
            group: Seq::empty(),
            regions: st.regions,
        },
        SpecHeaderKind::Master => RegionState {
            master: b.opcodes,
            group: Seq::empty(),
            ..st
        },
        SpecHeaderKind::Group => RegionState { group: b.opcodes, ..st },
        SpecHeaderKind::Region => RegionState {
            regions: st.regions.push(validate_region_spec(override_by_key_spec(inherited(st, b.opcodes)))),
            ..st
        },
        _ => st,
    }
}

pub open spec fn region_fold(bs: Seq<SpecHeaderBlock>, n: int) -> RegionState
    decreases n,
{
    if n <= 0 {
        RegionState {
            global: Seq::empty(),
            master: Seq::empty(),
            group: Seq::empty(),
            regions: Seq::empty(),
        }
    } else {
        region_step(region_fold(bs, n - 1), bs[n - 1])
    }
}

pub open spec fn resolve_regions_spec(bs: Seq<SpecHeaderBlock>) -> Seq<SpecResolvedRegion> {
    region_fold(bs, bs.len() as int).regions
}

pub open spec fn region_diags(rs: Seq<SpecResolvedRegion>, n: int) -> Seq<SpecDiagnostic>
    decreases n,
{
    if n <= 0 {
        Seq::empty()
    } else {
        region_diags(rs, n - 1) + rs[n - 1].diagnostics
    }
}

/// The document made of parsed blocks: its control details, resolved regions
/// and all diagnostics, in this order: those of parsing, of the control
/// blocks, of includes left unresolved, and of each region.
pub open spec fn resolve_document_spec(
    blocks: Seq<SpecHeaderBlock>,
    diags: Seq<SpecDiagnostic>,
) -> SpecDocument {
    let c = control_blocks(blocks, blocks.len() as int);
    let regions = resolve_regions_spec(blocks);
    SpecDocument {
        blocks,
        control: if c.0 {
            Some(c.1)
        } else {
            None
        },
        regions,
        diagnostics: diags + c.1.diagnostics + include_warnings(blocks, blocks.len() as int)
            + region_diags(regions, regions.len() as int),
    }
}

// ---------------------------------------------------------------------------
// Executable resolution
// ---------------------------------------------------------------------------

pub fn copy_opcodes(ops: &Vec<RawOpcode>) -> (r: Vec<RawOpcode>)
    ensures
        r.deep_view() == ops.deep_view(),
{
    let mut r: Vec<RawOpcode> = Vec::new();
    let mut i: usize = 0;
    while i < ops.len()
        invariant
            i <= ops.len(),
            r.deep_view() == ops.deep_view().take(i as int),
        decreases ops.len() - i,
    {
        push_opcode_copy(&mut r, &ops[i]);
        i = i + 1;
        assert(r.deep_view() =~= ops.deep_view().take(i as int));
    }
    assert(ops.deep_view().take(i as int) =~= ops.deep_view());
    r
}

fn push_opcode_copy(v: &mut Vec<RawOpcode>, op: &RawOpcode)
    ensures
        final(v).deep_view() == old(v).deep_view().push(op.deep_view()),
{
    let ghost before = v.deep_view();
    v.push(op.duplicate());
    assert(v.deep_view() =~= before.push(op.deep_view()));
}

fn push_diag(v: &mut Vec<Diagnostic>, d: Diagnostic)
    ensures
        final(v).deep_view() == old(v).deep_view().push(d.deep_view()),
{
    let ghost before = v.deep_view();
    v.push(d);
    assert(v.deep_view() =~= before.push(d.deep_view()));
}

fn control_add_directive(c: &mut Control, d: &Directive)
    ensures
        final(c).deep_view() == control_directive_step(old(c).deep_view(), d.deep_view()),
{
    match d {
        Directive::Define { name, value, .. } => {
            let ghost before = c.defines.deep_view();
            c.defines.push((name.clone(), value.clone()));
            assert(c.defines.deep_view() =~= before.push((name@, value@)));
        },
        Directive::Include { path, .. } => {
            let ghost before = c.includes.deep_view();
            c.includes.push(path.clone());
            assert(c.includes.deep_view() =~= before.push(path@));
        },
    }
}

fn control_add_opcode(c: &mut Control, op: &RawOpcode)
    ensures
        final(c).deep_view() == control_opcode_step(old(c).deep_view(), op.deep_view()),
{
    push_opcode_copy(&mut c.raw_opcodes, op);
    match parse_opcode(op) {
        OpcodeParse::Known(typed) => match typed {
            Opcode::DefaultPath(value) => {
                c.default_path = Some(value);
            },
            Opcode::NoteOffset(value) => {
                c.note_offset = Some(value);
            },
            Opcode::OctaveOffset(value) => {
                c.octave_offset = Some(value);
            },
            Opcode::LabelCc { .. } => {
                push_opcode_copy(&mut c.label_cc, op);
            },
            Opcode::SetCc { .. } => {
                push_opcode_copy(&mut c.set_cc, op);
            },
            _ => {
                push_opcode_copy(&mut c.unknown_opcodes, op);
            },
        },
        OpcodeParse::Unknown => {
            push_opcode_copy(&mut c.unknown_opcodes, op);
        },
        OpcodeParse::Invalid(d) => {
            push_diag(&mut c.diagnostics, d);
        },
    }
}

fn control_add_block(c: &mut Control, b: &HeaderBlock)
    ensures
        final(c).deep_view() == control_block(old(c).deep_view(), b.deep_view()),
{
    let ghost start = c.deep_view();
    let ghost ds = b.directives.deep_view();
    let ghost ops = b.opcodes.deep_view();
    let mut i: usize = 0;
    while i < b.directives.len()
        invariant
            i <= b.directives.len(),
            ds == b.directives.deep_view(),
            c.deep_view() == control_directives(start, ds, i as int),
        decreases b.directives.len() - i,
    {
        control_add_directive(c, &b.directives[i]);
        i = i + 1;
    }
    let ghost mid = c.deep_view();
    let mut j: usize = 0;
    while j < b.opcodes.len()
        invariant
            j <= b.opcodes.len(),
            ops == b.opcodes.deep_view(),
            c.deep_view() == control_opcodes(mid, ops, j as int),
        decreases b.opcodes.len() - j,
    {
        control_add_opcode(c, &b.opcodes[j]);
        j = j + 1;
    }
}

fn is_control(k: &HeaderKind) -> (r: bool)
    ensures
        r == (k.deep_view() is Control),
{
    match k {
        HeaderKind::Control => true,
        _ => false,
    }
}

/// The control details of the blocks (see `control_blocks`).
pub fn resolve_control(blocks: &Vec<HeaderBlock>) -> (r: (bool, Control))
    ensures
        (r.0, r.1.deep_view()) == control_blocks(blocks.deep_view(), blocks.deep_view().len() as int),
{
    let ghost bs = blocks.deep_view();
    let mut control = Control::default();
    let mut found = false;
    let mut i: usize = 0;
    while i < blocks.len()
        invariant
            i <= blocks.len(),
            bs == blocks.deep_view(),
            (found, control.deep_view()) == control_blocks(bs, i as int),
        decreases blocks.len() - i,
    {
        if is_control(&blocks[i].kind) {
            found = true;
            control_add_block(&mut control, &blocks[i]);
        }
        i = i + 1;
    }
    (found, control)
}

fn include_warning(path: &String, span: Option<crate::ast::SourceSpan>) -> (d: Diagnostic)
    ensures
        d.deep_view() == unresolved_include_warning(path@, span),
{
    let mut m = chars_of("include `");
    append_chars(&mut m, &chars_of(path.as_str()));
    append_chars(&mut m, &chars_of("` was not resolved"));
    Diagnostic {
        severity: Severity::Warning,
        message: string_of(&m),
        opcode: None,
        value: Some(path.clone()),
        span,
    }
}

/// Appends a warning for each `#include` left in the blocks.
pub fn add_unresolved_include_warnings(blocks: &Vec<HeaderBlock>, diags: &mut Vec<Diagnostic>)
    ensures
        final(diags).deep_view() == old(diags).deep_view() + include_warnings(
            blocks.deep_view(),
            blocks.deep_view().len() as int,
        ),
{
    let ghost bs = blocks.deep_view();
    let ghost start = diags.deep_view();
    let mut i: usize = 0;
    assert(start + include_warnings(bs, 0) =~= start);
    while i < blocks.len()
        invariant
            i <= blocks.len(),
            bs == blocks.deep_view(),
            diags.deep_view() == start + include_warnings(bs, i as int),
        decreases blocks.len() - i,
    {
        let ghost ds = blocks[i as int].directives.deep_view();
        let ghost before = diags.deep_view();
        let mut j: usize = 0;
        assert(before + directive_warnings(ds, 0) =~= before);
        while j < blocks[i].directives.len()
            invariant
                i < blocks.len(),
                j <= blocks[i as int].directives.len(),
                ds == blocks[i as int].directives.deep_view(),
                diags.deep_view() == before + directive_warnings(ds, j as int),
            decreases blocks[i as int].directives.len() - j,
        {
            match &blocks[i].directives[j] {
                Directive::Include { path, span } => {
                    let w = include_warning(path, *span);
                    let ghost prev = diags.deep_view();
                    diags.push(w);
                    assert(diags.deep_view() =~= prev.push(w.deep_view()));
                    assert(diags.deep_view() =~= before + directive_warnings(ds, j + 1));
                },
                Directive::Define { .. } => {},
            }
            j = j + 1;
        }
        i = i + 1;
        assert(diags.deep_view() =~= start + include_warnings(bs, i as int));
    }
}

/// Keeps, for each key, the last opcode, at the place of the key's first
/// occurrence (see `override_by_key_spec`).
pub fn override_by_key(opcodes: Vec<RawOpcode>) -> (r: Vec<RawOpcode>)
    ensures
        r.deep_view() == override_by_key_spec(opcodes.deep_view()),
{
    let ghost ops = opcodes.deep_view();
    let mut output: Vec<RawOpcode> = Vec::new();
    let mut i: usize = 0;
    assert(output.deep_view() =~= override_fold(ops, 0));
    while i < opcodes.len()
        invariant
            i <= opcodes.len(),
            ops == opcodes.deep_view(),
            output.deep_view() == override_fold(ops, i as int),
        decreases opcodes.len() - i,
    {
        let op = &opcodes[i];
        let ghost out = output.deep_view();
        let mut k: usize = 0;
        while k < output.len() && output[k].key != op.key
            invariant
                k <= output.len(),
                out == output.deep_view(),
                key_index(out, op.key@, 0) == key_index(out, op.key@, k as int),
            decreases output.len() - k,
        {
            k = k + 1;
        }
        if k < output.len() {
            output.set(k, op.duplicate());
            assert(output.deep_view() =~= out.update(k as int, op.deep_view()));
        } else {
            output.push(op.duplicate());
            assert(output.deep_view() =~= out.push(op.deep_view()));
        }
        i = i + 1;
    }
    output
}

/// Validates the raw opcodes of a region (see `validate_region_spec`).
pub fn validate_region(raw_opcodes: Vec<RawOpcode>) -> (r: ResolvedRegion)
    ensures
        r.deep_view() == validate_region_spec(raw_opcodes.deep_view()),
{
    let ghost raw = raw_opcodes.deep_view();
    let mut typed_opcodes: Vec<Opcode> = Vec::new();
    let mut unknown_opcodes: Vec<RawOpcode> = Vec::new();
    let mut diagnostics: Vec<Diagnostic> = Vec::new();
    let mut i: usize = 0;
    assert(typed_opcodes.deep_view() =~= Seq::<SpecOpcode>::empty());
    assert(unknown_opcodes.deep_view() =~= Seq::<SpecRawOpcode>::empty());
    assert(diagnostics.deep_view() =~= Seq::<SpecDiagnostic>::empty());
    while i < raw_opcodes.len()
        invariant
            i <= raw_opcodes.len(),
            raw == raw_opcodes.deep_view(),
            validate_fold(raw, i as int) == (SpecResolvedRegion {
                raw_opcodes: raw,
                typed_opcodes: typed_opcodes.deep_view(),
                unknown_opcodes: unknown_opcodes.deep_view(),
                diagnostics: diagnostics.deep_view(),
            }),
        decreases raw_opcodes.len() - i,
    {
        let opcode = &raw_opcodes[i];
        match parse_opcode(opcode) {
            OpcodeParse::Known(typed) => {
                let ghost before = typed_opcodes.deep_view();
                typed_opcodes.push(typed);
                assert(typed_opcodes.deep_view() =~= before.push(typed.deep_view()));
            },
            OpcodeParse::Unknown => {
                push_opcode_copy(&mut unknown_opcodes, opcode);
            },
            OpcodeParse::Invalid(d) => {
                push_diag(&mut diagnostics, d);
                let key = chars_of(opcode.key.as_str());
                if !is_known_opcode_key(&key) {
                    push_opcode_copy(&mut unknown_opcodes, opcode);
                }
            },
        }
        i = i + 1;
    }
    ResolvedRegion { raw_opcodes, typed_opcodes, unknown_opcodes, diagnostics }
}

fn concat_opcodes(
    a: &Vec<RawOpcode>,
    b: &Vec<RawOpcode>,
    c: &Vec<RawOpcode>,
    d: &Vec<RawOpcode>,
) -> (r: Vec<RawOpcode>)
    ensures
        r.deep_view() == a.deep_view() + b.deep_view() + c.deep_view() + d.deep_view(),
{
    let mut r = copy_opcodes(a);
    let mut k: usize = 0;
    let ghost r0 = r.deep_view();
    while k < b.len()
        invariant
            k <= b.len(),
            r.deep_view() == r0 + b.deep_view().take(k as int),
        decreases b.len() - k,
    {
        push_opcode_copy(&mut r, &b[k]);
        k = k + 1;
        assert(r.deep_view() =~= r0 + b.deep_view().take(k as int));
    }
    assert(b.deep_view().take(k as int) =~= b.deep_view());
    let ghost r1 = r.deep_view();
    k = 0;
    while k < c.len()
        invariant
            k <= c.len(),
            r.deep_view() == r1 + c.deep_view().take(k as int),
        decreases c.len() - k,
    {
        push_opcode_copy(&mut r, &c[k]);
        k = k + 1;
        assert(r.deep_view() =~= r1 + c.deep_view().take(k as int));
    }
    assert(c.deep_view().take(k as int) =~= c.deep_view());
    let ghost r2 = r.deep_view();
    k = 0;
    while k < d.len()
        invariant
            k <= d.len(),
            r.deep_view() == r2 + d.deep_view().take(k as int),
        decreases d.len() - k,
    {
        push_opcode_copy(&mut r, &d[k]);
        k = k + 1;
        assert(r.deep_view() =~= r2 + d.deep_view().take(k as int));
    }
    assert(d.deep_view().take(k as int) =~= d.deep_view());
    r
}

/// Resolves the regions of the blocks in document order (see `region_fold`).
pub fn resolve_regions(blocks: &Vec<HeaderBlock>) -> (r: Vec<ResolvedRegion>)
    ensures
        r.deep_view() == resolve_regions_spec(blocks.deep_view()),
{
    let ghost bs = blocks.deep_view();
    let mut regions: Vec<ResolvedRegion> = Vec::new();
    let mut global: Vec<RawOpcode> = Vec::new();
    let mut master: Vec<RawOpcode> = Vec::new();
    let mut group: Vec<RawOpcode> = Vec::new();
    let mut i: usize = 0;
    assert(global.deep_view() =~= Seq::<SpecRawOpcode>::empty());
    assert(master.deep_view() =~= Seq::<SpecRawOpcode>::empty());
    assert(group.deep_view() =~= Seq::<SpecRawOpcode>::empty());
    assert(regions.deep_view() =~= Seq::<SpecResolvedRegion>::empty());
    assert(region_fold(bs, 0) == (RegionState {
        global: global.deep_view(),
        master: master.deep_view(),
        group: group.deep_view(),
        regions: regions.deep_view(),
    }));
    while i < blocks.len()
        invariant
            i <= blocks.len(),
            bs == blocks.deep_view(),
            region_fold(bs, i as int) == (RegionState {
                global: global.deep_view(),
                master: master.deep_view(),
                group: group.deep_view(),
                regions: regions.deep_view(),
            }),
        decreases blocks.len() - i,
    {
        let block = &blocks[i];
        match &block.kind {
            HeaderKind::Global => {
                global = copy_opcodes(&block.opcodes);
                master = Vec::new();
                group = Vec::new();
                assert(master.deep_view() =~= Seq::<SpecRawOpcode>::empty());
                assert(group.deep_view() =~= Seq::<SpecRawOpcode>::empty());
            },
            HeaderKind::Master => {
                master = copy_opcodes(&block.opcodes);
                group = Vec::new();
                assert(group.deep_view() =~= Seq::<SpecRawOpcode>::empty());
            },
            HeaderKind::Group => {
                group = copy_opcodes(&block.opcodes);
            },
            HeaderKind::Region => {
                let inherited_ops = concat_opcodes(&global, &master, &group, &block.opcodes);
                let raw = override_by_key(inherited_ops);
                let region = validate_region(raw);
                let ghost before = regions.deep_view();
                regions.push(region);
                assert(regions.deep_view() =~= before.push(region.deep_view()));
            },
            _ => {},
        }
        i = i + 1;
    }
    regions
}

/// Builds the document from parsed blocks and the diagnostics met while
/// parsing (see `resolve_document_spec`).
pub fn resolve_document(blocks: Vec<HeaderBlock>, diagnostics: Vec<Diagnostic>) -> (r: SfzDocument)
    ensures
        r.deep_view() == resolve_document_spec(blocks.deep_view(), diagnostics.deep_view()),
{
    let mut diagnostics = diagnostics;
    let ghost d0 = diagnostics.deep_view();
    let (found, control) = resolve_control(&blocks);
    let mut k: usize = 0;
    let ghost cd = control.diagnostics.deep_view();
    assert(d0 + cd.take(0) =~= d0);
    while k < control.diagnostics.len()
        invariant
            k <= control.diagnostics.len(),
            cd == control.diagnostics.deep_view(),
            diagnostics.deep_view() == d0 + cd.take(k as int),
        decreases control.diagnostics.len() - k,
    {
        push_diag(&mut diagnostics, control.diagnostics[k].duplicate());
        k = k + 1;
        assert(diagnostics.deep_view() =~= d0 + cd.take(k as int));
    }
    assert(cd.take(k as int) =~= cd);
    add_unresolved_include_warnings(&blocks, &mut diagnostics);
    let regions = resolve_regions(&blocks);
    let ghost rs = regions.deep_view();
    let ghost d1 = diagnostics.deep_view();
    let mut i: usize = 0;
    assert(d1 + region_diags(rs, 0) =~= d1);
    while i < regions.len()
        invariant
            i <= regions.len(),
            rs == regions.deep_view(),
            diagnostics.deep_view() == d1 + region_diags(rs, i as int),
        decreases regions.len() - i,
    {
        let ghost rd = regions[i as int].diagnostics.deep_view();
        let ghost before = diagnostics.deep_view();
        let mut j: usize = 0;
        assert(before + rd.take(0) =~= before);
        while j < regions[i].diagnostics.len()
            invariant
                i < regions.len(),
                j <= regions[i as int].diagnostics.len(),
                rd == regions[i as int].diagnostics.deep_view(),
                diagnostics.deep_view() == before + rd.take(j as int),
            decreases regions[i as int].diagnostics.len() - j,
        {
            push_diag(&mut diagnostics, regions[i].diagnostics[j].duplicate());
            j = j + 1;
            assert(diagnostics.deep_view() =~= before + rd.take(j as int));
        }
        assert(rd.take(j as int) =~= rd);
        i = i + 1;
        assert(diagnostics.deep_view() =~= d1 + region_diags(rs, i as int));
    }
    let control = if found {
        Some(control)
    } else {
        None
    };
    SfzDocument { blocks, control, regions, diagnostics }
}

} // verus!
