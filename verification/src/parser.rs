//! Raw SFZ parser plus define substitution.

use vstd::prelude::*;
use crate::ast::{
    empty_block, header_kind_from_chars, header_kind_of, plain_diag, Diagnostic, Directive,
    HeaderBlock, HeaderKind, RawOpcode, Severity, SourceSpan, SpecDiagnostic, SpecDirective,
    SpecHeaderBlock, SpecHeaderKind, SpecRawOpcode,
};
use crate::text::{
    append_chars, chars_of, concat, decimal, decimal_chars, find, find_char, find_slashes,
    find_whitespace, find_ws, is_whitespace, is_ws, key_end, key_run_end,
    lemma_char_vec_deep_view, lemma_find_char_bounds, lemma_find_slashes_bounds,
    lemma_key_run_end_bounds, lemma_skip_ws_bounds, lemma_utf8_len_add, lemma_utf8_len_subrange,
    lines, lines_from, occurs_at, replace, replace_all, skip_spaces, skip_ws, slice_of,
    split_lines, starts_with, string_of, strip_block, block_comments_removed, before_line_comment,
    trim, trim_char, trimmed, trimmed_char, utf8_len, strip_block_comments,
    strip_line_comment, byte_offset,
};

verus! {

/// Caller-provided include loading.
///
/// `gave` says what the resolver may answer for a path: the included text, or
/// the message of its error. The expansion states which paths it asked for
/// and that each answer it used is one that `gave` admits for that path. An
/// implementation verified with this crate may define `gave` exactly; by
/// default it admits every answer, since nothing is known of the code.
pub trait IncludeResolver {
    open spec fn gave(&self, path: Seq<char>, answer: Result<Seq<char>, Seq<char>>) -> bool {
        true
    }

    fn resolve(&self, path: &str) -> (r: Result<String, crate::ast::IncludeError>)
        ensures
            self.gave(path@, crate::expand::answer_of(r)),
    ;
}

/// Options for parsing SFZ text.
pub struct ParseOptions<'a> {
    pub include_resolver: Option<&'a dyn IncludeResolver>,
    pub max_include_depth: usize,
}

impl<'a> ParseOptions<'a> {
    /// Options that load includes through `resolver`, nested at most 16 deep.
    pub fn with_include_resolver(resolver: &'a dyn IncludeResolver) -> (r: Self)
        ensures
            r.include_resolver == Some(resolver),
            r.max_include_depth == 16,
    {
        let held = Some(resolver);
        ParseOptions { include_resolver: held, max_include_depth: 16 }
    }
}

impl<'a> Default for ParseOptions<'a> {
    /// No include resolver and an include depth limit of 0.
    fn default() -> (r: Self)
        ensures
            r.include_resolver is None,
            r.max_include_depth == 0,
    {
        ParseOptions { include_resolver: None, max_include_depth: 0 }
    }
}

// ---------------------------------------------------------------------------
// Model
// ---------------------------------------------------------------------------

/// Index of the first define named `name` at or after `i`, or the length.
pub open spec fn define_index(defs: Seq<(Seq<char>, Seq<char>)>, name: Seq<char>, i: int) -> int
    decreases defs.len() - i,
{
    if 0 <= i < defs.len() && defs[i].0 != name {
        define_index(defs, name, i + 1)
    } else if 0 <= i < defs.len() {
        i
    } else {
        defs.len() as int
    }
}

/// Records `name = value`: an existing define of that name is replaced in
/// place, a new name is added at the end.
pub open spec fn define_insert(
    defs: Seq<(Seq<char>, Seq<char>)>,
    name: Seq<char>,
    value: Seq<char>,
) -> Seq<(Seq<char>, Seq<char>)> {
    let k = define_index(defs, name, 0);
    if k < defs.len() {
        defs.update(k, (name, value))
    } else {
        defs.push((name, value))
    }
}

/// No two defines share a name.
pub open spec fn define_names_distinct(defs: Seq<(Seq<char>, Seq<char>)>) -> bool {
    forall|i: int, j: int|
        0 <= i < defs.len() && 0 <= j < defs.len() && i != j ==> #[trigger] defs[i].0
            != #[trigger] defs[j].0
}

/// Applies the defines from index `i` on, in order, each replacing every
/// occurrence of its name by its value.
pub open spec fn substitute_from(s: Seq<char>, defs: Seq<(Seq<char>, Seq<char>)>, i: int) -> Seq<
    char,
>
    decreases defs.len() - i,
{
    if 0 <= i < defs.len() {
        substitute_from(replace_all(s, defs[i].0, defs[i].1), defs, i + 1)
    } else {
        s
    }
}

pub open spec fn substitute(s: Seq<char>, defs: Seq<(Seq<char>, Seq<char>)>) -> Seq<char> {
    substitute_from(s, defs, 0)
}

pub open spec fn subst_opcode(op: SpecRawOpcode, defs: Seq<(Seq<char>, Seq<char>)>) -> SpecRawOpcode {
    SpecRawOpcode { key: substitute(op.key, defs), value: substitute(op.value, defs), span: op.span }
}

pub open spec fn subst_directive(d: SpecDirective, defs: Seq<(Seq<char>, Seq<char>)>) -> SpecDirective {
    match d {
        SpecDirective::Define { name, value, span } => SpecDirective::Define {
            name,
            value: substitute(value, defs),
            span,
        },
        SpecDirective::Include { path, span } => SpecDirective::Include {
            path: substitute(path, defs),
            span,
        },
    }
}

/// A directive line: `#define NAME VALUE` or `#include "PATH"`.
pub open spec fn directive_of(line: Seq<char>, ln: usize, column: usize) -> Option<SpecDirective> {
    let t = trim(line);
    let span = Some(SourceSpan { line: ln, column });
    if starts_with(t, "#define"@) {
        let rest = trim(t.skip(7));
        let w = find_ws(rest, 0);
        let name = trim(rest.take(w));
        let value = if w < rest.len() {
            trim(rest.skip(w + 1))
        } else {
            Seq::empty()
        };
        if name.len() == 0 {
            None
        } else {
            Some(SpecDirective::Define { name, value, span })
        }
    } else if starts_with(t, "#include"@) {
        let r = trim(t.skip(8));
        let r2 = if r.len() > 0 && r[0] == '=' {
            r.skip(1)
        } else {
            r
        };
        let path = trim_char(trim_char(trim(r2), '"'), '\'');
        if path.len() == 0 {
            None
        } else {
            Some(SpecDirective::Include { path, span })
        }
    } else {
        None
    }
}

/// Whether a `key =` assignment starts at `c`.
pub open spec fn opcode_starts_at(line: Seq<char>, c: int) -> bool {
    let e = key_run_end(line, c);
    e > c && {
        let q = skip_ws(line, e);
        q < line.len() && line[q] == '='
    }
}

/// Where a value that starts at or before `scan` ends: at the first
/// whitespace after which the next assignment or header begins, or at the end
/// of the line.
pub open spec fn value_end(line: Seq<char>, scan: int) -> int
    decreases line.len() - scan,
{
    if scan < 0 || scan >= line.len() {
        line.len() as int
    } else if is_ws(line[scan]) && ({
        let n = skip_ws(line, scan + 1);
        opcode_starts_at(line, n) || (n < line.len() && line[n] == '<')
    }) {
        scan
    } else {
        value_end(line, scan + 1)
    }
}

/// The column, in bytes and 1-based, of character position `c` of `line`.
pub open spec fn column_of(line: Seq<char>, c: int) -> usize {
    (utf8_len(line.take(c)) + 1) as usize
}

/// The assignment `key=value` that starts at `cursor`, and where it ends.
pub open spec fn opcode_at(line: Seq<char>, cursor: int, ln: usize) -> Option<
    (SpecRawOpcode, int),
> {
    let ke = key_run_end(line, cursor);
    if ke == cursor {
        None
    } else {
        let p = skip_ws(line, ke);
        if p < line.len() && line[p] == '=' {
            let vs = skip_ws(line, p + 1);
            let ve = value_end(line, vs);
            Some(
                (
                    SpecRawOpcode {
                        key: trim(line.subrange(cursor, ke)),
                        value: trim(line.subrange(vs, ve)),
                        span: Some(SourceSpan { line: ln, column: column_of(line, cursor) }),
                    },
                    ve,
                ),
            )
        } else {
            None
        }
    }
}

/// The state of the raw parser between lines.
pub struct RawState {
    pub blocks: Seq<SpecHeaderBlock>,
    pub current: Option<SpecHeaderBlock>,
    pub defines: Seq<(Seq<char>, Seq<char>)>,
    pub diags: Seq<SpecDiagnostic>,
}

pub open spec fn initial_raw_state() -> RawState {
    RawState {
        blocks: Seq::empty(),
        current: None,
        defines: Seq::empty(),
        diags: Seq::empty(),
    }
}

/// The open block, or an `Unknown("preamble")` block when content comes
/// before the first header.
pub open spec fn current_block(st: RawState, ln: usize) -> SpecHeaderBlock {
    match st.current {
        Some(b) => b,
        None => empty_block(SpecHeaderKind::Unknown("preamble"@), ln),
    }
}

pub open spec fn push_opcode_spec(st: RawState, ln: usize, op: SpecRawOpcode) -> RawState {
    let b = current_block(st, ln);
    RawState {
        blocks: st.blocks,
        current: Some(
            SpecHeaderBlock {
                kind: b.kind,
                opcodes: b.opcodes.push(op),
                directives: b.directives,
                span: b.span,
            },
        ),
        defines: st.defines,
        diags: st.diags,
    }
}

pub open spec fn push_directive_spec(st: RawState, ln: usize, d: SpecDirective) -> RawState {
    let b = current_block(st, ln);
    RawState {
        blocks: st.blocks,
        current: Some(
            SpecHeaderBlock {
                kind: b.kind,
                opcodes: b.opcodes,
                directives: b.directives.push(d),
                span: b.span,
            },
        ),
        defines: st.defines,
        diags: st.diags,
    }
}

/// Closes the open block, if any, and opens a new one.
pub open spec fn open_block_spec(st: RawState, kind: SpecHeaderKind, ln: usize) -> RawState {
    RawState {
        blocks: match st.current {
            Some(b) => st.blocks.push(b),
            None => st.blocks,
        },
        current: Some(empty_block(kind, ln)),
        defines: st.defines,
        diags: st.diags,
    }
}

pub open spec fn add_diag_spec(st: RawState, d: SpecDiagnostic) -> RawState {
    RawState { blocks: st.blocks, current: st.current, defines: st.defines, diags: st.diags.push(d) }
}

pub open spec fn define_spec(st: RawState, name: Seq<char>, value: Seq<char>) -> RawState {
    RawState {
        blocks: st.blocks,
        current: st.current,
        defines: define_insert(st.defines, name, value),
        diags: st.diags,
    }
}

/// A directive found on a line: a define is recorded first, then the
/// directive, with the defines known so far applied, joins the open block.
pub open spec fn directive_step(st: RawState, ln: usize, d: SpecDirective) -> RawState {
    let st1 = match d {
        SpecDirective::Define { name, value, .. } => define_spec(st, name, value),
        SpecDirective::Include { .. } => st,
    };
    push_directive_spec(st1, ln, subst_directive(d, st1.defines))
}

pub open spec fn line_message(prefix: Seq<char>, ln: usize) -> Seq<char> {
    prefix + decimal(ln as nat)
}

/// Parses line `ln` from character position `cursor` on.
pub open spec fn scan_line(line: Seq<char>, ln: usize, cursor: int, st: RawState) -> RawState
    decreases line.len() - cursor,
{
    if cursor < 0 || cursor >= line.len() {
        st
    } else {
        let c = skip_ws(line, cursor);
        proof {
            lemma_skip_ws_bounds(line, cursor);
        }
        if c >= line.len() {
            st
        } else if line[c] == '<' {
            let e = find_char(line, '>', c);
            proof {
                lemma_find_char_bounds(line, '>', c);
            }
            if e < line.len() {
                scan_line(
                    line,
                    ln,
                    e + 1,
                    open_block_spec(st, header_kind_of(line.subrange(c + 1, e)), ln),
                )
            } else {
                add_diag_spec(
                    st,
                    plain_diag(Severity::Error, line_message("unterminated header on line "@, ln)),
                )
            }
        } else if line[c] == '#' {
            match directive_of(line.subrange(c, line.len() as int), ln, column_of(line, c)) {
                Some(d) => directive_step(st, ln, d),
                None => add_diag_spec(
                    st,
                    plain_diag(
                        Severity::Warning,
                        line_message("unsupported directive on line "@, ln),
                    ),
                ),
            }
        } else {
            match opcode_at(line, c, ln) {
                Some((op, next)) => {
                    proof {
                        lemma_opcode_at_next(line, c, ln);
                    }
                    scan_line(line, ln, next, push_opcode_spec(st, ln, subst_opcode(op, st.defines)))
                },
                None => add_diag_spec(
                    st,
                    plain_diag(
                        Severity::Warning,
                        line_message("could not parse content on line "@, ln) + ": "@ + trim(
                            line.subrange(c, line.len() as int),
                        ),
                    ),
                ),
            }
        }
    }
}

/// The state after the first `n` lines.
pub open spec fn scan_lines(ls: Seq<Seq<char>>, n: int) -> RawState
    decreases n,
{
    if n <= 0 {
        initial_raw_state()
    } else {
        scan_line(before_line_comment(ls[n - 1]), n as usize, 0, scan_lines(ls, n - 1))
    }
}

/// The raw parse of a text: its header blocks, in order, and the diagnostics
/// met on the way. Block comments are removed first; each line then loses its
/// `//` comment and is read as headers, one directive, or assignments.
pub open spec fn parse_raw_spec(text: Seq<char>) -> (Seq<SpecHeaderBlock>, Seq<SpecDiagnostic>) {
    let ls = lines(block_comments_removed(text));
    let st = scan_lines(ls, ls.len() as int);
    (
        match st.current {
            Some(b) => st.blocks.push(b),
            None => st.blocks,
        },
        st.diags,
    )
}

// ---------------------------------------------------------------------------
// Lemmas
// ---------------------------------------------------------------------------

pub proof fn lemma_value_end_bounds(line: Seq<char>, scan: int)
    requires
        0 <= scan <= line.len(),
    ensures
        scan <= value_end(line, scan) <= line.len(),
    decreases line.len() - scan,
{
    if scan < line.len() {
        let n = skip_ws(line, scan + 1);
        if !(is_ws(line[scan]) && (opcode_starts_at(line, n) || (n < line.len() && line[n]
            == '<'))) {
            lemma_value_end_bounds(line, scan + 1);
        }
    }
}

pub proof fn lemma_define_index(defs: Seq<(Seq<char>, Seq<char>)>, name: Seq<char>, i: int)
    requires
        0 <= i <= defs.len(),
    ensures
        i <= define_index(defs, name, i) <= defs.len(),
        define_index(defs, name, i) < defs.len() ==> defs[define_index(defs, name, i)].0 == name,
        forall|j: int| i <= j < define_index(defs, name, i) ==> #[trigger] defs[j].0 != name,
    decreases defs.len() - i,
{
    if i < defs.len() && defs[i].0 != name {
        lemma_define_index(defs, name, i + 1);
    }
}

/// Recording a define keeps the names distinct.
pub proof fn lemma_define_insert_distinct(
    defs: Seq<(Seq<char>, Seq<char>)>,
    name: Seq<char>,
    value: Seq<char>,
)
    requires
        define_names_distinct(defs),
    ensures
        define_names_distinct(define_insert(defs, name, value)),
{
    lemma_define_index(defs, name, 0);
    let r = define_insert(defs, name, value);
    let k = define_index(defs, name, 0);
    assert forall|i: int, j: int|
        0 <= i < r.len() && 0 <= j < r.len() && i != j implies #[trigger] r[i].0
            != #[trigger] r[j].0 by {
        if k < defs.len() {
            assert(defs[k].0 == name);
            if i != k && j != k {
                assert(r[i] == defs[i] && r[j] == defs[j]);
            } else if i == k {
                assert(r[j] == defs[j]);
                assert(defs[i].0 != defs[j].0);
            } else {
                assert(r[i] == defs[i]);
                assert(defs[i].0 != defs[j].0);
            }
        } else {
            if i < defs.len() && j < defs.len() {
                assert(r[i] == defs[i] && r[j] == defs[j]);
            } else if i == defs.len() {
                assert(r[j] == defs[j]);
                assert(defs[j].0 != name);
            } else {
                assert(r[i] == defs[i]);
                assert(defs[i].0 != name);
            }
        }
    }
}

/// Parsing a line keeps the define names distinct.
pub proof fn lemma_scan_line_distinct(line: Seq<char>, ln: usize, cursor: int, st: RawState)
    requires
        define_names_distinct(st.defines),
    ensures
        define_names_distinct(scan_line(line, ln, cursor, st).defines),
    decreases line.len() - cursor,
{
    if 0 <= cursor < line.len() {
        let c = skip_ws(line, cursor);
        lemma_skip_ws_bounds(line, cursor);
        if c < line.len() {
            if line[c] == '<' {
                let e = find_char(line, '>', c);
                lemma_find_char_bounds(line, '>', c);
                if e < line.len() {
                    lemma_scan_line_distinct(
                        line,
                        ln,
                        e + 1,
                        open_block_spec(st, header_kind_of(line.subrange(c + 1, e)), ln),
                    );
                }
            } else if line[c] == '#' {
                match directive_of(line.subrange(c, line.len() as int), ln, column_of(line, c)) {
                    Some(d) => {
                        match d {
                            SpecDirective::Define { name, value, .. } => {
                                lemma_define_insert_distinct(st.defines, name, value);
                            },
                            _ => {},
                        }
                    },
                    None => {},
                }
            } else {
                match opcode_at(line, c, ln) {
                    Some((op, next)) => {
                        lemma_opcode_at_next(line, c, ln);
                        lemma_scan_line_distinct(
                            line,
                            ln,
                            next,
                            push_opcode_spec(st, ln, subst_opcode(op, st.defines)),
                        );
                    },
                    None => {},
                }
            }
        }
    }
}

pub proof fn lemma_opcode_at_next(line: Seq<char>, cursor: int, ln: usize)
    requires
        0 <= cursor < line.len(),
    ensures
        opcode_at(line, cursor, ln) matches Some((op, next)) ==> cursor < next <= line.len(),
{
    lemma_key_run_end_bounds(line, cursor);
    let ke = key_run_end(line, cursor);
    lemma_skip_ws_bounds(line, ke);
    let p = skip_ws(line, ke);
    if p < line.len() && line[p] == '=' {
        lemma_skip_ws_bounds(line, p + 1);
        lemma_value_end_bounds(line, skip_ws(line, p + 1));
    }
}

// ---------------------------------------------------------------------------
// Executable parser
// ---------------------------------------------------------------------------

/// The raw parser's state between lines.
pub struct RawParse {
    pub blocks: Vec<HeaderBlock>,
    pub current: Option<HeaderBlock>,
    pub defines: Vec<(String, String)>,
    pub diags: Vec<Diagnostic>,
}

impl DeepView for RawParse {
    type V = RawState;

    open spec fn deep_view(&self) -> RawState {
        RawState {
            blocks: self.blocks.deep_view(),
            current: self.current.deep_view(),
            defines: self.defines.deep_view(),
            diags: self.diags.deep_view(),
        }
    }
}

impl RawParse {
    /// The defines recorded so far have distinct names.
    pub open spec fn wf(&self) -> bool {
        define_names_distinct(self.defines.deep_view())
    }

    fn new() -> (r: Self)
        ensures
            r.deep_view() == initial_raw_state(),
            r.wf(),
    {
        let r = RawParse {
            blocks: Vec::new(),
            current: None,
            defines: Vec::new(),
            diags: Vec::new(),
        };
        assert(r.blocks.deep_view() =~= Seq::<SpecHeaderBlock>::empty());
        assert(r.defines.deep_view() =~= Seq::<(Seq<char>, Seq<char>)>::empty());
        assert(r.diags.deep_view() =~= Seq::<SpecDiagnostic>::empty());
        r
    }

    /// Takes out the open block, or a new preamble block when there is none;
    /// the caller puts it back.
    fn ensure_block(&mut self, ln: usize) -> (b: HeaderBlock)
        ensures
            b.deep_view() == current_block(old(self).deep_view(), ln),
            final(self).current is None,
            final(self).blocks == old(self).blocks,
            final(self).defines == old(self).defines,
            final(self).diags == old(self).diags,
    {
        match self.current.take() {
            Some(b) => b,
            None => {
                let name = string_of(&chars_of("preamble"));
                HeaderBlock::new(HeaderKind::Unknown(name), ln)
            },
        }
    }

    fn push_opcode(&mut self, ln: usize, op: RawOpcode)
        ensures
            final(self).deep_view() == push_opcode_spec(old(self).deep_view(), ln, op.deep_view()),
    {
        let mut b = self.ensure_block(ln);
        let ghost before = b.opcodes.deep_view();
        b.opcodes.push(op);
        assert(b.opcodes.deep_view() =~= before.push(op.deep_view()));
        self.current = Some(b);
    }

    fn push_directive(&mut self, ln: usize, d: Directive)
        ensures
            final(self).deep_view() == push_directive_spec(old(self).deep_view(), ln, d.deep_view()),
    {
        let mut b = self.ensure_block(ln);
        let ghost before = b.directives.deep_view();
        b.directives.push(d);
        assert(b.directives.deep_view() =~= before.push(d.deep_view()));
        self.current = Some(b);
    }

    fn open_block(&mut self, kind: HeaderKind, ln: usize)
        ensures
            final(self).deep_view() == open_block_spec(old(self).deep_view(), kind.deep_view(), ln),
    {
        match self.current.take() {
            Some(b) => {
                let ghost before = self.blocks.deep_view();
                self.blocks.push(b);
                assert(self.blocks.deep_view() =~= before.push(b.deep_view()));
            },
            None => {},
        }
        self.current = Some(HeaderBlock::new(kind, ln));
    }

    fn add_diag(&mut self, d: Diagnostic)
        ensures
            final(self).deep_view() == add_diag_spec(old(self).deep_view(), d.deep_view()),
    {
        let ghost before = self.diags.deep_view();
        self.diags.push(d);
        assert(self.diags.deep_view() =~= before.push(d.deep_view()));
    }

    fn define(&mut self, name: &String, value: &String)
        requires
            old(self).wf(),
        ensures
            final(self).deep_view() == define_spec(old(self).deep_view(), name@, value@),
            final(self).wf(),
    {
        proof {
            lemma_define_insert_distinct(self.defines.deep_view(), name@, value@);
        }
        let ghost defs = self.defines.deep_view();
        let mut i: usize = 0;
        while i < self.defines.len() && self.defines[i].0 != *name
            invariant
                i <= self.defines.len(),
                defs == self.defines.deep_view(),
                define_index(defs, name@, 0) == define_index(defs, name@, i as int),
            decreases self.defines.len() - i,
        {
            i = i + 1;
        }
        if i < self.defines.len() {
            self.defines.set(i, (name.clone(), value.clone()));
            assert(self.defines.deep_view() =~= defs.update(i as int, (name@, value@)));
        } else {
            self.defines.push((name.clone(), value.clone()));
            assert(self.defines.deep_view() =~= defs.push((name@, value@)));
        }
    }
}

/// `substitute(s, defs)`.
pub fn substitute_defines(s: &Vec<char>, defs: &Vec<(String, String)>) -> (r: Vec<char>)
    ensures
        r@ == substitute(s@, defs.deep_view()),
{
    let ghost d = defs.deep_view();
    let mut out = slice_of(s, 0, s.len());
    assert(out@ =~= s@);
    let mut i: usize = 0;
    while i < defs.len()
        invariant
            i <= defs.len(),
            d == defs.deep_view(),
            substitute_from(out@, d, i as int) == substitute(s@, d),
        decreases defs.len() - i,
    {
        let name = chars_of(defs[i].0.as_str());
        let value = chars_of(defs[i].1.as_str());
        out = replace(&out, &name, &value);
        i = i + 1;
    }
    out
}

pub fn substitute_opcode(op: RawOpcode, defs: &Vec<(String, String)>) -> (r: RawOpcode)
    ensures
        r.deep_view() == subst_opcode(op.deep_view(), defs.deep_view()),
{
    let key = substitute_defines(&chars_of(op.key.as_str()), defs);
    let value = substitute_defines(&chars_of(op.value.as_str()), defs);
    RawOpcode { key: string_of(&key), value: string_of(&value), span: op.span }
}

pub fn substitute_directive(d: Directive, defs: &Vec<(String, String)>) -> (r: Directive)
    ensures
        r.deep_view() == subst_directive(d.deep_view(), defs.deep_view()),
{
    match d {
        Directive::Define { name, value, span } => {
            let v = substitute_defines(&chars_of(value.as_str()), defs);
            Directive::Define { name, value: string_of(&v), span }
        },
        Directive::Include { path, span } => {
            let p = substitute_defines(&chars_of(path.as_str()), defs);
            Directive::Include { path: string_of(&p), span }
        },
    }
}

/// `directive_of(line, ln, column)`.
pub fn parse_directive(line: &Vec<char>, ln: usize, column: usize) -> (r: Option<Directive>)
    ensures
        r.deep_view() == directive_of(line@, ln, column),
{
    let t = trimmed(line);
    let span = Some(SourceSpan { line: ln, column });
    let def = chars_of("#define");
    let inc = chars_of("#include");
    proof {
        reveal_strlit("#define");
        reveal_strlit("#include");
    }
    assert(t@.skip(0) =~= t@);
    if occurs_at(&t, 0, &def) {
        let rest = trimmed(&slice_of(&t, 7, t.len()));
        assert(t@.subrange(7, t@.len() as int) =~= t@.skip(7));
        let w = find_whitespace(&rest, 0);
        let name = trimmed(&slice_of(&rest, 0, w));
        assert(rest@.subrange(0, w as int) =~= rest@.take(w as int));
        let value = if w < rest.len() {
            assert(rest@.subrange(w + 1, rest@.len() as int) =~= rest@.skip(w + 1));
            trimmed(&slice_of(&rest, w + 1, rest.len()))
        } else {
            Vec::new()
        };
        assert(w >= rest.len() ==> value@ =~= Seq::<char>::empty());
        if name.len() == 0 {
            None
        } else {
            Some(Directive::Define { name: string_of(&name), value: string_of(&value), span })
        }
    } else if occurs_at(&t, 0, &inc) {
        let r = trimmed(&slice_of(&t, 8, t.len()));
        assert(t@.subrange(8, t@.len() as int) =~= t@.skip(8));
        let r2 = if r.len() > 0 && r[0] == '=' {
            assert(r@.subrange(1, r@.len() as int) =~= r@.skip(1));
            slice_of(&r, 1, r.len())
        } else {
            assert(r@.subrange(0, r@.len() as int) =~= r@);
            slice_of(&r, 0, r.len())
        };
        let path = trimmed_char(&trimmed_char(&trimmed(&r2), '"'), '\'');
        if path.len() == 0 {
            None
        } else {
            Some(Directive::Include { path: string_of(&path), span })
        }
    } else {
        None
    }
}

/// `opcode_starts_at(line, c)`.
fn looks_like_opcode_start(line: &Vec<char>, c: usize) -> (r: bool)
    requires
        c <= line.len(),
    ensures
        r == opcode_starts_at(line@, c as int),
{
    let e = key_end(line, c);
    if e > c {
        let q = skip_spaces(line, e);
        q < line.len() && line[q] == '='
    } else {
        false
    }
}

/// `value_end(line, start)`.
fn find_value_end(line: &Vec<char>, start: usize) -> (r: usize)
    requires
        start <= line.len(),
    ensures
        r as int == value_end(line@, start as int),
        start <= r <= line.len(),
{
    let mut scan = start;
    while scan < line.len()
        invariant
            start <= scan <= line.len(),
            value_end(line@, start as int) == value_end(line@, scan as int),
        decreases line.len() - scan,
    {
        if is_whitespace(line[scan]) {
            let n = skip_spaces(line, scan + 1);
            if looks_like_opcode_start(line, n) || (n < line.len() && line[n] == '<') {
                return scan;
            }
        }
        scan = scan + 1;
    }
    scan
}

/// Column (1-based, in bytes) of character position `c` of `line`.
fn column_at(line: &Vec<char>, c: usize) -> (r: usize)
    requires
        c < line.len(),
        utf8_len(line@) <= usize::MAX,
    ensures
        r == column_of(line@, c as int),
{
    proof {
        lemma_utf8_len_subrange(line@, 0, c + 1);
        assert(line@.subrange(0, c + 1) =~= line@.take(c + 1));
        assert(line@.take(c + 1).drop_last() =~= line@.take(c as int));
    }
    byte_offset(line, c) + 1
}

/// `opcode_at(line, cursor, ln)`.
pub fn parse_opcode_at(line: &Vec<char>, cursor: usize, ln: usize) -> (r: Option<(RawOpcode, usize)>)
    requires
        cursor <= line.len(),
        utf8_len(line@) <= usize::MAX,
    ensures
        match (r, opcode_at(line@, cursor as int, ln)) {
            (Some((a, n)), Some((b, m))) => a.deep_view() == b && n as int == m,
            (None, None) => true,
            _ => false,
        },
{
    let ke = key_end(line, cursor);
    if ke == cursor {
        return None;
    }
    let p = skip_spaces(line, ke);
    if p < line.len() && line[p] == '=' {
        let vs = skip_spaces(line, p + 1);
        let ve = find_value_end(line, vs);
        let key = trimmed(&slice_of(line, cursor, ke));
        let value = trimmed(&slice_of(line, vs, ve));
        let column = column_at(line, cursor);
        let op = RawOpcode::new(string_of(&key), string_of(&value), ln, column);
        Some((op, ve))
    } else {
        None
    }
}

/// `line_message(prefix, ln)`.
fn line_message_exec(prefix: &str, ln: usize) -> (r: Vec<char>)
    ensures
        r@ == line_message(prefix@, ln),
{
    concat(&chars_of(prefix), &decimal_chars(ln))
}

/// Parses one line into the state (see `scan_line`).
fn parse_line(st: &mut RawParse, line: &Vec<char>, ln: usize)
    requires
        utf8_len(line@) <= usize::MAX,
        old(st).wf(),
    ensures
        final(st).deep_view() == scan_line(line@, ln, 0, old(st).deep_view()),
        final(st).wf(),
{
    let ghost target = scan_line(line@, ln, 0, st.deep_view());
    let mut cursor: usize = 0;
    while cursor < line.len()
        invariant
            cursor <= line.len(),
            utf8_len(line@) <= usize::MAX,
            scan_line(line@, ln, cursor as int, st.deep_view()) == target,
            st.wf(),
        decreases line.len() - cursor,
    {
        let c = skip_spaces(line, cursor);
        if c >= line.len() {
            cursor = line.len();
        } else if line[c] == '<' {
            let e = find(line, '>', c);
            proof {
                lemma_find_char_bounds(line@, '>', c as int);
            }
            if e < line.len() {
                let name = slice_of(line, c + 1, e);
                let kind = header_kind_from_chars(&name);
                st.open_block(kind, ln);
                cursor = e + 1;
            } else {
                let msg = string_of(&line_message_exec("unterminated header on line ", ln));
                st.add_diag(Diagnostic::error(msg.as_str()));
                cursor = line.len();
            }
        } else if line[c] == '#' {
            let column = column_at(line, c);
            let rest = slice_of(line, c, line.len());
            match parse_directive(&rest, ln, column) {
                Some(d) => {
                    match &d {
                        Directive::Define { name, value, .. } => {
                            st.define(name, value);
                        },
                        Directive::Include { .. } => {},
                    }
                    let d2 = substitute_directive(d, &st.defines);
                    st.push_directive(ln, d2);
                },
                None => {
                    let msg = string_of(&line_message_exec("unsupported directive on line ", ln));
                    st.add_diag(Diagnostic::warning(msg.as_str()));
                },
            }
            cursor = line.len();
        } else {
            proof {
                lemma_opcode_at_next(line@, c as int, ln);
            }
            match parse_opcode_at(line, c, ln) {
                Some((op, next)) => {
                    let op2 = substitute_opcode(op, &st.defines);
                    st.push_opcode(ln, op2);
                    cursor = next;
                },
                None => {
                    let mut msg = line_message_exec("could not parse content on line ", ln);
                    append_chars(&mut msg, &chars_of(": "));
                    append_chars(&mut msg, &trimmed(&slice_of(line, c, line.len())));
                    let m = string_of(&msg);
                    st.add_diag(Diagnostic::warning(m.as_str()));
                    cursor = line.len();
                },
            }
        }
    }
}

pub proof fn lemma_strip_block_utf8_len(s: Seq<char>, in_comment: bool)
    ensures
        utf8_len(strip_block(s, in_comment)) <= utf8_len(s),
    decreases s.len(),
{
    if s.len() > 0 {
        let one = seq![s[0]];
        assert(one + s.skip(1) =~= s);
        lemma_utf8_len_add(one, s.skip(1));
        if s.len() > 1 {
            assert(seq![s[0], s[1]] + s.skip(2) =~= s);
            lemma_utf8_len_add(seq![s[0], s[1]], s.skip(2));
            lemma_strip_block_utf8_len(s.skip(2), false);
            lemma_strip_block_utf8_len(s.skip(2), true);
        }
        lemma_strip_block_utf8_len(s.skip(1), false);
        lemma_strip_block_utf8_len(s.skip(1), true);
        let r1 = strip_block(s.skip(1), in_comment);
        let r0 = strip_block(s.skip(1), false);
        lemma_utf8_len_add(one, r0);
        lemma_utf8_len_add(seq!['\n'], strip_block(s.skip(1), true));
    }
}

pub proof fn lemma_lines_utf8_len(s: Seq<char>, i: int)
    requires
        0 <= i <= s.len(),
    ensures
        forall|j: int|
            0 <= j < lines_from(s, i).len() ==> utf8_len(#[trigger] lines_from(s, i)[j]) <= utf8_len(
                s,
            ),
    decreases s.len() - i,
{
    if i < s.len() {
        let k = find_char(s, '\n', i);
        lemma_find_char_bounds(s, '\n', i);
        lemma_utf8_len_subrange(s, i, k);
        if k < s.len() {
            lemma_lines_utf8_len(s, k + 1);
            let first = s.subrange(i, k);
            if first.len() > 0 && first.last() == '\r' {
                assert(first.drop_last() =~= s.subrange(i, k - 1));
                lemma_utf8_len_subrange(s, i, k - 1);
            }
            assert forall|j: int| 0 <= j < lines_from(s, i).len() implies utf8_len(
                #[trigger] lines_from(s, i)[j],
            ) <= utf8_len(s) by {
                if j > 0 {
                    assert(lines_from(s, i)[j] == lines_from(s, k + 1)[j - 1]);
                }
            }
        } else {
            lemma_utf8_len_subrange(s, i, s.len() as int);
        }
    }
}

pub proof fn lemma_line_comment_utf8_len(s: Seq<char>)
    ensures
        utf8_len(before_line_comment(s)) <= utf8_len(s),
{
    lemma_find_slashes_bounds(s, 0);
    lemma_utf8_len_subrange(s, 0, find_slashes(s, 0));
    assert(s.subrange(0, find_slashes(s, 0)) =~= s.take(find_slashes(s, 0)));
}

/// The raw parse of `text` (see `parse_raw_spec`).
pub fn parse_raw_document(text: &Vec<char>) -> (r: (Vec<HeaderBlock>, Vec<Diagnostic>))
    requires
        utf8_len(text@) <= usize::MAX,
    ensures
        (r.0.deep_view(), r.1.deep_view()) == parse_raw_spec(text@),
{
    let cleaned = strip_block_comments(text);
    let ls = split_lines(&cleaned);
    proof {
        lemma_strip_block_utf8_len(text@, false);
        lemma_lines_utf8_len(cleaned@, 0);
    }
    let ghost lsv = lines(block_comments_removed(text@));
    let mut st = RawParse::new();
    let mut i: usize = 0;
    while i < ls.len()
        invariant
            i <= ls.len(),
            ls.deep_view() == lsv,
            lsv == lines(cleaned@),
            utf8_len(cleaned@) <= usize::MAX,
            forall|j: int| 0 <= j < lsv.len() ==> utf8_len(#[trigger] lsv[j]) <= utf8_len(cleaned@),
            st.deep_view() == scan_lines(lsv, i as int),
            st.wf(),
        decreases ls.len() - i,
    {
        let line = strip_line_comment(&ls[i]);
        proof {
            lemma_char_vec_deep_view(&ls[i as int]);
            assert(ls[i as int]@ == lsv[i as int]);
            lemma_line_comment_utf8_len(lsv[i as int]);
        }
        parse_line(&mut st, &line, i + 1);
        i = i + 1;
    }
    let RawParse { mut blocks, current, defines: _, diags } = st;
    match current {
        Some(b) => {
            let ghost before = blocks.deep_view();
            blocks.push(b);
            assert(blocks.deep_view() =~= before.push(b.deep_view()));
        },
        None => {},
    }
    (blocks, diags)
}

} // verus!
