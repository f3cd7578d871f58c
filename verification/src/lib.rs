//! Soundry is a raw-preserving SFZ parser library.
//!
//! The crate parses SFZ text into a document model, resolves region
//! inheritance, validates a core opcode subset, and keeps unsupported headers
//! and opcodes available as raw data.

pub mod ast;
pub mod expand;
pub mod laws;
pub mod number;
pub mod opcode_mapping;
pub mod parser;
pub mod resolve;
pub mod text;

pub use ast::{
    Control, Diagnostic, Directive, HeaderBlock, HeaderKind, IncludeError, ParseError, RawOpcode,
    ResolvedRegion, Severity, SfzDocument, SourceSpan,
};
pub use opcode_mapping::{ControlIndex, LoopMode, Number, OffMode, Opcode, Trigger};
pub use parser::{IncludeResolver, ParseOptions};

use vstd::prelude::*;
use crate::ast::{SpecDocument, SpecDiagnostic};
use crate::expand::{answered, expand_spec, expand_includes, log_at, Answer};
use crate::parser::{parse_raw_document, parse_raw_spec};
use crate::resolve::{resolve_document, resolve_document_spec};
use crate::text::{chars_of, chars_with_byte_bound, lemma_utf8_len_encode, string_of, utf8_len};

verus! {

/// The document that `input` describes when includes are not loaded.
pub open spec fn sfz_document(input: Seq<char>) -> SpecDocument {
    let (blocks, diags) = parse_raw_spec(input);
    resolve_document_spec(blocks, diags)
}

/// The expansion of `input` with includes loaded, given the resolver's
/// answers in the order in which they are asked for.
pub open spec fn expansion_of(input: Seq<char>, max: nat, answers: Seq<Answer>) -> crate::expand::Expansion {
    expand_spec(input, "<input>"@, max, 0, Seq::empty(), true, answers, 0)
}

/// The document that `input` describes when includes are loaded and the
/// resolver gives `answers`: the expanded text is parsed, and the diagnostics
/// of the expansion come first.
pub open spec fn sfz_document_with_includes(input: Seq<char>, max: nat, answers: Seq<Answer>) -> SpecDocument {
    let e = expansion_of(input, max, answers);
    let (blocks, diags) = parse_raw_spec(e.out);
    resolve_document_spec(blocks, e.diags + diags)
}

/// Parse SFZ text without resolving includes.
///
/// `#include` directives are preserved in the raw document and reported as
/// warnings because no include resolver was supplied. `#define` directives are
/// applied to later raw opcode keys and values. Parsing never fails.
pub fn parse_sfz(input: &str) -> (r: Result<SfzDocument, ParseError>)
    ensures
        r matches Ok(doc) && doc.deep_view() == sfz_document(input@),
{
    let text = chars_with_byte_bound(input);
    let (blocks, diagnostics) = parse_raw_document(&text);
    Ok(resolve_document(blocks, diagnostics))
}

fn append_diags(a: &mut Vec<Diagnostic>, b: &Vec<Diagnostic>)
    ensures
        final(a).deep_view() == old(a).deep_view() + b.deep_view(),
{
    let ghost start = a.deep_view();
    let mut i: usize = 0;
    while i < b.len()
        invariant
            i <= b.len(),
            a.deep_view() == start + b.deep_view().take(i as int),
        decreases b.len() - i,
    {
        let d = b[i].duplicate();
        let ghost before = a.deep_view();
        a.push(d);
        assert(a.deep_view() =~= before.push(d.deep_view()));
        i = i + 1;
        assert(a.deep_view() =~= start + b.deep_view().take(i as int));
    }
    assert(b.deep_view().take(i as int) =~= b.deep_view());
}

/// Expands includes through the resolver, then parses the expanded text.
fn expand_and_parse(input: &str, options: &ParseOptions<'_>) -> (r: (
    Vec<HeaderBlock>,
    Vec<Diagnostic>,
    Ghost<Seq<Answer>>,
))
    requires
        options.include_resolver is Some,
    ensures
        ({
            let e = expansion_of(input@, options.max_include_depth as nat, r.2@);
            &&& e.next == r.2@.len()
            &&& answered(options.include_resolver, e.asked, r.2@)
            &&& (r.0.deep_view(), r.1.deep_view()) == ({
                let p = parse_raw_spec(e.out);
                (p.0, e.diags + p.1)
            })
        }),
{
    let text = chars_of(input);
    let source = chars_of("<input>");
    let mut visited: Vec<String> = Vec::new();
    let mut diagnostics: Vec<Diagnostic> = Vec::new();
    assert(visited.deep_view() =~= Seq::<Seq<char>>::empty());
    assert(diagnostics.deep_view() =~= Seq::<SpecDiagnostic>::empty());
    let (expanded, Ghost(log)) = expand_includes(
        &text,
        &source,
        options.include_resolver,
        options.max_include_depth as u128,
        0,
        &mut visited,
        &mut diagnostics,
    );
    assert(log.subrange(0, log.len() as int) =~= log);
    assert(log_at(log, 0, log));
    let owned = string_of(&expanded);
    let _byte_len = owned.len();
    proof {
        lemma_utf8_len_encode(expanded@);
    }
    let (blocks, parse_diagnostics) = parse_raw_document(&expanded);
    append_diags(&mut diagnostics, &parse_diagnostics);
    assert(Seq::<SpecDiagnostic>::empty() + expansion_of(input@, options.max_include_depth as nat, log).diags
        =~= expansion_of(input@, options.max_include_depth as nat, log).diags);
    (blocks, diagnostics, Ghost(log))
}

/// Parse SFZ text with caller-provided options.
///
/// Provide an [`IncludeResolver`] through [`ParseOptions`] to expand includes
/// before raw parsing and resolution. Parsing never fails. Without a resolver
/// the document is `sfz_document(input)`; with one it is the document that the
/// resolver's answers, in the order in which they were asked for, give, where
/// each answer is one the resolver gave for the path that the expansion asked
/// for at that point.
pub fn parse_sfz_with_options(input: &str, options: ParseOptions<'_>) -> (r: Result<
    SfzDocument,
    ParseError,
>)
    ensures
        r is Ok,
        options.include_resolver is None ==> (r matches Ok(doc) && doc.deep_view() == sfz_document(
            input@,
        )),
        options.include_resolver is Some ==> (r matches Ok(doc) && exists|answers: Seq<Answer>|
            #![trigger sfz_document_with_includes(input@, options.max_include_depth as nat, answers)]
            expansion_of(input@, options.max_include_depth as nat, answers).next == answers.len()
                && answered(
                options.include_resolver,
                expansion_of(input@, options.max_include_depth as nat, answers).asked,
                answers,
            ) && doc.deep_view() == sfz_document_with_includes(
                input@,
                options.max_include_depth as nat,
                answers,
            )),
{
    if options.include_resolver.is_some() {
        let (blocks, diagnostics, Ghost(log)) = expand_and_parse(input, &options);
        let doc = resolve_document(blocks, diagnostics);
        assert(doc.deep_view() == sfz_document_with_includes(input@, options.max_include_depth as nat, log));
        Ok(doc)
    } else {
        parse_sfz(input)
    }
}

} // verus!
