//! `#include` expansion through a caller-provided resolver.
//!
//! The resolver is the caller's code, so nothing is assumed about what it
//! returns. The model takes the resolver's answers as a sequence, in the order
//! in which the expansion asks for them, and gives the paths it asks for; the
//! executable expansion states that its result is the model's result for the
//! answers it actually received, each one what the resolver gave for the path
//! that the model asks for at that point.

use vstd::prelude::*;
use crate::ast::{plain_diag, Diagnostic, Directive, Severity, SourceSpan, SpecDiagnostic, SpecDirective};
use crate::parser::{directive_of, parse_directive, IncludeResolver};
use crate::resolve::unresolved_include_warning;
use crate::text::{
    append_chars, chars_of, lines, split_lines, block_comments_removed, before_line_comment,
    string_of, trim, trimmed, strip_block_comments, strip_line_comment,
    lemma_char_vec_deep_view,
};

verus! {

/// What the resolver answered for one path: the included text, or the
/// message of its error.
pub type Answer = Result<Seq<char>, Seq<char>>;

/// Text produced by expansion, diagnostics met, the paths handed to the
/// resolver, in order, and the index of the next resolver answer to use.
pub struct Expansion {
    pub out: Seq<char>,
    pub diags: Seq<SpecDiagnostic>,
    pub asked: Seq<Seq<char>>,
    pub next: int,
}

/// Answer `i`, or an error with an empty message when there is none.
pub open spec fn answer_at(answers: Seq<Answer>, i: int) -> Answer {
    if 0 <= i < answers.len() {
        answers[i]
    } else {
        Err(Seq::empty())
    }
}

/// Whether `log` stands in `answers` from index `i` on.
pub open spec fn log_at(answers: Seq<Answer>, i: int, log: Seq<Answer>) -> bool {
    0 <= i && i + log.len() <= answers.len() && answers.subrange(i, i + log.len()) == log
}

pub open spec fn with_newline(s: Seq<char>) -> Seq<char> {
    if s.len() > 0 && s.last() == '\n' {
        s
    } else {
        s.push('\n')
    }
}

pub open spec fn recursive_include_warning(path: Seq<char>, span: Option<SourceSpan>) -> SpecDiagnostic {
    SpecDiagnostic {
        severity: Severity::Warning,
        message: "skipping recursive include `"@ + path + "`"@,
        opcode: None,
        value: Some(path),
        span,
    }
}

pub open spec fn failed_include_error(
    path: Seq<char>,
    message: Seq<char>,
    span: Option<SourceSpan>,
) -> SpecDiagnostic {
    SpecDiagnostic {
        severity: Severity::Error,
        message: "failed to include `"@ + path + "`: "@ + message,
        opcode: None,
        value: Some(path),
        span,
    }
}

pub open spec fn depth_limit_warning(source: Seq<char>) -> SpecDiagnostic {
    plain_diag(Severity::Warning, "include depth limit reached while parsing "@ + source)
}

/// Expands `text`, read from `source` at include depth `depth`, while the
/// includes in `visited` are being expanded. Beyond `max` nothing is expanded
/// and a warning is given.
pub open spec fn expand_spec(
    text: Seq<char>,
    source: Seq<char>,
    max: nat,
    depth: nat,
    visited: Seq<Seq<char>>,
    has_resolver: bool,
    answers: Seq<Answer>,
    i: int,
) -> Expansion
    decreases max + 1 - depth, 1int, 0int,
{
    if depth > max {
        Expansion {
            out: Seq::empty(),
            diags: seq![depth_limit_warning(source)],
            asked: Seq::empty(),
            next: i,
        }
    } else {
        let ls = lines(block_comments_removed(text));
        expand_prefix(ls, ls.len() as int, max, depth, visited, has_resolver, answers, i)
    }
}

/// The expansion of the first `n` lines.
pub open spec fn expand_prefix(
    ls: Seq<Seq<char>>,
    n: int,
    max: nat,
    depth: nat,
    visited: Seq<Seq<char>>,
    has_resolver: bool,
    answers: Seq<Answer>,
    i: int,
) -> Expansion
    decreases max + 1 - depth, 0int, n,
{
    if depth > max || n <= 0 {
        Expansion { out: Seq::empty(), diags: Seq::empty(), asked: Seq::empty(), next: i }
    } else {
        let prev = expand_prefix(ls, n - 1, max, depth, visited, has_resolver, answers, i);
        let step = expand_line(ls[n - 1], n as usize, max, depth, visited, has_resolver, answers, prev.next);
        Expansion {
            out: prev.out + step.out,
            diags: prev.diags + step.diags,
            asked: prev.asked + step.asked,
            next: step.next,
        }
    }
}

/// One line: an `#include` is replaced by the expansion of what the resolver
/// gave (followed by a line break when it lacks one), or dropped with an
/// error when the resolver failed, or dropped with a warning when it is being
/// expanded already. Without a resolver it stays, with a warning. Any other
/// line stays as it is.
pub open spec fn expand_line(
    raw: Seq<char>,
    ln: usize,
    max: nat,
    depth: nat,
    visited: Seq<Seq<char>>,
    has_resolver: bool,
    answers: Seq<Answer>,
    i: int,
) -> Expansion
    decreases max + 1 - depth, 0int, 0int,
{
    let kept = Expansion { out: raw.push('\n'), diags: Seq::empty(), asked: Seq::empty(), next: i };
    if depth > max {
        kept
    } else {
        match directive_of(trim(before_line_comment(raw)), ln, 1) {
            Some(SpecDirective::Include { path, span }) => if has_resolver {
                if visited.contains(path) {
                    Expansion {
                        out: Seq::empty(),
                        diags: seq![recursive_include_warning(path, span)],
                        asked: Seq::empty(),
                        next: i,
                    }
                } else {
                    match answer_at(answers, i) {
                        Ok(content) => {
                            let nested = expand_spec(
                                content,
                                path,
                                max,
                                depth + 1,
                                visited.push(path),
                                true,
                                answers,
                                i + 1,
                            );
                            Expansion {
                                out: with_newline(nested.out),
                                diags: nested.diags,
                                asked: seq![path] + nested.asked,
                                next: nested.next,
                            }
                        },
                        Err(message) => Expansion {
                            out: Seq::empty(),
                            diags: seq![failed_include_error(path, message, span)],
                            asked: seq![path],
                            next: i + 1,
                        },
                    }
                }
            } else {
                Expansion {
                    out: raw.push('\n'),
                    diags: seq![unresolved_include_warning(path, span)],
                    asked: Seq::empty(),
                    next: i,
                }
            },
            _ => kept,
        }
    }
}

/// Whether `log` holds one answer for each path in `asked`, each one that
/// the resolver gave for its path.
pub open spec fn answered(
    resolver: Option<&dyn IncludeResolver>,
    asked: Seq<Seq<char>>,
    log: Seq<Answer>,
) -> bool {
    &&& asked.len() == log.len()
    &&& resolver matches Some(res) ==> forall|j: int|
        0 <= j < log.len() ==> #[trigger] res.gave(asked[j], log[j])
}

/// The answer that a resolver result stands for.
pub open spec fn answer_of(a: Result<String, crate::ast::IncludeError>) -> Answer {
    match a {
        Ok(s) => Ok(s@),
        Err(e) => Err(e.message@),
    }
}

fn contains_path(visited: &Vec<String>, path: &String) -> (r: bool)
    ensures
        r == visited.deep_view().contains(path@),
{
    let mut i: usize = 0;
    while i < visited.len()
        invariant
            i <= visited.len(),
            forall|k: int| 0 <= k < i ==> visited.deep_view()[k] != path@,
        decreases visited.len() - i,
    {
        if visited[i] == *path {
            assert(visited.deep_view()[i as int] == path@);
            return true;
        }
        i = i + 1;
    }
    false
}

fn pop_path(visited: &mut Vec<String>, Ghost(vis0): Ghost<Seq<Seq<char>>>, Ghost(p): Ghost<Seq<char>>)
    requires
        old(visited).deep_view() == vis0.push(p),
    ensures
        final(visited).deep_view() == vis0,
{
    let ghost dpush = visited.deep_view();
    let ghost vpush = visited@;
    assert(dpush.len() == vis0.len() + 1);
    visited.pop();
    assert forall|k: int| 0 <= k < vis0.len() implies #[trigger] visited.deep_view()[k] == vis0[k] by {
        assert(visited@[k] == vpush[k]);
        assert(dpush[k] == vpush[k].deep_view());
        assert(dpush[k] == vis0.push(p)[k]);
    }
    assert(visited.deep_view() =~= vis0);
}

fn push_diag(v: &mut Vec<Diagnostic>, d: Diagnostic)
    ensures
        final(v).deep_view() == old(v).deep_view().push(d.deep_view()),
{
    let ghost before = v.deep_view();
    v.push(d);
    assert(v.deep_view() =~= before.push(d.deep_view()));
}

fn quoted_message(prefix: &str, path: &String, suffix: &str) -> (r: String)
    ensures
        r@ == prefix@ + path@ + suffix@,
{
    let mut m = chars_of(prefix);
    append_chars(&mut m, &chars_of(path.as_str()));
    append_chars(&mut m, &chars_of(suffix));
    string_of(&m)
}

fn line_kept(raw: &Vec<char>) -> (r: Vec<char>)
    ensures
        r@ == raw@.push('\n'),
{
    let mut out = crate::text::slice_of(raw, 0, raw.len());
    assert(out@ =~= raw@);
    out.push('\n');
    out
}

/// Expands one line (see `expand_line`).
fn expand_line_exec(
    raw: &Vec<char>,
    ln: usize,
    resolver: Option<&dyn IncludeResolver>,
    max: u128,
    depth: u128,
    visited: &mut Vec<String>,
    diags: &mut Vec<Diagnostic>,
) -> (r: (Vec<char>, Ghost<Seq<Answer>>))
    requires
        depth <= max,
        max <= usize::MAX,
    ensures
        final(visited).deep_view() == old(visited).deep_view(),
        forall|a: Seq<Answer>, i: int|
            #[trigger] log_at(a, i, r.1@) ==> {
                let e = expand_line(
                    raw@,
                    ln,
                    max as nat,
                    depth as nat,
                    old(visited).deep_view(),
                    resolver is Some,
                    a,
                    i,
                );
                &&& e.out == r.0@
                &&& final(diags).deep_view() == old(diags).deep_view() + e.diags
                &&& e.next == i + r.1@.len()
                &&& answered(resolver, e.asked, r.1@)
            },
    decreases max + 1 - depth, 0int, 0int,
{
    let ghost vis0 = visited.deep_view();
    let ghost d0 = diags.deep_view();
    let line = trimmed(&strip_line_comment(raw));
    match parse_directive(&line, ln, 1) {
        Some(Directive::Include { path, span }) => {
            match resolver {
                Some(res) => {
                    if contains_path(visited, &path) {
                        let w = Diagnostic {
                            severity: Severity::Warning,
                            message: quoted_message("skipping recursive include `", &path, "`"),
                            opcode: None,
                            value: Some(path.clone()),
                            span,
                        };
                        push_diag(diags, w);
                        let out: Vec<char> = Vec::new();
                        proof {
                            assert forall|a: Seq<Answer>, i: int| #[trigger] log_at(a, i, Seq::<Answer>::empty()) implies {
                                let e = expand_line(raw@, ln, max as nat, depth as nat, vis0, true, a, i);
                                &&& e.out == out@
                                &&& diags.deep_view() == d0 + e.diags
                                &&& e.next == i + 0
                                &&& answered(resolver, e.asked, Seq::<Answer>::empty())
                            } by {
                                assert(out@ =~= Seq::<char>::empty());
                                assert(diags.deep_view() =~= d0 + seq![recursive_include_warning(path@, span)]);
                            }
                        }
                        return (out, Ghost(Seq::empty()));
                    }
                    let ghost before_push = visited.deep_view();
                    visited.push(path.clone());
                    assert(visited.deep_view() =~= vis0.push(path@));
                    let answer = res.resolve(path.as_str());
                    let ghost av = answer_of(answer);
                    match answer {
                        Ok(content) => {
                            let (nested, Ghost(nlog)) = expand_includes(
                                &chars_of(content.as_str()),
                                &chars_of(path.as_str()),
                                resolver,
                                max,
                                depth + 1,
                                visited,
                                diags,
                            );
                            let ghost d1 = diags.deep_view();
                            pop_path(visited, Ghost(vis0), Ghost(path@));
                            let mut out = nested;
                            if !(out.len() > 0 && out[out.len() - 1] == '\n') {
                                out.push('\n');
                            }
                            let ghost log = seq![av] + nlog;
                            proof {
                                assert forall|a: Seq<Answer>, i: int| #[trigger] log_at(a, i, log) implies {
                                    let e = expand_line(raw@, ln, max as nat, depth as nat, vis0, true, a, i);
                                    &&& e.out == out@
                                    &&& d1 == d0 + e.diags
                                    &&& e.next == i + log.len()
                                    &&& answered(resolver, e.asked, log)
                                } by {
                                    let big = a.subrange(i, i + log.len());
                                    assert(big[0] == av);
                                    assert(answer_at(a, i) == av);
                                    assert(a.subrange(i + 1, i + 1 + nlog.len()) =~= big.subrange(1, log.len() as int));
                                    assert(big.subrange(1, log.len() as int) =~= nlog);
                                    assert(log_at(a, i + 1, nlog));
                                }
                            }
                            (out, Ghost(log))
                        },
                        Err(error) => {
                            let mut m = chars_of("failed to include `");
                            append_chars(&mut m, &chars_of(path.as_str()));
                            append_chars(&mut m, &chars_of("`: "));
                            append_chars(&mut m, &chars_of(error.message.as_str()));
                            let d = Diagnostic {
                                severity: Severity::Error,
                                message: string_of(&m),
                                opcode: None,
                                value: Some(path.clone()),
                                span,
                            };
                            push_diag(diags, d);
                            pop_path(visited, Ghost(vis0), Ghost(path@));
                            let out: Vec<char> = Vec::new();
                            let ghost log = seq![av];
                            proof {
                                assert forall|a: Seq<Answer>, i: int| #[trigger] log_at(a, i, log) implies {
                                    let e = expand_line(raw@, ln, max as nat, depth as nat, vis0, true, a, i);
                                    &&& e.out == out@
                                    &&& diags.deep_view() == d0 + e.diags
                                    &&& e.next == i + log.len()
                                    &&& answered(resolver, e.asked, log)
                                } by {
                                    let big = a.subrange(i, i + log.len());
                                    assert(big[0] == av);
                                    assert(answer_at(a, i) == av);
                                    assert(out@ =~= Seq::<char>::empty());
                                    assert(diags.deep_view() =~= d0 + seq![failed_include_error(path@, error.message@, span)]);
                                }
                            }
                            (out, Ghost(log))
                        },
                    }
                },
                None => {
                    let w = unresolved_warning(&path, span);
                    push_diag(diags, w);
                    let out = line_kept(raw);
                    proof {
                        assert forall|a: Seq<Answer>, i: int| #[trigger] log_at(a, i, Seq::<Answer>::empty()) implies {
                            let e = expand_line(raw@, ln, max as nat, depth as nat, vis0, false, a, i);
                            &&& e.out == out@
                            &&& diags.deep_view() == d0 + e.diags
                            &&& e.next == i + 0
                            &&& answered(resolver, e.asked, Seq::<Answer>::empty())
                        } by {
                            assert(diags.deep_view() =~= d0 + seq![unresolved_include_warning(path@, span)]);
                        }
                    }
                    (out, Ghost(Seq::empty()))
                },
            }
        },
        _ => {
            let out = line_kept(raw);
            proof {
                assert forall|a: Seq<Answer>, i: int| #[trigger] log_at(a, i, Seq::<Answer>::empty()) implies {
                    let e = expand_line(raw@, ln, max as nat, depth as nat, vis0, resolver is Some, a, i);
                    &&& e.out == out@
                    &&& diags.deep_view() == d0 + e.diags
                    &&& e.next == i + 0
                    &&& answered(resolver, e.asked, Seq::<Answer>::empty())
                } by {
                    assert(diags.deep_view() =~= d0 + Seq::<SpecDiagnostic>::empty());
                }
            }
            (out, Ghost(Seq::empty()))
        },
    }
}

fn unresolved_warning(path: &String, span: Option<SourceSpan>) -> (d: Diagnostic)
    ensures
        d.deep_view() == unresolved_include_warning(path@, span),
{
    Diagnostic {
        severity: Severity::Warning,
        message: quoted_message("include `", path, "` was not resolved"),
        opcode: None,
        value: Some(path.clone()),
        span,
    }
}

/// Expands a text (see `expand_spec`).
pub fn expand_includes(
    text: &Vec<char>,
    source: &Vec<char>,
    resolver: Option<&dyn IncludeResolver>,
    max: u128,
    depth: u128,
    visited: &mut Vec<String>,
    diags: &mut Vec<Diagnostic>,
) -> (r: (Vec<char>, Ghost<Seq<Answer>>))
    requires
        max <= usize::MAX,
    ensures
        final(visited).deep_view() == old(visited).deep_view(),
        forall|a: Seq<Answer>, i: int|
            #[trigger] log_at(a, i, r.1@) ==> {
                let e = expand_spec(
                    text@,
                    source@,
                    max as nat,
                    depth as nat,
                    old(visited).deep_view(),
                    resolver is Some,
                    a,
                    i,
                );
                &&& e.out == r.0@
                &&& final(diags).deep_view() == old(diags).deep_view() + e.diags
                &&& e.next == i + r.1@.len()
                &&& answered(resolver, e.asked, r.1@)
            },
    decreases max + 1 - depth, 1int, 0int,
{
    let ghost vis0 = visited.deep_view();
    let ghost d0 = diags.deep_view();
    if depth > max {
        let mut m = chars_of("include depth limit reached while parsing ");
        append_chars(&mut m, source);
        let s = string_of(&m);
        push_diag(diags, Diagnostic::warning(s.as_str()));
        let out: Vec<char> = Vec::new();
        proof {
            assert forall|a: Seq<Answer>, i: int| #[trigger] log_at(a, i, Seq::<Answer>::empty()) implies {
                let e = expand_spec(text@, source@, max as nat, depth as nat, vis0, resolver is Some, a, i);
                &&& e.out == out@
                &&& diags.deep_view() == d0 + e.diags
                &&& e.next == i + 0
                &&& answered(resolver, e.asked, Seq::<Answer>::empty())
            } by {
                assert(out@ =~= Seq::<char>::empty());
                assert(diags.deep_view() =~= d0 + seq![depth_limit_warning(source@)]);
            }
        }
        return (out, Ghost(Seq::empty()));
    }
    let cleaned = strip_block_comments(text);
    let ls = split_lines(&cleaned);
    let ghost lsv = ls.deep_view();
    let mut out: Vec<char> = Vec::new();
    let ghost mut log: Seq<Answer> = Seq::empty();
    let mut k: usize = 0;
    proof {
        assert forall|a: Seq<Answer>, i: int| #[trigger] log_at(a, i, log) implies {
            let e = expand_prefix(lsv, 0, max as nat, depth as nat, vis0, resolver is Some, a, i);
            &&& e.out == out@
            &&& diags.deep_view() == d0 + e.diags
            &&& e.next == i + log.len()
            &&& answered(resolver, e.asked, log)
        } by {
            assert(out@ =~= Seq::<char>::empty());
            assert(d0 + Seq::<SpecDiagnostic>::empty() =~= d0);
        }
    }
    while k < ls.len()
        invariant
            k <= ls.len(),
            depth <= max,
            max <= usize::MAX,
            lsv == ls.deep_view(),
            visited.deep_view() == vis0,
            forall|a: Seq<Answer>, i: int|
                #[trigger] log_at(a, i, log) ==> {
                    let e = expand_prefix(lsv, k as int, max as nat, depth as nat, vis0, resolver is Some, a, i);
                    &&& e.out == out@
                    &&& diags.deep_view() == d0 + e.diags
                    &&& e.next == i + log.len()
                    &&& answered(resolver, e.asked, log)
                },
        decreases ls.len() - k,
    {
        proof {
            lemma_char_vec_deep_view(&ls[k as int]);
        }
        let ghost dk = diags.deep_view();
        let ghost out_k = out@;
        let (s, Ghost(slog)) = expand_line_exec(&ls[k], k + 1, resolver, max, depth, visited, diags);
        append_chars(&mut out, &s);
        let ghost new_log = log + slog;
        proof {
            assert forall|a: Seq<Answer>, i: int| #[trigger] log_at(a, i, new_log) implies {
                let e = expand_prefix(lsv, k + 1, max as nat, depth as nat, vis0, resolver is Some, a, i);
                &&& e.out == out@
                &&& diags.deep_view() == d0 + e.diags
                &&& e.next == i + new_log.len()
                &&& answered(resolver, e.asked, new_log)
            } by {
                let big = a.subrange(i, i + new_log.len());
                assert(a.subrange(i, i + log.len()) =~= big.subrange(0, log.len() as int));
                assert(big.subrange(0, log.len() as int) =~= log);
                assert(log_at(a, i, log));
                let j = i + log.len();
                assert(a.subrange(j, j + slog.len()) =~= big.subrange(log.len() as int, new_log.len() as int));
                assert(big.subrange(log.len() as int, new_log.len() as int) =~= slog);
                assert(log_at(a, j, slog));
                let prev = expand_prefix(lsv, k as int, max as nat, depth as nat, vis0, resolver is Some, a, i);
                let step = expand_line(lsv[k as int], (k + 1) as usize, max as nat, depth as nat, vis0, resolver is Some, a, prev.next);
                assert(diags.deep_view() =~= d0 + (prev.diags + step.diags));
                assert(out@ =~= prev.out + step.out);
            }
            log = new_log;
        }
        k = k + 1;
    }
    (out, Ghost(log))
}

} // verus!
