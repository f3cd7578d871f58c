//! Properties of the library as a whole, proved over the models that the
//! functions' contracts use.

use vstd::prelude::*;
use crate::ast::{
    header_kind_of, opcode_diag, Severity, SourceSpan, SpecControl, SpecDiagnostic, SpecDirective,
    SpecHeaderBlock, SpecHeaderKind, SpecRawOpcode, SpecResolvedRegion,
};
use crate::expand::{expand_line, expand_prefix, expand_spec, Answer, Expansion};
use crate::parser::{
    define_names_distinct, directive_of, lemma_scan_line_distinct, opcode_at, push_opcode_spec,
    scan_line, scan_lines, subst_opcode, substitute, substitute_from, value_end, RawState,
};
use crate::text::{
    ascii_lower, before_line_comment, block_comments_removed, decimal, digit_char, find_slashes,
    find_ws, is_ascii_digit, is_key_ch, is_ws, key_run_end, lemma_skip_ws_bounds,
    lemma_trim_end_at_bounds, lines, lower_ch, replace_all, rskip_char, skip_char, skip_ws,
    starts_with, trim, trim_char, trim_end_at, utf8_len,
};
use crate::number::{all_digits, digit_val, digits_value, float_syntax, parse_signed, parse_unsigned};
use crate::opcode_mapping::{
    is_known_key, parse_opcode_spec, LoopMode, OffMode, SpecControlIndex, SpecOpcode,
    SpecOpcodeParse, Trigger,
};
use crate::resolve::{
    control_blocks, control_directives, control_opcodes, directive_warnings, include_warnings,
    inherited, key_index, override_by_key_spec, override_fold, override_step, region_diags,
    region_fold, resolve_control_spec, resolve_document_spec, resolve_regions_spec,
    unresolved_include_warning, validate_fold, validate_region_spec,
};

verus! {

/// An opcode is reported as unknown exactly when its key is outside the
/// typed subset: every key of the subset gives a typed opcode or a
/// diagnostic, and no other key does.
pub proof fn law_unknown_iff_not_known_key(op: SpecRawOpcode)
    ensures
        (parse_opcode_spec(op) is Unknown) <==> !is_known_key(op.key),
{
}

/// A value that does not fit its known key gives an error diagnostic that
/// names the opcode's key, value and span.
pub proof fn law_invalid_value_is_error_about_opcode(op: SpecRawOpcode)
    ensures
        parse_opcode_spec(op) matches SpecOpcodeParse::Invalid(d) ==> {
            &&& d == opcode_diag(Severity::Error, d.message, op)
            &&& is_known_key(op.key)
        },
{
}


/// The typed opcode that a raw opcode gives, if any.
pub open spec fn typed_of() -> spec_fn(SpecRawOpcode) -> Option<SpecOpcode> {
    |op: SpecRawOpcode|
        match parse_opcode_spec(op) {
            SpecOpcodeParse::Known(t) => Some(t),
            _ => None,
        }
}

/// The diagnostic that a raw opcode gives, if any.
pub open spec fn diagnostic_of() -> spec_fn(SpecRawOpcode) -> Option<SpecDiagnostic> {
    |op: SpecRawOpcode|
        match parse_opcode_spec(op) {
            SpecOpcodeParse::Invalid(d) => Some(d),
            _ => None,
        }
}

pub open spec fn has_unknown_key() -> spec_fn(SpecRawOpcode) -> bool {
    |op: SpecRawOpcode| !is_known_key(op.key)
}

proof fn lemma_validate_fold(raw: Seq<SpecRawOpcode>, n: int)
    requires
        0 <= n <= raw.len(),
    ensures
        validate_fold(raw, n).raw_opcodes == raw,
        validate_fold(raw, n).typed_opcodes == raw.take(n).filter_map(typed_of()),
        validate_fold(raw, n).unknown_opcodes == raw.take(n).filter(has_unknown_key()),
        validate_fold(raw, n).diagnostics == raw.take(n).filter_map(diagnostic_of()),
    decreases n,
{
    if n == 0 {
        assert(raw.take(0) =~= Seq::<SpecRawOpcode>::empty());
    } else {
        lemma_validate_fold(raw, n - 1);
        let t = raw.take(n);
        assert(t.drop_last() =~= raw.take(n - 1));
        assert(t.last() == raw[n - 1]);
        law_unknown_iff_not_known_key(raw[n - 1]);
        let prev = validate_fold(raw, n - 1);
        let cur = validate_fold(raw, n);
        assert(cur.typed_opcodes =~= t.filter_map(typed_of()));
        assert(cur.diagnostics =~= t.filter_map(diagnostic_of()));
        assert(t =~= raw.take(n - 1).push(raw[n - 1]));
        raw.take(n - 1).lemma_filter_push(raw[n - 1], has_unknown_key());
        assert(cur.unknown_opcodes =~= t.filter(has_unknown_key()));
    }
}

/// Validating a region keeps every raw opcode, in order; its typed opcodes
/// are those that the raw opcodes give, in order; its unknown opcodes are the
/// raw opcodes whose keys are outside the typed subset; its diagnostics are
/// those that the raw opcodes give. So each raw opcode counts exactly once.
pub proof fn law_validation_accounts_for_every_opcode(raw: Seq<SpecRawOpcode>)
    ensures
        validate_region_spec(raw).raw_opcodes == raw,
        validate_region_spec(raw).typed_opcodes == raw.filter_map(typed_of()),
        validate_region_spec(raw).unknown_opcodes == raw.filter(has_unknown_key()),
        validate_region_spec(raw).diagnostics == raw.filter_map(diagnostic_of()),
        validate_region_spec(raw).typed_opcodes.len() + validate_region_spec(raw).unknown_opcodes.len()
            + validate_region_spec(raw).diagnostics.len() == raw.len(),
{
    lemma_validate_fold(raw, raw.len() as int);
    assert(raw.take(raw.len() as int) =~= raw);
    lemma_counts(raw, raw.len() as int);
}

proof fn lemma_counts(raw: Seq<SpecRawOpcode>, n: int)
    requires
        0 <= n <= raw.len(),
    ensures
        raw.take(n).filter_map(typed_of()).len() + raw.take(n).filter(has_unknown_key()).len()
            + raw.take(n).filter_map(diagnostic_of()).len() == n,
    decreases n,
{
    if n == 0 {
        assert(raw.take(0) =~= Seq::<SpecRawOpcode>::empty());
    } else {
        lemma_counts(raw, n - 1);
        let t = raw.take(n);
        assert(t.drop_last() =~= raw.take(n - 1));
        assert(t.last() == raw[n - 1]);
        law_unknown_iff_not_known_key(raw[n - 1]);
        assert(t =~= raw.take(n - 1).push(raw[n - 1]));
        raw.take(n - 1).lemma_filter_len_push(has_unknown_key(), raw[n - 1]);
    }
}


/// Index of the last opcode before `n` whose key is `key`, or -1.
pub open spec fn last_index(ops: Seq<SpecRawOpcode>, key: Seq<char>, n: int) -> int
    decreases n,
{
    if n <= 0 {
        -1
    } else if ops[n - 1].key == key {
        n - 1
    } else {
        last_index(ops, key, n - 1)
    }
}

proof fn lemma_key_index(out: Seq<SpecRawOpcode>, key: Seq<char>, i: int)
    requires
        0 <= i <= out.len(),
    ensures
        i <= key_index(out, key, i) <= out.len(),
        key_index(out, key, i) < out.len() ==> out[key_index(out, key, i)].key == key,
        forall|j: int| i <= j < key_index(out, key, i) ==> #[trigger] out[j].key != key,
    decreases out.len() - i,
{
    if i < out.len() && out[i].key != key {
        lemma_key_index(out, key, i + 1);
    }
}

pub open spec fn keys_distinct(out: Seq<SpecRawOpcode>) -> bool {
    forall|i: int, j: int|
        0 <= i < out.len() && 0 <= j < out.len() && i != j ==> #[trigger] out[i].key
            != #[trigger] out[j].key
}

proof fn lemma_override_fold(ops: Seq<SpecRawOpcode>, n: int)
    requires
        0 <= n <= ops.len(),
    ensures
        keys_distinct(override_fold(ops, n)),
        forall|k: int|
            0 <= k < n ==> #[trigger] key_index(override_fold(ops, n), ops[k].key, 0)
                < override_fold(ops, n).len(),
        forall|j: int|
            0 <= j < override_fold(ops, n).len() ==> {
                let li = last_index(ops, #[trigger] override_fold(ops, n)[j].key, n);
                0 <= li && override_fold(ops, n)[j] == ops[li]
            },
    decreases n,
{
    if n > 0 {
        lemma_override_fold(ops, n - 1);
        let out = override_fold(ops, n - 1);
        let op = ops[n - 1];
        let idx = key_index(out, op.key, 0);
        lemma_key_index(out, op.key, 0);
        let next = override_fold(ops, n);
        assert(next == override_step(out, op));
        assert forall|j: int| 0 <= j < next.len() implies {
            let li = last_index(ops, #[trigger] next[j].key, n);
            0 <= li && next[j] == ops[li]
        } by {
            if j < out.len() && j != idx {
                let li0 = last_index(ops, out[j].key, n - 1);
                assert(out[j] == ops[li0]);
                if idx < out.len() {
                    assert(out[j].key != out[idx].key);
                }
                assert(next[j] == out[j]);
            }
        }
        assert forall|k: int| 0 <= k < n implies #[trigger] key_index(next, ops[k].key, 0)
            < next.len() by {
            let key = ops[k].key;
            lemma_key_index(next, key, 0);
            if key == op.key {
                if idx < out.len() {
                    assert(next[idx].key == key);
                } else {
                    assert(next[out.len() as int].key == key);
                }
            } else {
                let w = key_index(out, key, 0);
                lemma_key_index(out, key, 0);
                assert(out[w].key == key);
                assert(next[w].key == key);
            }
            if key_index(next, key, 0) >= next.len() {
                let w2 = if key == op.key {
                    if idx < out.len() {
                        idx
                    } else {
                        out.len() as int
                    }
                } else {
                    key_index(out, key, 0)
                };
                assert(next[w2].key == key);
                assert(false);
            }
        }
        assert forall|i: int, j: int|
            0 <= i < next.len() && 0 <= j < next.len() && i != j implies #[trigger] next[i].key
            != #[trigger] next[j].key by {
            if idx < out.len() {
                assert(next[i].key == out[i].key);
                assert(next[j].key == out[j].key);
            } else {
                if i < out.len() && j < out.len() {
                    assert(out[i].key != out[j].key);
                }
            }
        }
    }
}

/// Overriding by key leaves one opcode per key, in the place where the key
/// first appeared, and that opcode is the last one written with the key: later
/// opcodes with the same key override earlier ones, and no key is lost.
pub proof fn law_override_keeps_last_per_key(ops: Seq<SpecRawOpcode>)
    ensures
        keys_distinct(override_by_key_spec(ops)),
        forall|k: int|
            0 <= k < ops.len() ==> override_by_key_spec(ops).contains(
                ops[last_index(ops, #[trigger] ops[k].key, ops.len() as int)],
            ),
        forall|j: int|
            0 <= j < override_by_key_spec(ops).len() ==> {
                let li = last_index(ops, #[trigger] override_by_key_spec(ops)[j].key, ops.len() as int);
                0 <= li && override_by_key_spec(ops)[j] == ops[li]
            },
{
    let n = ops.len() as int;
    lemma_override_fold(ops, n);
    let out = override_fold(ops, n);
    assert forall|k: int| 0 <= k < ops.len() implies out.contains(
        ops[last_index(ops, #[trigger] ops[k].key, n)],
    ) by {
        let w = key_index(out, ops[k].key, 0);
        lemma_key_index(out, ops[k].key, 0);
        assert(out[w].key == ops[k].key);
        assert(out[w] == ops[last_index(ops, out[w].key, n)]);
    }
}


/// The distinct keys among the first `n` opcodes, in order of first
/// occurrence.
pub open spec fn first_keys(ops: Seq<SpecRawOpcode>, n: int) -> Seq<Seq<char>>
    decreases n,
{
    if n <= 0 {
        Seq::empty()
    } else {
        let ks = first_keys(ops, n - 1);
        if ks.contains(ops[n - 1].key) {
            ks
        } else {
            ks.push(ops[n - 1].key)
        }
    }
}

/// The keys of a sequence of opcodes, in order.
pub open spec fn keys_of(ops: Seq<SpecRawOpcode>) -> Seq<Seq<char>> {
    ops.map_values(|o: SpecRawOpcode| o.key)
}

proof fn lemma_override_fold_keys(ops: Seq<SpecRawOpcode>, n: int)
    requires
        0 <= n <= ops.len(),
    ensures
        keys_of(override_fold(ops, n)) == first_keys(ops, n),
    decreases n,
{
    if n == 0 {
        assert(keys_of(override_fold(ops, 0)) =~= Seq::<Seq<char>>::empty());
    } else {
        lemma_override_fold_keys(ops, n - 1);
        let out = override_fold(ops, n - 1);
        let op = ops[n - 1];
        let ks = keys_of(out);
        let idx = key_index(out, op.key, 0);
        lemma_key_index(out, op.key, 0);
        if idx < out.len() {
            assert(ks[idx] == op.key);
            assert(ks.contains(op.key));
            assert(keys_of(out.update(idx, op)) =~= ks);
        } else {
            assert(!ks.contains(op.key)) by {
                if ks.contains(op.key) {
                    let w = choose|w: int| 0 <= w < ks.len() && ks[w] == op.key;
                    assert(out[w].key != op.key);
                }
            }
            assert(keys_of(out.push(op)) =~= ks.push(op.key));
        }
    }
}

/// Overriding by key keeps the keys in the order in which each first
/// appeared: the keys of the result are the distinct keys of the input, in
/// order of first occurrence.
pub proof fn law_override_keeps_first_occurrence_order(ops: Seq<SpecRawOpcode>)
    ensures
        keys_of(override_by_key_spec(ops)) == first_keys(ops, ops.len() as int),
{
    lemma_override_fold_keys(ops, ops.len() as int);
}

proof fn lemma_override_fold_distinct(ops: Seq<SpecRawOpcode>, n: int)
    requires
        0 <= n <= ops.len(),
        keys_distinct(ops),
    ensures
        override_fold(ops, n) == ops.take(n),
    decreases n,
{
    if n == 0 {
        assert(ops.take(0) =~= Seq::<SpecRawOpcode>::empty());
    } else {
        lemma_override_fold_distinct(ops, n - 1);
        let out = ops.take(n - 1);
        let op = ops[n - 1];
        lemma_key_index(out, op.key, 0);
        let idx = key_index(out, op.key, 0);
        if idx < out.len() {
            assert(ops[idx].key == op.key);
            assert(false);
        }
        assert(out.push(op) =~= ops.take(n));
    }
}

/// Overriding by key twice gives what overriding once gives.
pub proof fn law_override_is_idempotent(ops: Seq<SpecRawOpcode>)
    ensures
        override_by_key_spec(override_by_key_spec(ops)) == override_by_key_spec(ops),
{
    let once = override_by_key_spec(ops);
    lemma_override_fold(ops, ops.len() as int);
    lemma_override_fold_distinct(once, once.len() as int);
    assert(once.take(once.len() as int) =~= once);
}

proof fn lemma_last_index_is(ops: Seq<SpecRawOpcode>, key: Seq<char>, p: int, n: int)
    requires
        0 <= p < n <= ops.len(),
        ops[p].key == key,
        forall|m: int| p < m < n ==> #[trigger] ops[m].key != key,
    ensures
        last_index(ops, key, n) == p,
    decreases n,
{
    if n - 1 > p {
        lemma_last_index_is(ops, key, p, n - 1);
    }
}

/// A region's own opcode overrides inherited opcodes with the same key: when
/// `local[k]` is the last of the region's own opcodes with its key, the
/// resolved opcodes hold it, and it is the only one with that key.
pub proof fn law_local_overrides_inherited(
    inherited_ops: Seq<SpecRawOpcode>,
    local: Seq<SpecRawOpcode>,
    k: int,
)
    requires
        0 <= k < local.len(),
        forall|m: int| k < m < local.len() ==> #[trigger] local[m].key != local[k].key,
    ensures
        override_by_key_spec(inherited_ops + local).contains(local[k]),
        forall|j: int|
            0 <= j < override_by_key_spec(inherited_ops + local).len() && (
            #[trigger] override_by_key_spec(inherited_ops + local)[j]).key == local[k].key
                ==> override_by_key_spec(inherited_ops + local)[j] == local[k],
{
    let ops = inherited_ops + local;
    let p = inherited_ops.len() + k;
    let key = local[k].key;
    assert(ops[p] == local[k]);
    assert forall|m: int| p < m < ops.len() implies #[trigger] ops[m].key != key by {
        assert(ops[m] == local[m - inherited_ops.len()]);
    }
    lemma_last_index_is(ops, key, p, ops.len() as int);
    law_override_keeps_last_per_key(ops);
    assert(ops[last_index(ops, ops[p].key, ops.len() as int)] == local[k]);
}


pub open spec fn is_region_block() -> spec_fn(SpecHeaderBlock) -> bool {
    |b: SpecHeaderBlock| b.kind is Region
}

proof fn lemma_region_count(bs: Seq<SpecHeaderBlock>, n: int)
    requires
        0 <= n <= bs.len(),
    ensures
        region_fold(bs, n).regions.len() == bs.take(n).filter(is_region_block()).len(),
    decreases n,
{
    if n == 0 {
        assert(bs.take(0) =~= Seq::<SpecHeaderBlock>::empty());
    } else {
        lemma_region_count(bs, n - 1);
        assert(bs.take(n) =~= bs.take(n - 1).push(bs[n - 1]));
        bs.take(n - 1).lemma_filter_len_push(is_region_block(), bs[n - 1]);
    }
}

/// Each `<region>` block gives exactly one resolved region.
pub proof fn law_one_resolved_region_per_region_block(bs: Seq<SpecHeaderBlock>)
    ensures
        resolve_regions_spec(bs).len() == bs.filter(is_region_block()).len(),
{
    lemma_region_count(bs, bs.len() as int);
    assert(bs.take(bs.len() as int) =~= bs);
}

pub open spec fn is_global_block() -> spec_fn(SpecHeaderBlock) -> bool {
    |b: SpecHeaderBlock| b.kind is Global
}

pub open spec fn is_master_block() -> spec_fn(SpecHeaderBlock) -> bool {
    |b: SpecHeaderBlock| b.kind is Master
}

pub open spec fn is_group_block() -> spec_fn(SpecHeaderBlock) -> bool {
    |b: SpecHeaderBlock| b.kind is Group
}

/// Index of the last block in `lo..n` that satisfies `p`, or -1.
pub open spec fn last_block(
    bs: Seq<SpecHeaderBlock>,
    p: spec_fn(SpecHeaderBlock) -> bool,
    lo: int,
    n: int,
) -> int
    decreases n - lo,
{
    if n <= lo {
        -1
    } else if p(bs[n - 1]) {
        n - 1
    } else {
        last_block(bs, p, lo, n - 1)
    }
}

/// The opcodes of block `i`, or none when there is no such block.
pub open spec fn opcodes_at(bs: Seq<SpecHeaderBlock>, i: int) -> Seq<SpecRawOpcode> {
    if 0 <= i < bs.len() {
        bs[i].opcodes
    } else {
        Seq::empty()
    }
}

/// The last `<global>` among the first `n` blocks, or -1.
pub open spec fn last_global(bs: Seq<SpecHeaderBlock>, n: int) -> int {
    last_block(bs, is_global_block(), 0, n)
}

/// The last `<master>` after that `<global>`, among the first `n` blocks, or -1.
pub open spec fn last_master(bs: Seq<SpecHeaderBlock>, n: int) -> int {
    last_block(bs, is_master_block(), last_global(bs, n) + 1, n)
}

/// The last `<group>` after both, among the first `n` blocks, or -1.
pub open spec fn last_group(bs: Seq<SpecHeaderBlock>, n: int) -> int {
    let g = last_global(bs, n);
    let m = last_master(bs, n);
    last_block(bs, is_group_block(), if g < m { m } else { g } + 1, n)
}

proof fn lemma_last_block_bounds(
    bs: Seq<SpecHeaderBlock>,
    p: spec_fn(SpecHeaderBlock) -> bool,
    lo: int,
    n: int,
)
    requires
        0 <= lo && 0 <= n,
    ensures
        -1 <= last_block(bs, p, lo, n) < n,
        last_block(bs, p, lo, n) >= 0 ==> lo <= last_block(bs, p, lo, n),
    decreases n - lo,
{
    if n > lo && !p(bs[n - 1]) {
        lemma_last_block_bounds(bs, p, lo, n - 1);
    }
}

proof fn lemma_inheritance_state(bs: Seq<SpecHeaderBlock>, n: int)
    requires
        0 <= n <= bs.len(),
    ensures
        region_fold(bs, n).global == opcodes_at(bs, last_global(bs, n)),
        region_fold(bs, n).master == opcodes_at(bs, last_master(bs, n)),
        region_fold(bs, n).group == opcodes_at(bs, last_group(bs, n)),
    decreases n,
{
    if n > 0 {
        lemma_inheritance_state(bs, n - 1);
        let b = bs[n - 1];
        let g = last_global(bs, n - 1);
        let m = last_master(bs, n - 1);
        lemma_last_block_bounds(bs, is_global_block(), 0, n - 1);
        lemma_last_block_bounds(bs, is_master_block(), g + 1, n - 1);
        lemma_last_block_bounds(bs, is_group_block(), if g < m { m } else { g } + 1, n - 1);
        assert(last_block(bs, is_master_block(), n, n) == -1);
        assert(last_block(bs, is_group_block(), n, n) == -1);
    }
}

proof fn lemma_regions_prefix(bs: Seq<SpecHeaderBlock>, k: int, n: int)
    requires
        0 <= k <= n <= bs.len(),
    ensures
        region_fold(bs, k).regions.len() <= region_fold(bs, n).regions.len(),
        forall|i: int|
            0 <= i < region_fold(bs, k).regions.len() ==> #[trigger] region_fold(bs, n).regions[i]
                == region_fold(bs, k).regions[i],
    decreases n - k,
{
    if k < n {
        lemma_regions_prefix(bs, k, n - 1);
    }
}

/// Each `<region>` inherits from the latest `<global>` before it, the latest
/// `<master>` after that global, and the latest `<group>` after both (each
/// contributing nothing where there is none), in this order, followed by its
/// own opcodes; later opcodes override earlier ones with the same key. The
/// region is resolved in the place of its block among the `<region>` blocks.
pub proof fn law_region_inherits_latest_headers(bs: Seq<SpecHeaderBlock>, k: int)
    requires
        0 <= k < bs.len(),
        bs[k].kind is Region,
    ensures
        bs.take(k).filter(is_region_block()).len() < resolve_regions_spec(bs).len(),
        resolve_regions_spec(bs)[bs.take(k).filter(is_region_block()).len() as int]
            == validate_region_spec(
            override_by_key_spec(
                opcodes_at(bs, last_global(bs, k)) + opcodes_at(bs, last_master(bs, k))
                    + opcodes_at(bs, last_group(bs, k)) + bs[k].opcodes,
            ),
        ),
{
    lemma_region_count(bs, k);
    lemma_inheritance_state(bs, k);
    lemma_regions_prefix(bs, k + 1, bs.len() as int);
    let i = region_fold(bs, k).regions.len() as int;
    assert(region_fold(bs, k + 1).regions[i] == validate_region_spec(
        override_by_key_spec(inherited(region_fold(bs, k), bs[k].opcodes)),
    ));
}

proof fn lemma_control_found(bs: Seq<SpecHeaderBlock>, n: int)
    requires
        0 <= n <= bs.len(),
    ensures
        control_blocks(bs, n).0 <==> exists|k: int| 0 <= k < n && (#[trigger] bs[k]).kind is Control,
    decreases n,
{
    if n > 0 {
        lemma_control_found(bs, n - 1);
        if bs[n - 1].kind is Control {
            assert(bs[n - 1].kind is Control);
        }
    }
}

/// The document has control details exactly when it has a `<control>` block.
pub proof fn law_control_present_iff_control_block(bs: Seq<SpecHeaderBlock>)
    ensures
        resolve_control_spec(bs) is Some <==> exists|k: int|
            0 <= k < bs.len() && (#[trigger] bs[k]).kind is Control,
{
    lemma_control_found(bs, bs.len() as int);
}

proof fn lemma_region_diags_contain(rs: Seq<SpecResolvedRegion>, n: int, i: int, j: int)
    requires
        0 <= i < n <= rs.len(),
        0 <= j < rs[i].diagnostics.len(),
    ensures
        region_diags(rs, n).contains(rs[i].diagnostics[j]),
    decreases n,
{
    let prev = region_diags(rs, n - 1);
    let cur = region_diags(rs, n);
    if i < n - 1 {
        lemma_region_diags_contain(rs, n - 1, i, j);
        let w = choose|w: int| 0 <= w < prev.len() && prev[w] == rs[i].diagnostics[j];
        assert(cur[w] == prev[w]);
    } else {
        assert(cur[prev.len() + j] == rs[i].diagnostics[j]);
    }
}

/// Every diagnostic of a resolved region is also a diagnostic of the
/// document.
pub proof fn law_document_reports_region_diagnostics(
    blocks: Seq<SpecHeaderBlock>,
    diags: Seq<SpecDiagnostic>,
    i: int,
    j: int,
)
    requires
        0 <= i < resolve_document_spec(blocks, diags).regions.len(),
        0 <= j < resolve_document_spec(blocks, diags).regions[i].diagnostics.len(),
    ensures
        resolve_document_spec(blocks, diags).diagnostics.contains(
            resolve_document_spec(blocks, diags).regions[i].diagnostics[j],
        ),
{
    let doc = resolve_document_spec(blocks, diags);
    let rs = doc.regions;
    lemma_region_diags_contain(rs, rs.len() as int, i, j);
    let rd = region_diags(rs, rs.len() as int);
    let c = control_blocks(blocks, blocks.len() as int);
    let head = diags + c.1.diagnostics + include_warnings(blocks, blocks.len() as int);
    assert(doc.diagnostics == head + rd);
    let w = choose|w: int| 0 <= w < rd.len() && rd[w] == rs[i].diagnostics[j];
    assert(doc.diagnostics[head.len() + w] == rd[w]);
}

proof fn lemma_directive_warnings_contain(
    ds: Seq<SpecDirective>,
    n: int,
    j: int,
    path: Seq<char>,
    span: Option<SourceSpan>,
)
    requires
        0 <= j < n <= ds.len(),
        ds[j] == (SpecDirective::Include { path, span }),
    ensures
        directive_warnings(ds, n).contains(unresolved_include_warning(path, span)),
    decreases n,
{
    let prev = directive_warnings(ds, n - 1);
    let cur = directive_warnings(ds, n);
    if j < n - 1 {
        lemma_directive_warnings_contain(ds, n - 1, j, path, span);
        let w = choose|w: int| 0 <= w < prev.len() && prev[w] == unresolved_include_warning(path, span);
        match ds[n - 1] {
            SpecDirective::Include { .. } => {
                assert(cur[w] == prev[w]);
            },
            _ => {},
        }
    } else {
        assert(cur[prev.len() as int] == unresolved_include_warning(path, span));
    }
}

proof fn lemma_include_warnings_contain(
    bs: Seq<SpecHeaderBlock>,
    n: int,
    k: int,
    j: int,
    path: Seq<char>,
    span: Option<SourceSpan>,
)
    requires
        0 <= k < n <= bs.len(),
        0 <= j < bs[k].directives.len(),
        bs[k].directives[j] == (SpecDirective::Include { path, span }),
    ensures
        include_warnings(bs, n).contains(unresolved_include_warning(path, span)),
    decreases n,
{
    let prev = include_warnings(bs, n - 1);
    let cur = include_warnings(bs, n);
    let w0 = unresolved_include_warning(path, span);
    if k < n - 1 {
        lemma_include_warnings_contain(bs, n - 1, k, j, path, span);
        let w = choose|w: int| 0 <= w < prev.len() && prev[w] == w0;
        assert(cur[w] == prev[w]);
    } else {
        let ds = bs[k].directives;
        lemma_directive_warnings_contain(ds, ds.len() as int, j, path, span);
        let dw = directive_warnings(ds, ds.len() as int);
        let w = choose|w: int| 0 <= w < dw.len() && dw[w] == w0;
        assert(cur[prev.len() + w] == dw[w]);
    }
}

/// An `#include` left in the blocks, as happens when no resolver is given, is
/// reported by a warning that names its path.
pub proof fn law_unresolved_include_is_reported(
    blocks: Seq<SpecHeaderBlock>,
    diags: Seq<SpecDiagnostic>,
    k: int,
    j: int,
    path: Seq<char>,
    span: Option<SourceSpan>,
)
    requires
        0 <= k < blocks.len(),
        0 <= j < blocks[k].directives.len(),
        blocks[k].directives[j] == (SpecDirective::Include { path, span }),
    ensures
        resolve_document_spec(blocks, diags).diagnostics.contains(
            unresolved_include_warning(path, span),
        ),
{
    lemma_include_warnings_contain(blocks, blocks.len() as int, k, j, path, span);
    let doc = resolve_document_spec(blocks, diags);
    let c = control_blocks(blocks, blocks.len() as int);
    let iw = include_warnings(blocks, blocks.len() as int);
    let head = diags + c.1.diagnostics;
    let rs = doc.regions;
    assert(doc.diagnostics == head + iw + region_diags(rs, rs.len() as int));
    let w = choose|w: int| 0 <= w < iw.len() && iw[w] == unresolved_include_warning(path, span);
    assert(doc.diagnostics[head.len() + w] == iw[w]);
}


proof fn lemma_lower_keeps_ws(c: char)
    ensures
        is_ws(lower_ch(c)) == is_ws(c),
        lower_ch(lower_ch(c)) == lower_ch(c),
{
}

proof fn lemma_skip_ws_lower(s: Seq<char>, i: int)
    requires
        0 <= i <= s.len(),
    ensures
        skip_ws(ascii_lower(s), i) == skip_ws(s, i),
    decreases s.len() - i,
{
    if i < s.len() {
        lemma_lower_keeps_ws(s[i]);
        lemma_skip_ws_lower(s, i + 1);
    }
}

proof fn lemma_trim_end_lower(s: Seq<char>, j: int)
    requires
        0 <= j <= s.len(),
    ensures
        trim_end_at(ascii_lower(s), j) == trim_end_at(s, j),
    decreases j,
{
    if j > 0 {
        lemma_lower_keeps_ws(s[j - 1]);
        lemma_trim_end_lower(s, j - 1);
    }
}

proof fn lemma_trim_lower(s: Seq<char>)
    ensures
        trim(ascii_lower(s)) == ascii_lower(trim(s)),
{
    lemma_skip_ws_lower(s, 0);
    lemma_trim_end_lower(s, s.len() as int);
    let a = skip_ws(s, 0);
    let b = trim_end_at(s, s.len() as int);
    lemma_skip_ws_bounds(s, 0);
    lemma_trim_end_at_bounds(s, s.len() as int);
    if a < b {
        assert(ascii_lower(s).subrange(a, b) =~= ascii_lower(s.subrange(a, b)));
    } else {
        assert(ascii_lower(Seq::<char>::empty()) =~= Seq::<char>::empty());
    }
}

/// Header names are matched without regard to ASCII letter case.
pub proof fn law_header_kind_ignores_case(name: Seq<char>)
    ensures
        header_kind_of(ascii_lower(name)) == header_kind_of(name),
{
    lemma_trim_lower(name);
    let t = trim(name);
    assert forall|i: int| 0 <= i < t.len() implies #[trigger] ascii_lower(ascii_lower(t))[i]
        == ascii_lower(t)[i] by {
        lemma_lower_keeps_ws(t[i]);
    }
    assert(ascii_lower(ascii_lower(t)) =~= ascii_lower(t));
}


/// The defines recorded while reading lines never hold two entries with one
/// name, after any number of lines: a later `#define` of a name replaces the
/// earlier value.
pub proof fn law_define_names_distinct(ls: Seq<Seq<char>>, n: int)
    ensures
        define_names_distinct(scan_lines(ls, n).defines),
    decreases n,
{
    if n > 0 {
        law_define_names_distinct(ls, n - 1);
        lemma_scan_line_distinct(before_line_comment(ls[n - 1]), n as usize, 0, scan_lines(ls, n - 1));
    }
}

/// The first `n` lines, each followed by a line break.
pub open spec fn joined_lines(ls: Seq<Seq<char>>, n: int) -> Seq<char>
    decreases n,
{
    if n <= 0 {
        Seq::empty()
    } else {
        joined_lines(ls, n - 1) + ls[n - 1].push('\n')
    }
}

/// Whether no line of `text` is an `#include` directive.
pub open spec fn has_no_include_line(text: Seq<char>) -> bool {
    let ls = lines(block_comments_removed(text));
    forall|k: int| 0 <= k < ls.len() ==> !is_include_line(#[trigger] ls[k], k + 1)
}

/// Whether line `ln` is an `#include` directive.
pub open spec fn is_include_line(raw: Seq<char>, ln: int) -> bool {
    directive_of(trim(before_line_comment(raw)), ln as usize, 1) matches Some(
        SpecDirective::Include { .. },
    )
}

proof fn lemma_expand_prefix_no_include(
    ls: Seq<Seq<char>>,
    n: int,
    max: nat,
    depth: nat,
    visited: Seq<Seq<char>>,
    has_resolver: bool,
    answers: Seq<Answer>,
    i: int,
)
    requires
        0 <= n <= ls.len(),
        depth <= max,
        forall|k: int| 0 <= k < ls.len() ==> !is_include_line(#[trigger] ls[k], k + 1),
    ensures
        expand_prefix(ls, n, max, depth, visited, has_resolver, answers, i) == (Expansion {
            out: joined_lines(ls, n),
            diags: Seq::empty(),
            asked: Seq::empty(),
            next: i,
        }),
    decreases n,
{
    if n > 0 {
        lemma_expand_prefix_no_include(ls, n - 1, max, depth, visited, has_resolver, answers, i);
        assert(!is_include_line(ls[n - 1], n));
        let prev = expand_prefix(ls, n - 1, max, depth, visited, has_resolver, answers, i);
        let step = expand_line(ls[n - 1], n as usize, max, depth, visited, has_resolver, answers, i);
        assert(step.out == ls[n - 1].push('\n'));
        assert(step.diags =~= Seq::<SpecDiagnostic>::empty());
        assert(prev.diags + step.diags =~= Seq::<SpecDiagnostic>::empty());
        assert(prev.asked + step.asked =~= Seq::<Seq<char>>::empty());
    }
}

/// A text without `#include` lines is kept line by line (block comments
/// removed, each line ended by a line break), with no diagnostics and without
/// asking the resolver anything.
pub proof fn law_text_without_includes_is_kept(
    text: Seq<char>,
    source: Seq<char>,
    max: nat,
    depth: nat,
    visited: Seq<Seq<char>>,
    has_resolver: bool,
    answers: Seq<Answer>,
    i: int,
)
    requires
        depth <= max,
        has_no_include_line(text),
    ensures
        expand_spec(text, source, max, depth, visited, has_resolver, answers, i) == (Expansion {
            out: joined_lines(
                lines(block_comments_removed(text)),
                lines(block_comments_removed(text)).len() as int,
            ),
            diags: Seq::empty(),
            asked: Seq::empty(),
            next: i,
        }),
{
    let ls = lines(block_comments_removed(text));
    lemma_expand_prefix_no_include(ls, ls.len() as int, max, depth, visited, has_resolver, answers, i);
}

proof fn lemma_substitute_from_push(
    s: Seq<char>,
    defs: Seq<(Seq<char>, Seq<char>)>,
    d: (Seq<char>, Seq<char>),
    i: int,
)
    requires
        0 <= i <= defs.len(),
    ensures
        substitute_from(s, defs.push(d), i) == replace_all(substitute_from(s, defs, i), d.0, d.1),
    decreases defs.len() - i,
{
    if i < defs.len() {
        assert(defs.push(d)[i] == defs[i]);
        lemma_substitute_from_push(replace_all(s, defs[i].0, defs[i].1), defs, d, i + 1);
    } else {
        assert(defs.push(d)[i] == d);
        assert(substitute_from(replace_all(s, d.0, d.1), defs.push(d), i + 1) == replace_all(s, d.0, d.1));
        assert(substitute_from(s, defs, i) == s);
    }
}

/// Every define is applied, in the order in which they were recorded: with
/// one more define, the result is the earlier result with every occurrence
/// of the new name replaced by its value. With no defines the text is kept.
pub proof fn law_every_define_is_applied(
    s: Seq<char>,
    defs: Seq<(Seq<char>, Seq<char>)>,
    name: Seq<char>,
    value: Seq<char>,
)
    ensures
        substitute(s, defs.push((name, value))) == replace_all(substitute(s, defs), name, value),
        substitute(s, Seq::empty()) == s,
{
    lemma_substitute_from_push(s, defs, (name, value), 0);
}

pub open spec fn is_define_directive() -> spec_fn(SpecDirective) -> bool {
    |d: SpecDirective| d is Define
}

pub open spec fn is_include_directive() -> spec_fn(SpecDirective) -> bool {
    |d: SpecDirective| d is Include
}

/// The name and value of a `#define`.
pub open spec fn define_pair(d: SpecDirective) -> (Seq<char>, Seq<char>) {
    match d {
        SpecDirective::Define { name, value, .. } => (name, value),
        _ => (Seq::empty(), Seq::empty()),
    }
}

/// The path of an `#include`.
pub open spec fn include_path(d: SpecDirective) -> Seq<char> {
    match d {
        SpecDirective::Include { path, .. } => path,
        _ => Seq::empty(),
    }
}

/// The `#define` pairs of the `<control>` blocks among the first `n`
/// blocks, block by block, each block's in the order written.
pub open spec fn control_define_pairs(bs: Seq<SpecHeaderBlock>, n: int) -> Seq<(Seq<char>, Seq<char>)>
    decreases n,
{
    if n <= 0 {
        Seq::empty()
    } else if bs[n - 1].kind is Control {
        control_define_pairs(bs, n - 1) + bs[n - 1].directives.filter(is_define_directive()).map_values(
            |d: SpecDirective| define_pair(d),
        )
    } else {
        control_define_pairs(bs, n - 1)
    }
}

/// The `#include` paths of the `<control>` blocks among the first `n`
/// blocks, in order.
pub open spec fn control_include_paths(bs: Seq<SpecHeaderBlock>, n: int) -> Seq<Seq<char>>
    decreases n,
{
    if n <= 0 {
        Seq::empty()
    } else if bs[n - 1].kind is Control {
        control_include_paths(bs, n - 1) + bs[n - 1].directives.filter(is_include_directive()).map_values(
            |d: SpecDirective| include_path(d),
        )
    } else {
        control_include_paths(bs, n - 1)
    }
}

proof fn lemma_control_opcodes_keep(c: SpecControl, ops: Seq<SpecRawOpcode>, n: int)
    ensures
        control_opcodes(c, ops, n).defines == c.defines,
        control_opcodes(c, ops, n).includes == c.includes,
    decreases n,
{
    if n > 0 {
        lemma_control_opcodes_keep(c, ops, n - 1);
    }
}

proof fn lemma_control_directives(c: SpecControl, ds: Seq<SpecDirective>, n: int)
    requires
        0 <= n <= ds.len(),
    ensures
        control_directives(c, ds, n).defines == c.defines + ds.take(n).filter(is_define_directive()).map_values(
            |d: SpecDirective| define_pair(d),
        ),
        control_directives(c, ds, n).includes == c.includes + ds.take(n).filter(is_include_directive()).map_values(
            |d: SpecDirective| include_path(d),
        ),
    decreases n,
{
    if n == 0 {
        assert(ds.take(0) =~= Seq::<SpecDirective>::empty());
        assert(ds.take(0).filter(is_define_directive()) =~= Seq::<SpecDirective>::empty());
        assert(ds.take(0).filter(is_include_directive()) =~= Seq::<SpecDirective>::empty());
        assert(c.defines + Seq::<(Seq<char>, Seq<char>)>::empty() =~= c.defines);
        assert(c.includes + Seq::<Seq<char>>::empty() =~= c.includes);
    } else {
        lemma_control_directives(c, ds, n - 1);
        let prev = ds.take(n - 1);
        let d = ds[n - 1];
        assert(ds.take(n) =~= prev.push(d));
        prev.lemma_filter_push(d, is_define_directive());
        prev.lemma_filter_push(d, is_include_directive());
        let pd = prev.filter(is_define_directive());
        let pi = prev.filter(is_include_directive());
        if d is Define {
            assert(pd.push(d).map_values(|x: SpecDirective| define_pair(x)) =~= pd.map_values(
                |x: SpecDirective| define_pair(x),
            ).push(define_pair(d)));
        } else {
            assert(pi.push(d).map_values(|x: SpecDirective| include_path(x)) =~= pi.map_values(
                |x: SpecDirective| include_path(x),
            ).push(include_path(d)));
        }
    }
}

proof fn lemma_control_blocks_lists(bs: Seq<SpecHeaderBlock>, n: int)
    requires
        0 <= n <= bs.len(),
    ensures
        control_blocks(bs, n).1.defines == control_define_pairs(bs, n),
        control_blocks(bs, n).1.includes == control_include_paths(bs, n),
    decreases n,
{
    if n > 0 {
        lemma_control_blocks_lists(bs, n - 1);
        let b = bs[n - 1];
        if b.kind is Control {
            let c = control_blocks(bs, n - 1).1;
            let ds = b.directives;
            lemma_control_directives(c, ds, ds.len() as int);
            lemma_control_opcodes_keep(control_directives(c, ds, ds.len() as int), b.opcodes, b.opcodes.len() as int);
            assert(ds.take(ds.len() as int) =~= ds);
        }
    }
}

/// The control details list the `#define` pairs and the `#include` paths of
/// the `<control>` blocks, in the order written.
pub proof fn law_control_lists_defines_and_includes(bs: Seq<SpecHeaderBlock>)
    ensures
        resolve_control_spec(bs) matches Some(c) ==> {
            &&& c.defines == control_define_pairs(bs, bs.len() as int)
            &&& c.includes == control_include_paths(bs, bs.len() as int)
        },
{
    lemma_control_blocks_lists(bs, bs.len() as int);
}

/// Whitespace is Unicode `White_Space`, as `char::is_whitespace` tests it:
/// tab, line feed, vertical tab, form feed, carriage return, space, next
/// line, no-break space, ogham space mark, the spaces U+2000 to U+200A, line
/// and paragraph separators, narrow no-break space, medium mathematical space
/// and ideographic space, and nothing else.
pub proof fn law_whitespace_is_unicode_white_space(c: char)
    ensures
        is_ws(c) <==> {
            let u = c as u32;
            ||| u == 0x09
            ||| u == 0x0A
            ||| u == 0x0B
            ||| u == 0x0C
            ||| u == 0x0D
            ||| u == 0x20
            ||| u == 0x85
            ||| u == 0xA0
            ||| u == 0x1680
            ||| u == 0x2000
            ||| u == 0x2001
            ||| u == 0x2002
            ||| u == 0x2003
            ||| u == 0x2004
            ||| u == 0x2005
            ||| u == 0x2006
            ||| u == 0x2007
            ||| u == 0x2008
            ||| u == 0x2009
            ||| u == 0x200A
            ||| u == 0x2028
            ||| u == 0x2029
            ||| u == 0x202F
            ||| u == 0x205F
            ||| u == 0x3000
        },
{
}

/// Leading whitespace before an opcode is skipped: a tab or any other
/// whitespace character put before a line moves where its content starts by
/// one and changes nothing else.
pub proof fn law_leading_whitespace_is_skipped(w: char, s: Seq<char>)
    requires
        is_ws(w),
    ensures
        skip_ws(seq![w] + s, 0) == 1 + skip_ws(s, 0),
{
    lemma_skip_ws_shift(w, s, 0);
}

proof fn lemma_skip_ws_shift(w: char, s: Seq<char>, i: int)
    requires
        0 <= i <= s.len(),
    ensures
        skip_ws(seq![w] + s, i + 1) == 1 + skip_ws(s, i),
    decreases s.len() - i,
{
    let t = seq![w] + s;
    if i < s.len() {
        assert(t[i + 1] == s[i]);
        if is_ws(s[i]) {
            lemma_skip_ws_shift(w, s, i + 1);
        }
    }
}

proof fn lemma_trim_keeps(s: Seq<char>)
    requires
        s.len() > 0,
        !is_ws(s[0]),
        !is_ws(s.last()),
    ensures
        trim(s) == s,
{
    assert(skip_ws(s, 0) == 0);
    assert(trim_end_at(s, s.len() as int) == s.len());
    assert(s.subrange(0, s.len() as int) =~= s);
}

proof fn lemma_trim_char_keeps(s: Seq<char>, c: char)
    requires
        s.len() > 0,
        s[0] != c,
        s.last() != c,
    ensures
        trim_char(s, c) == s,
{
    assert(skip_char(s, c, 0) == 0);
    assert(rskip_char(s, c, s.len() as int) == s.len());
    assert(s.subrange(0, s.len() as int) =~= s);
}

/// The path of an `#include` is the whole text between its quotes, spaces
/// included: a line `#include "P"`, where `P` is not empty and holds no
/// quote, is an include of exactly `P`.
pub proof fn law_include_path_is_quoted_text(p: Seq<char>, ln: usize, column: usize)
    requires
        p.len() > 0,
        forall|k: int| 0 <= k < p.len() ==> #[trigger] p[k] != '"' && p[k] != '\'',
    ensures
        directive_of("#include \""@ + p + "\""@, ln, column) == Some(
            SpecDirective::Include { path: p, span: Some(SourceSpan { line: ln, column }) },
        ),
{
    reveal_strlit("#include \"");
    reveal_strlit("\"");
    reveal_strlit("#define");
    reveal_strlit("#include");
    let q = "\""@;
    let line = "#include \""@ + p + q;
    assert(line[0] == '#');
    assert(line.last() == '"');
    lemma_trim_keeps(line);
    assert(line[1] == 'i');
    assert(!starts_with(line, "#define"@)) by {
        assert(line.take(7)[1] != "#define"@[1]);
    }
    assert(line.take(8) =~= "#include"@);
    let r0 = line.skip(8);
    let quoted = q + p + q;
    assert(r0 =~= seq![' '] + quoted);
    assert(skip_ws(r0, 1) == 1);
    assert(skip_ws(r0, 0) == 1);
    assert(trim_end_at(r0, r0.len() as int) == r0.len());
    assert(trim(r0) =~= quoted);
    assert(quoted[0] == '"');
    assert(quoted.last() == '"');
    lemma_trim_keeps(quoted);
    assert(skip_char(quoted, '"', 1) == 1) by {
        assert(quoted[1] == p[0]);
    }
    assert(skip_char(quoted, '"', 0) == 1);
    assert(rskip_char(quoted, '"', quoted.len() - 1) == quoted.len() - 1) by {
        assert(quoted[quoted.len() - 2] == p[p.len() - 1]);
    }
    assert(rskip_char(quoted, '"', quoted.len() as int) == quoted.len() - 1);
    assert(quoted.subrange(1, quoted.len() - 1) =~= p);
    assert(trim_char(quoted, '"') == p);
    lemma_trim_char_keeps(p, '\'');
}

proof fn lemma_digit_char(d: nat)
    requires
        d < 10,
    ensures
        is_ascii_digit(digit_char(d)),
        digit_val(digit_char(d)) == d,
{
    if d == 0 {
        assert(digit_char(d) == '0');
    } else if d == 1 {
        assert(digit_char(d) == '1');
    } else if d == 2 {
        assert(digit_char(d) == '2');
    } else if d == 3 {
        assert(digit_char(d) == '3');
    } else if d == 4 {
        assert(digit_char(d) == '4');
    } else if d == 5 {
        assert(digit_char(d) == '5');
    } else if d == 6 {
        assert(digit_char(d) == '6');
    } else if d == 7 {
        assert(digit_char(d) == '7');
    } else if d == 8 {
        assert(digit_char(d) == '8');
    } else {
        assert(digit_char(d) == '9');
    }
}

/// The decimal digits of `n` read back as `n`.
proof fn lemma_decimal_digits(n: nat)
    ensures
        decimal(n).len() > 0,
        all_digits(decimal(n)),
        digits_value(decimal(n)) == n,
    decreases n,
{
    lemma_digit_char(n % 10);
    if n < 10 {
        let s = decimal(n);
        assert(s.drop_last() =~= Seq::<char>::empty());
        assert(digits_value(s.drop_last()) == 0);
        assert(s.last() == digit_char(n % 10));
        assert(n % 10 == n);
    } else {
        lemma_decimal_digits(n / 10);
        let s = decimal(n);
        assert(s.drop_last() =~= decimal(n / 10));
        assert(forall|i: int| 0 <= i < s.len() ==> #[trigger] s[i] == if i < s.len() - 1 {
            decimal(n / 10)[i]
        } else {
            digit_char(n % 10)
        });
        assert(s.last() == digit_char(n % 10));
        assert(n == (n / 10) * 10 + n % 10);
    }
}

/// What `parse` gives for the decimal digits of `n`, and for them after `-`.
proof fn lemma_decimal_parses(n: nat, max: nat)
    ensures
        n <= max ==> parse_unsigned(decimal(n), max) == Some(n),
        n <= max ==> parse_signed(decimal(n), max) == Some(n as int),
        n <= max + 1 ==> parse_signed(seq!['-'] + decimal(n), max) == Some(-(n as int)),
{
    lemma_decimal_digits(n);
    let s = decimal(n);
    assert(is_ascii_digit(s[0]));
    assert((seq!['-'] + s).skip(1) =~= s);
}

/// The raw opcode `key=value`.
pub open spec fn raw_opcode(key: Seq<char>, value: Seq<char>, span: Option<SourceSpan>) -> SpecRawOpcode {
    SpecRawOpcode { key, value, span }
}

/// Each MIDI key of the typed subset gives the variant that it names, with
/// the number written: `key=n` gives `Key(n)`, `pitch_keycenter=n` gives
/// `PitchKeycenter(n)`, and so on, for every `n` up to 127.
pub proof fn law_midi_keys_give_their_variant(n: nat, span: Option<SourceSpan>)
    requires
        n <= 127,
    ensures
        parse_opcode_spec(raw_opcode("key"@, decimal(n), span)) == SpecOpcodeParse::Known(SpecOpcode::Key(n as u8)),
        parse_opcode_spec(raw_opcode("lokey"@, decimal(n), span)) == SpecOpcodeParse::Known(SpecOpcode::LoKey(n as u8)),
        parse_opcode_spec(raw_opcode("hikey"@, decimal(n), span)) == SpecOpcodeParse::Known(SpecOpcode::HiKey(n as u8)),
        parse_opcode_spec(raw_opcode("lovel"@, decimal(n), span)) == SpecOpcodeParse::Known(SpecOpcode::LoVel(n as u8)),
        parse_opcode_spec(raw_opcode("hivel"@, decimal(n), span)) == SpecOpcodeParse::Known(SpecOpcode::HiVel(n as u8)),
        parse_opcode_spec(raw_opcode("pitch_keycenter"@, decimal(n), span)) == SpecOpcodeParse::Known(
            SpecOpcode::PitchKeycenter(n as u8),
        ),
{
    lemma_decimal_parses(n, 65535);
    reveal_strlit("sample");
    reveal_strlit("key");
    reveal_strlit("lokey");
    reveal_strlit("hikey");
    reveal_strlit("lovel");
    reveal_strlit("hivel");
    reveal_strlit("pitch_keycenter");
    reveal_strlit("offset");
    reveal_strlit("end");
    reveal_strlit("loop_start");
    reveal_strlit("loop_end");
    reveal_strlit("loop_mode");
    reveal_strlit("trigger");
    reveal_strlit("group");
    reveal_strlit("off_by");
    reveal_strlit("off_mode");
    reveal_strlit("seq_position");
    reveal_strlit("seq_length");
    reveal_strlit("volume");
    reveal_strlit("pan");
    reveal_strlit("amp_veltrack");
    reveal_strlit("default_path");
    reveal_strlit("note_offset");
    reveal_strlit("octave_offset");
    reveal_strlit("curve_index");
    reveal_strlit("label_cc");
    reveal_strlit("set_cc");
    assert("sample"@[0] != "offset"@[0]);
    assert("sample"@[0] != "off_by"@[0]);
    assert("sample"@[0] != "volume"@[0]);
    assert("sample"@[1] != "set_cc"@[1]);
    assert("key"@[0] != "end"@[0]);
    assert("key"@[0] != "pan"@[0]);
    assert("lokey"@[0] != "hikey"@[0]);
    assert("lokey"@[2] != "lovel"@[2]);
    assert("lokey"@[0] != "hivel"@[0]);
    assert("lokey"@[0] != "group"@[0]);
    assert("hikey"@[0] != "lovel"@[0]);
    assert("hikey"@[2] != "hivel"@[2]);
    assert("hikey"@[0] != "group"@[0]);
    assert("lovel"@[0] != "hivel"@[0]);
    assert("lovel"@[0] != "group"@[0]);
    assert("hivel"@[0] != "group"@[0]);
    assert("offset"@[3] != "off_by"@[3]);
    assert("offset"@[0] != "volume"@[0]);
    assert("offset"@[0] != "set_cc"@[0]);
    assert("end"@[0] != "pan"@[0]);
    assert("loop_start"@[0] != "seq_length"@[0]);
    assert("loop_end"@[0] != "off_mode"@[0]);
    assert("loop_end"@[1] != "label_cc"@[1]);
    assert("off_by"@[0] != "volume"@[0]);
    assert("off_by"@[0] != "set_cc"@[0]);
    assert("off_mode"@[0] != "label_cc"@[0]);
    assert("seq_position"@[0] != "amp_veltrack"@[0]);
    assert("seq_position"@[0] != "default_path"@[0]);
    assert("volume"@[0] != "set_cc"@[0]);
    assert("amp_veltrack"@[0] != "default_path"@[0]);
    assert("note_offset"@[0] != "curve_index"@[0]);
}

/// Each unsigned key of the typed subset gives the variant that it names,
/// with the number written, for every number that fits `u32`.
pub proof fn law_unsigned_keys_give_their_variant(n: nat, span: Option<SourceSpan>)
    requires
        n <= 4294967295,
    ensures
        parse_opcode_spec(raw_opcode("offset"@, decimal(n), span)) == SpecOpcodeParse::Known(
            SpecOpcode::Offset(n as u32),
        ),
        parse_opcode_spec(raw_opcode("end"@, decimal(n), span)) == SpecOpcodeParse::Known(
            SpecOpcode::End(n as u32),
        ),
        parse_opcode_spec(raw_opcode("loop_start"@, decimal(n), span)) == SpecOpcodeParse::Known(
            SpecOpcode::LoopStart(n as u32),
        ),
        parse_opcode_spec(raw_opcode("loop_end"@, decimal(n), span)) == SpecOpcodeParse::Known(
            SpecOpcode::LoopEnd(n as u32),
        ),
        parse_opcode_spec(raw_opcode("seq_position"@, decimal(n), span)) == SpecOpcodeParse::Known(
            SpecOpcode::SeqPosition(n as u32),
        ),
        parse_opcode_spec(raw_opcode("seq_length"@, decimal(n), span)) == SpecOpcodeParse::Known(
            SpecOpcode::SeqLength(n as u32),
        ),
        parse_opcode_spec(raw_opcode("curve_index"@, decimal(n), span)) == SpecOpcodeParse::Known(
            SpecOpcode::CurveIndex(n as u32),
        ),
{
    lemma_decimal_parses(n, 4294967295);
    reveal_strlit("sample");
    reveal_strlit("key");
    reveal_strlit("lokey");
    reveal_strlit("hikey");
    reveal_strlit("lovel");
    reveal_strlit("hivel");
    reveal_strlit("pitch_keycenter");
    reveal_strlit("offset");
    reveal_strlit("end");
    reveal_strlit("loop_start");
    reveal_strlit("loop_end");
    reveal_strlit("loop_mode");
    reveal_strlit("trigger");
    reveal_strlit("group");
    reveal_strlit("off_by");
    reveal_strlit("off_mode");
    reveal_strlit("seq_position");
    reveal_strlit("seq_length");
    reveal_strlit("volume");
    reveal_strlit("pan");
    reveal_strlit("amp_veltrack");
    reveal_strlit("default_path");
    reveal_strlit("note_offset");
    reveal_strlit("octave_offset");
    reveal_strlit("curve_index");
    reveal_strlit("label_cc");
    reveal_strlit("set_cc");
    assert("sample"@[0] != "offset"@[0]);
    assert("sample"@[0] != "off_by"@[0]);
    assert("sample"@[0] != "volume"@[0]);
    assert("sample"@[1] != "set_cc"@[1]);
    assert("key"@[0] != "end"@[0]);
    assert("key"@[0] != "pan"@[0]);
    assert("lokey"@[0] != "hikey"@[0]);
    assert("lokey"@[2] != "lovel"@[2]);
    assert("lokey"@[0] != "hivel"@[0]);
    assert("lokey"@[0] != "group"@[0]);
    assert("hikey"@[0] != "lovel"@[0]);
    assert("hikey"@[2] != "hivel"@[2]);
    assert("hikey"@[0] != "group"@[0]);
    assert("lovel"@[0] != "hivel"@[0]);
    assert("lovel"@[0] != "group"@[0]);
    assert("hivel"@[0] != "group"@[0]);
    assert("offset"@[3] != "off_by"@[3]);
    assert("offset"@[0] != "volume"@[0]);
    assert("offset"@[0] != "set_cc"@[0]);
    assert("end"@[0] != "pan"@[0]);
    assert("loop_start"@[0] != "seq_length"@[0]);
    assert("loop_end"@[0] != "off_mode"@[0]);
    assert("loop_end"@[1] != "label_cc"@[1]);
    assert("off_by"@[0] != "volume"@[0]);
    assert("off_by"@[0] != "set_cc"@[0]);
    assert("off_mode"@[0] != "label_cc"@[0]);
    assert("seq_position"@[0] != "amp_veltrack"@[0]);
    assert("seq_position"@[0] != "default_path"@[0]);
    assert("volume"@[0] != "set_cc"@[0]);
    assert("amp_veltrack"@[0] != "default_path"@[0]);
    assert("note_offset"@[0] != "curve_index"@[0]);
}

/// Each signed key of the typed subset gives the variant that it names, with
/// the number written, with or without a minus sign, for every number that
/// fits the variant's type.
pub proof fn law_signed_keys_give_their_variant(n: nat, span: Option<SourceSpan>)
    ensures
        n <= 2147483647 ==> {
            &&& parse_opcode_spec(raw_opcode("group"@, decimal(n), span)) == SpecOpcodeParse::Known(
                SpecOpcode::Group(n as i32),
            )
            &&& parse_opcode_spec(raw_opcode("off_by"@, decimal(n), span)) == SpecOpcodeParse::Known(
                SpecOpcode::OffBy(n as i32),
            )
        },
        n <= 2147483648 ==> {
            &&& parse_opcode_spec(raw_opcode("group"@, seq!['-'] + decimal(n), span)) == SpecOpcodeParse::Known(
                SpecOpcode::Group((-(n as int)) as i32),
            )
            &&& parse_opcode_spec(raw_opcode("off_by"@, seq!['-'] + decimal(n), span)) == SpecOpcodeParse::Known(
                SpecOpcode::OffBy((-(n as int)) as i32),
            )
        },
        n <= 32767 ==> {
            &&& parse_opcode_spec(raw_opcode("note_offset"@, decimal(n), span)) == SpecOpcodeParse::Known(
                SpecOpcode::NoteOffset(n as i16),
            )
            &&& parse_opcode_spec(raw_opcode("octave_offset"@, decimal(n), span)) == SpecOpcodeParse::Known(
                SpecOpcode::OctaveOffset(n as i16),
            )
        },
        n <= 32768 ==> {
            &&& parse_opcode_spec(raw_opcode("note_offset"@, seq!['-'] + decimal(n), span)) == SpecOpcodeParse::Known(
                SpecOpcode::NoteOffset((-(n as int)) as i16),
            )
            &&& parse_opcode_spec(raw_opcode("octave_offset"@, seq!['-'] + decimal(n), span)) == SpecOpcodeParse::Known(
                SpecOpcode::OctaveOffset((-(n as int)) as i16),
            )
        },
{
    lemma_decimal_parses(n, 2147483647);
    lemma_decimal_parses(n, 32767);
    reveal_strlit("sample");
    reveal_strlit("key");
    reveal_strlit("lokey");
    reveal_strlit("hikey");
    reveal_strlit("lovel");
    reveal_strlit("hivel");
    reveal_strlit("pitch_keycenter");
    reveal_strlit("offset");
    reveal_strlit("end");
    reveal_strlit("loop_start");
    reveal_strlit("loop_end");
    reveal_strlit("loop_mode");
    reveal_strlit("trigger");
    reveal_strlit("group");
    reveal_strlit("off_by");
    reveal_strlit("off_mode");
    reveal_strlit("seq_position");
    reveal_strlit("seq_length");
    reveal_strlit("volume");
    reveal_strlit("pan");
    reveal_strlit("amp_veltrack");
    reveal_strlit("default_path");
    reveal_strlit("note_offset");
    reveal_strlit("octave_offset");
    reveal_strlit("curve_index");
    reveal_strlit("label_cc");
    reveal_strlit("set_cc");
    assert("sample"@[0] != "offset"@[0]);
    assert("sample"@[0] != "off_by"@[0]);
    assert("sample"@[0] != "volume"@[0]);
    assert("sample"@[1] != "set_cc"@[1]);
    assert("key"@[0] != "end"@[0]);
    assert("key"@[0] != "pan"@[0]);
    assert("lokey"@[0] != "hikey"@[0]);
    assert("lokey"@[2] != "lovel"@[2]);
    assert("lokey"@[0] != "hivel"@[0]);
    assert("lokey"@[0] != "group"@[0]);
    assert("hikey"@[0] != "lovel"@[0]);
    assert("hikey"@[2] != "hivel"@[2]);
    assert("hikey"@[0] != "group"@[0]);
    assert("lovel"@[0] != "hivel"@[0]);
    assert("lovel"@[0] != "group"@[0]);
    assert("hivel"@[0] != "group"@[0]);
    assert("offset"@[3] != "off_by"@[3]);
    assert("offset"@[0] != "volume"@[0]);
    assert("offset"@[0] != "set_cc"@[0]);
    assert("end"@[0] != "pan"@[0]);
    assert("loop_start"@[0] != "seq_length"@[0]);
    assert("loop_end"@[0] != "off_mode"@[0]);
    assert("loop_end"@[1] != "label_cc"@[1]);
    assert("off_by"@[0] != "volume"@[0]);
    assert("off_by"@[0] != "set_cc"@[0]);
    assert("off_mode"@[0] != "label_cc"@[0]);
    assert("seq_position"@[0] != "amp_veltrack"@[0]);
    assert("seq_position"@[0] != "default_path"@[0]);
    assert("volume"@[0] != "set_cc"@[0]);
    assert("amp_veltrack"@[0] != "default_path"@[0]);
    assert("note_offset"@[0] != "curve_index"@[0]);
}

/// The text keys give their variant with the value as written, and each
/// numeric key gives its variant with the number's text whenever it is one
/// that `f32::from_str` accepts.
pub proof fn law_text_and_number_keys_give_their_variant(v: Seq<char>, span: Option<SourceSpan>)
    ensures
        parse_opcode_spec(raw_opcode("sample"@, v, span)) == SpecOpcodeParse::Known(
            SpecOpcode::Sample(v),
        ),
        parse_opcode_spec(raw_opcode("default_path"@, v, span)) == SpecOpcodeParse::Known(
            SpecOpcode::DefaultPath(v),
        ),
        float_syntax(v) ==> {
            &&& parse_opcode_spec(raw_opcode("volume"@, v, span)) == SpecOpcodeParse::Known(
                SpecOpcode::Volume(v),
            )
            &&& parse_opcode_spec(raw_opcode("pan"@, v, span)) == SpecOpcodeParse::Known(
                SpecOpcode::Pan(v),
            )
            &&& parse_opcode_spec(raw_opcode("amp_veltrack"@, v, span)) == SpecOpcodeParse::Known(
                SpecOpcode::AmpVeltrack(v),
            )
        },
{
    reveal_strlit("sample");
    reveal_strlit("key");
    reveal_strlit("lokey");
    reveal_strlit("hikey");
    reveal_strlit("lovel");
    reveal_strlit("hivel");
    reveal_strlit("pitch_keycenter");
    reveal_strlit("offset");
    reveal_strlit("end");
    reveal_strlit("loop_start");
    reveal_strlit("loop_end");
    reveal_strlit("loop_mode");
    reveal_strlit("trigger");
    reveal_strlit("group");
    reveal_strlit("off_by");
    reveal_strlit("off_mode");
    reveal_strlit("seq_position");
    reveal_strlit("seq_length");
    reveal_strlit("volume");
    reveal_strlit("pan");
    reveal_strlit("amp_veltrack");
    reveal_strlit("default_path");
    reveal_strlit("note_offset");
    reveal_strlit("octave_offset");
    reveal_strlit("curve_index");
    reveal_strlit("label_cc");
    reveal_strlit("set_cc");
    assert("sample"@[0] != "offset"@[0]);
    assert("sample"@[0] != "off_by"@[0]);
    assert("sample"@[0] != "volume"@[0]);
    assert("sample"@[1] != "set_cc"@[1]);
    assert("key"@[0] != "end"@[0]);
    assert("key"@[0] != "pan"@[0]);
    assert("lokey"@[0] != "hikey"@[0]);
    assert("lokey"@[2] != "lovel"@[2]);
    assert("lokey"@[0] != "hivel"@[0]);
    assert("lokey"@[0] != "group"@[0]);
    assert("hikey"@[0] != "lovel"@[0]);
    assert("hikey"@[2] != "hivel"@[2]);
    assert("hikey"@[0] != "group"@[0]);
    assert("lovel"@[0] != "hivel"@[0]);
    assert("lovel"@[0] != "group"@[0]);
    assert("hivel"@[0] != "group"@[0]);
    assert("offset"@[3] != "off_by"@[3]);
    assert("offset"@[0] != "volume"@[0]);
    assert("offset"@[0] != "set_cc"@[0]);
    assert("end"@[0] != "pan"@[0]);
    assert("loop_start"@[0] != "seq_length"@[0]);
    assert("loop_end"@[0] != "off_mode"@[0]);
    assert("loop_end"@[1] != "label_cc"@[1]);
    assert("off_by"@[0] != "volume"@[0]);
    assert("off_by"@[0] != "set_cc"@[0]);
    assert("off_mode"@[0] != "label_cc"@[0]);
    assert("seq_position"@[0] != "amp_veltrack"@[0]);
    assert("seq_position"@[0] != "default_path"@[0]);
    assert("volume"@[0] != "set_cc"@[0]);
    assert("amp_veltrack"@[0] != "default_path"@[0]);
    assert("note_offset"@[0] != "curve_index"@[0]);
}

/// Each enumerated key gives the variant that its value names.
pub proof fn law_enumerated_keys_give_their_variant(span: Option<SourceSpan>)
    ensures
        parse_opcode_spec(raw_opcode("loop_mode"@, "no_loop"@, span)) == SpecOpcodeParse::Known(
            SpecOpcode::LoopMode(LoopMode::NoLoop),
        ),
        parse_opcode_spec(raw_opcode("loop_mode"@, "one_shot"@, span)) == SpecOpcodeParse::Known(
            SpecOpcode::LoopMode(LoopMode::OneShot),
        ),
        parse_opcode_spec(raw_opcode("loop_mode"@, "loop_continuous"@, span)) == SpecOpcodeParse::Known(
            SpecOpcode::LoopMode(LoopMode::LoopContinuous),
        ),
        parse_opcode_spec(raw_opcode("loop_mode"@, "loop_sustain"@, span)) == SpecOpcodeParse::Known(
            SpecOpcode::LoopMode(LoopMode::LoopSustain),
        ),
        parse_opcode_spec(raw_opcode("trigger"@, "attack"@, span)) == SpecOpcodeParse::Known(
            SpecOpcode::Trigger(Trigger::Attack),
        ),
        parse_opcode_spec(raw_opcode("trigger"@, "release"@, span)) == SpecOpcodeParse::Known(
            SpecOpcode::Trigger(Trigger::Release),
        ),
        parse_opcode_spec(raw_opcode("trigger"@, "first"@, span)) == SpecOpcodeParse::Known(
            SpecOpcode::Trigger(Trigger::First),
        ),
        parse_opcode_spec(raw_opcode("trigger"@, "legato"@, span)) == SpecOpcodeParse::Known(
            SpecOpcode::Trigger(Trigger::Legato),
        ),
        parse_opcode_spec(raw_opcode("off_mode"@, "fast"@, span)) == SpecOpcodeParse::Known(
            SpecOpcode::OffMode(OffMode::Fast),
        ),
        parse_opcode_spec(raw_opcode("off_mode"@, "normal"@, span)) == SpecOpcodeParse::Known(
            SpecOpcode::OffMode(OffMode::Normal),
        ),
{
    reveal_strlit("sample");
    reveal_strlit("key");
    reveal_strlit("lokey");
    reveal_strlit("hikey");
    reveal_strlit("lovel");
    reveal_strlit("hivel");
    reveal_strlit("pitch_keycenter");
    reveal_strlit("offset");
    reveal_strlit("end");
    reveal_strlit("loop_start");
    reveal_strlit("loop_end");
    reveal_strlit("loop_mode");
    reveal_strlit("trigger");
    reveal_strlit("group");
    reveal_strlit("off_by");
    reveal_strlit("off_mode");
    reveal_strlit("seq_position");
    reveal_strlit("seq_length");
    reveal_strlit("volume");
    reveal_strlit("pan");
    reveal_strlit("amp_veltrack");
    reveal_strlit("default_path");
    reveal_strlit("note_offset");
    reveal_strlit("octave_offset");
    reveal_strlit("curve_index");
    reveal_strlit("label_cc");
    reveal_strlit("set_cc");
    reveal_strlit("no_loop");
    reveal_strlit("one_shot");
    reveal_strlit("loop_continuous");
    reveal_strlit("loop_sustain");
    reveal_strlit("attack");
    reveal_strlit("release");
    reveal_strlit("first");
    reveal_strlit("legato");
    reveal_strlit("fast");
    reveal_strlit("normal");
    assert("sample"@[0] != "offset"@[0]);
    assert("sample"@[0] != "off_by"@[0]);
    assert("sample"@[0] != "volume"@[0]);
    assert("sample"@[1] != "set_cc"@[1]);
    assert("key"@[0] != "end"@[0]);
    assert("key"@[0] != "pan"@[0]);
    assert("lokey"@[0] != "hikey"@[0]);
    assert("lokey"@[2] != "lovel"@[2]);
    assert("lokey"@[0] != "hivel"@[0]);
    assert("lokey"@[0] != "group"@[0]);
    assert("hikey"@[0] != "lovel"@[0]);
    assert("hikey"@[2] != "hivel"@[2]);
    assert("hikey"@[0] != "group"@[0]);
    assert("lovel"@[0] != "hivel"@[0]);
    assert("lovel"@[0] != "group"@[0]);
    assert("hivel"@[0] != "group"@[0]);
    assert("offset"@[3] != "off_by"@[3]);
    assert("offset"@[0] != "volume"@[0]);
    assert("offset"@[0] != "set_cc"@[0]);
    assert("end"@[0] != "pan"@[0]);
    assert("loop_start"@[0] != "seq_length"@[0]);
    assert("loop_end"@[0] != "off_mode"@[0]);
    assert("loop_end"@[1] != "label_cc"@[1]);
    assert("off_by"@[0] != "volume"@[0]);
    assert("off_by"@[0] != "set_cc"@[0]);
    assert("off_mode"@[0] != "label_cc"@[0]);
    assert("seq_position"@[0] != "amp_veltrack"@[0]);
    assert("seq_position"@[0] != "default_path"@[0]);
    assert("volume"@[0] != "set_cc"@[0]);
    assert("amp_veltrack"@[0] != "default_path"@[0]);
    assert("note_offset"@[0] != "curve_index"@[0]);
    assert("no_loop"@[0] != "release"@[0]);
    assert("attack"@[0] != "legato"@[0]);
    assert("attack"@[0] != "normal"@[0]);
    assert("legato"@[0] != "normal"@[0]);
}

/// `label_ccN` gives a label for CC number `N` and `set_ccN` a value for it,
/// for every `N` up to 127; `label_cc$NAME` gives a label for the variable
/// `NAME`.
pub proof fn law_cc_keys_give_their_variant(n: nat, name: Seq<char>, v: Seq<char>, span: Option<SourceSpan>)
    requires
        n <= 127,
    ensures
        parse_opcode_spec(raw_opcode("label_cc"@ + decimal(n), v, span)) == SpecOpcodeParse::Known(
            SpecOpcode::LabelCc { cc: SpecControlIndex::Number(n as u8), label: v },
        ),
        name.len() > 0 ==> parse_opcode_spec(raw_opcode("label_cc$"@ + name, v, span))
            == SpecOpcodeParse::Known(
            SpecOpcode::LabelCc { cc: SpecControlIndex::Variable(name), label: v },
        ),
        float_syntax(v) ==> parse_opcode_spec(raw_opcode("set_cc"@ + decimal(n), v, span))
            == SpecOpcodeParse::Known(SpecOpcode::SetCc { cc: n as u8, value: v }),
{
    lemma_decimal_parses(n, 65535);
    lemma_decimal_digits(n);
    reveal_strlit("label_cc$");
    let d = decimal(n);
    assert(is_ascii_digit(d[0]));
    let k = "label_cc"@ + d;
    reveal_strlit("sample");
    reveal_strlit("key");
    reveal_strlit("lokey");
    reveal_strlit("hikey");
    reveal_strlit("lovel");
    reveal_strlit("hivel");
    reveal_strlit("pitch_keycenter");
    reveal_strlit("offset");
    reveal_strlit("end");
    reveal_strlit("loop_start");
    reveal_strlit("loop_end");
    reveal_strlit("loop_mode");
    reveal_strlit("trigger");
    reveal_strlit("group");
    reveal_strlit("off_by");
    reveal_strlit("off_mode");
    reveal_strlit("seq_position");
    reveal_strlit("seq_length");
    reveal_strlit("volume");
    reveal_strlit("pan");
    reveal_strlit("amp_veltrack");
    reveal_strlit("default_path");
    reveal_strlit("note_offset");
    reveal_strlit("octave_offset");
    reveal_strlit("curve_index");
    reveal_strlit("label_cc");
    reveal_strlit("set_cc");
    assert("sample"@[0] != "offset"@[0]);
    assert("sample"@[0] != "off_by"@[0]);
    assert("sample"@[0] != "volume"@[0]);
    assert("sample"@[1] != "set_cc"@[1]);
    assert("key"@[0] != "end"@[0]);
    assert("key"@[0] != "pan"@[0]);
    assert("lokey"@[0] != "hikey"@[0]);
    assert("lokey"@[2] != "lovel"@[2]);
    assert("lokey"@[0] != "hivel"@[0]);
    assert("lokey"@[0] != "group"@[0]);
    assert("hikey"@[0] != "lovel"@[0]);
    assert("hikey"@[2] != "hivel"@[2]);
    assert("hikey"@[0] != "group"@[0]);
    assert("lovel"@[0] != "hivel"@[0]);
    assert("lovel"@[0] != "group"@[0]);
    assert("hivel"@[0] != "group"@[0]);
    assert("offset"@[3] != "off_by"@[3]);
    assert("offset"@[0] != "volume"@[0]);
    assert("offset"@[0] != "set_cc"@[0]);
    assert("end"@[0] != "pan"@[0]);
    assert("loop_start"@[0] != "seq_length"@[0]);
    assert("loop_end"@[0] != "off_mode"@[0]);
    assert("loop_end"@[1] != "label_cc"@[1]);
    assert("off_by"@[0] != "volume"@[0]);
    assert("off_by"@[0] != "set_cc"@[0]);
    assert("off_mode"@[0] != "label_cc"@[0]);
    assert("seq_position"@[0] != "amp_veltrack"@[0]);
    assert("seq_position"@[0] != "default_path"@[0]);
    assert("volume"@[0] != "set_cc"@[0]);
    assert("amp_veltrack"@[0] != "default_path"@[0]);
    assert("note_offset"@[0] != "curve_index"@[0]);
    assert(k[0] != "sample"@[0]);
    assert(k[0] != "key"@[0]);
    assert(k[1] != "lokey"@[1]);
    assert(k[0] != "hikey"@[0]);
    assert(k[1] != "lovel"@[1]);
    assert(k[0] != "hivel"@[0]);
    assert(k[0] != "pitch_keycenter"@[0]);
    assert(k[0] != "offset"@[0]);
    assert(k[0] != "end"@[0]);
    assert(k[1] != "loop_start"@[1]);
    assert(k[1] != "loop_end"@[1]);
    assert(k[1] != "loop_mode"@[1]);
    assert(k[0] != "trigger"@[0]);
    assert(k[0] != "group"@[0]);
    assert(k[0] != "off_by"@[0]);
    assert(k[0] != "off_mode"@[0]);
    assert(k[0] != "seq_position"@[0]);
    assert(k[0] != "seq_length"@[0]);
    assert(k[0] != "volume"@[0]);
    assert(k[0] != "pan"@[0]);
    assert(k[0] != "amp_veltrack"@[0]);
    assert(k[0] != "default_path"@[0]);
    assert(k[0] != "note_offset"@[0]);
    assert(k[0] != "octave_offset"@[0]);
    assert(k[0] != "curve_index"@[0]);
    assert(k[0] != "set_cc"@[0]);
    assert(k.take(8) =~= "label_cc"@);
    assert(k.skip(8) =~= d);
    let k = "label_cc$"@ + name;
    assert(k[0] != "sample"@[0]);
    assert(k[0] != "key"@[0]);
    assert(k[1] != "lokey"@[1]);
    assert(k[0] != "hikey"@[0]);
    assert(k[1] != "lovel"@[1]);
    assert(k[0] != "hivel"@[0]);
    assert(k[0] != "pitch_keycenter"@[0]);
    assert(k[0] != "offset"@[0]);
    assert(k[0] != "end"@[0]);
    assert(k[1] != "loop_start"@[1]);
    assert(k[1] != "loop_end"@[1]);
    assert(k[1] != "loop_mode"@[1]);
    assert(k[0] != "trigger"@[0]);
    assert(k[0] != "group"@[0]);
    assert(k[0] != "off_by"@[0]);
    assert(k[0] != "off_mode"@[0]);
    assert(k[0] != "seq_position"@[0]);
    assert(k[0] != "seq_length"@[0]);
    assert(k[0] != "volume"@[0]);
    assert(k[0] != "pan"@[0]);
    assert(k[0] != "amp_veltrack"@[0]);
    assert(k[0] != "default_path"@[0]);
    assert(k[0] != "note_offset"@[0]);
    assert(k[0] != "octave_offset"@[0]);
    assert(k[0] != "curve_index"@[0]);
    assert(k[0] != "set_cc"@[0]);
    assert(k.take(8) =~= "label_cc"@);
    assert(k.skip(8) =~= seq!['$'] + name);
    assert((seq!['$'] + name).skip(1) =~= name);
    let k = "set_cc"@ + d;
    assert(k[1] != "sample"@[1]);
    assert(k[0] != "key"@[0]);
    assert(k[0] != "lokey"@[0]);
    assert(k[0] != "hikey"@[0]);
    assert(k[0] != "lovel"@[0]);
    assert(k[0] != "hivel"@[0]);
    assert(k[0] != "pitch_keycenter"@[0]);
    assert(k[0] != "offset"@[0]);
    assert(k[0] != "end"@[0]);
    assert(k[0] != "loop_start"@[0]);
    assert(k[0] != "loop_end"@[0]);
    assert(k[0] != "loop_mode"@[0]);
    assert(k[0] != "trigger"@[0]);
    assert(k[0] != "group"@[0]);
    assert(k[0] != "off_by"@[0]);
    assert(k[0] != "off_mode"@[0]);
    assert(k[2] != "seq_position"@[2]);
    assert(k[2] != "seq_length"@[2]);
    assert(k[0] != "volume"@[0]);
    assert(k[0] != "pan"@[0]);
    assert(k[0] != "amp_veltrack"@[0]);
    assert(k[0] != "default_path"@[0]);
    assert(k[0] != "note_offset"@[0]);
    assert(k[0] != "octave_offset"@[0]);
    assert(k[0] != "curve_index"@[0]);
    assert(k[0] != "label_cc"@[0]);
    assert(k[0] != "label_cc"@[0]);
    assert(k.take(6) =~= "set_cc"@);
    assert(k.skip(6) =~= d);
}

proof fn lemma_no_slashes(s: Seq<char>, i: int)
    requires
        0 <= i,
        forall|k: int| 0 <= k < s.len() ==> #[trigger] s[k] != '/',
    ensures
        find_slashes(s, i) == s.len(),
    decreases s.len() - i,
{
    if i + 1 < s.len() {
        assert(s[i] != '/');
        lemma_no_slashes(s, i + 1);
    }
}

/// A line `#include "P"` asks the resolver for exactly `P`, the next answer
/// in turn, unless `P` is being expanded already, in which case the
/// resolver is not asked at all. `P` is any non-empty text without quotes or
/// slashes.
pub proof fn law_include_asks_for_its_path(
    p: Seq<char>,
    ln: usize,
    max: nat,
    depth: nat,
    visited: Seq<Seq<char>>,
    answers: Seq<Answer>,
    i: int,
)
    requires
        p.len() > 0,
        forall|k: int| 0 <= k < p.len() ==> #[trigger] p[k] != '"' && p[k] != '\'' && p[k] != '/',
        depth <= max,
    ensures
        ({
            let e = expand_line("#include \""@ + p + "\""@, ln, max, depth, visited, true, answers, i);
            &&& !visited.contains(p) ==> e.asked.len() > 0 && e.asked[0] == p
            &&& visited.contains(p) ==> e.asked.len() == 0 && e.next == i
        }),
{
    reveal_strlit("#include \"");
    reveal_strlit("\"");
    let line = "#include \""@ + p + "\""@;
    assert forall|k: int| 0 <= k < line.len() implies #[trigger] line[k] != '/' by {
        if k >= 10 && k < 10 + p.len() {
            assert(line[k] == p[k - 10]);
        }
    }
    lemma_no_slashes(line, 0);
    assert(before_line_comment(line) =~= line);
    lemma_trim_keeps(line);
    law_include_path_is_quoted_text(p, ln, 1);
}

proof fn lemma_find_ws_run(s: Seq<char>, i: int, e: int)
    requires
        0 <= i <= e <= s.len(),
        forall|k: int| i <= k < e ==> !is_ws(#[trigger] s[k]),
        e < s.len() ==> is_ws(s[e]),
    ensures
        find_ws(s, i) == e,
    decreases e - i,
{
    if i < e {
        lemma_find_ws_run(s, i + 1, e);
    }
}

/// A line `#define NAME VALUE` defines `NAME` as `VALUE`, where `NAME` is a
/// non-empty word without whitespace and `VALUE` neither starts nor ends
/// with whitespace (it may hold spaces inside).
#[verifier::rlimit(50)]
pub proof fn law_define_directive_reads_name_and_value(
    name: Seq<char>,
    value: Seq<char>,
    ln: usize,
    column: usize,
)
    requires
        name.len() > 0,
        forall|k: int| 0 <= k < name.len() ==> !is_ws(#[trigger] name[k]),
        value.len() > 0,
        !is_ws(value[0]),
        !is_ws(value.last()),
    ensures
        directive_of("#define "@ + name + " "@ + value, ln, column) == Some(
            SpecDirective::Define { name, value, span: Some(SourceSpan { line: ln, column }) },
        ),
{
    reveal_strlit("#define ");
    reveal_strlit("#define");
    reveal_strlit(" ");
    let line = "#define "@ + name + " "@ + value;
    assert(line[0] == '#');
    assert(line.last() == value.last());
    lemma_trim_keeps(line);
    assert(line.take(7) =~= "#define"@);
    let rest = name + " "@ + value;
    assert(line.skip(7) =~= seq![' '] + rest);
    assert(rest[0] == name[0]);
    assert(rest.last() == value.last());
    lemma_trim_keeps(rest);
    let r0 = seq![' '] + rest;
    assert(skip_ws(r0, 1) == 1);
    assert(skip_ws(r0, 0) == 1);
    assert(r0.last() == rest.last());
    assert(trim_end_at(r0, r0.len() as int) == r0.len());
    assert(trim(r0) =~= rest);
    assert forall|k: int| 0 <= k < name.len() implies !is_ws(#[trigger] rest[k]) by {
        assert(rest[k] == name[k]);
    }
    assert(rest[name.len() as int] == ' ');
    lemma_find_ws_run(rest, 0, name.len() as int);
    assert(rest.take(name.len() as int) =~= name);
    assert(name.last() == name[name.len() - 1]);
    lemma_trim_keeps(name);
    assert(rest.skip(name.len() as int + 1) =~= value);
    lemma_trim_keeps(value);
}

proof fn lemma_value_runs_to_end(line: Seq<char>, scan: int)
    requires
        0 <= scan <= line.len(),
        forall|k: int| scan <= k < line.len() ==> !is_ws(#[trigger] line[k]),
    ensures
        value_end(line, scan) == line.len(),
    decreases line.len() - scan,
{
    if scan < line.len() {
        lemma_value_runs_to_end(line, scan + 1);
    }
}

/// A line `KEY=VALUE` holds the opcode `KEY` with the value `VALUE`, at
/// column 1, where `KEY` is made of key characters and `VALUE` holds no
/// whitespace; the value runs to the end of the line.
pub proof fn law_assignment_reads_key_and_value(key: Seq<char>, value: Seq<char>, ln: usize)
    requires
        key.len() > 0,
        forall|k: int| 0 <= k < key.len() ==> is_key_ch(#[trigger] key[k]),
        value.len() > 0,
        forall|k: int| 0 <= k < value.len() ==> !is_ws(#[trigger] value[k]),
    ensures
        opcode_at(key + seq!['='] + value, 0, ln) == Some(
            (
                SpecRawOpcode { key, value, span: Some(SourceSpan { line: ln, column: 1 }) },
                (key.len() + 1 + value.len()) as int,
            ),
        ),
{
    let line = key + seq!['='] + value;
    let e = key.len() as int;
    assert(line[e] == '=');
    assert forall|k: int| 0 <= k < e implies is_key_ch(#[trigger] line[k]) by {
        assert(line[k] == key[k]);
    }
    lemma_key_run_to(line, 0, e);
    assert(skip_ws(line, e) == e);
    assert(skip_ws(line, e + 1) == e + 1) by {
        assert(line[e + 1] == value[0]);
    }
    assert forall|k: int| e + 1 <= k < line.len() implies !is_ws(#[trigger] line[k]) by {
        assert(line[k] == value[k - e - 1]);
    }
    lemma_value_runs_to_end(line, e + 1);
    assert(line.subrange(0, e) =~= key);
    assert(line.subrange(e + 1, line.len() as int) =~= value);
    assert(key[0] == key[0]);
    assert(!is_ws(key[0])) by {
        assert(is_key_ch(key[0]));
    }
    assert(!is_ws(key.last())) by {
        assert(is_key_ch(key[key.len() - 1]));
    }
    lemma_trim_keeps(key);
    assert(value.last() == value[value.len() - 1]);
    lemma_trim_keeps(value);
    assert(line.take(0) =~= Seq::<char>::empty());
}

proof fn lemma_key_run_to(s: Seq<char>, i: int, e: int)
    requires
        0 <= i <= e < s.len(),
        forall|k: int| i <= k < e ==> is_key_ch(#[trigger] s[k]),
        !is_key_ch(s[e]),
    ensures
        key_run_end(s, i) == e,
    decreases e - i,
{
    if i < e {
        lemma_key_run_to(s, i + 1, e);
    }
}

/// Each header name gives the block kind that it names.
pub proof fn law_header_names_give_their_kind()
    ensures
        header_kind_of("control"@) == SpecHeaderKind::Control,
        header_kind_of("global"@) == SpecHeaderKind::Global,
        header_kind_of("master"@) == SpecHeaderKind::Master,
        header_kind_of("group"@) == SpecHeaderKind::Group,
        header_kind_of("region"@) == SpecHeaderKind::Region,
        header_kind_of("curve"@) == SpecHeaderKind::Curve,
        header_kind_of("effect"@) == SpecHeaderKind::Effect,
        header_kind_of("midi"@) == SpecHeaderKind::Midi,
{
    reveal_strlit("control");
    reveal_strlit("global");
    reveal_strlit("master");
    reveal_strlit("group");
    reveal_strlit("region");
    reveal_strlit("curve");
    reveal_strlit("effect");
    reveal_strlit("midi");
    lemma_header_name("control"@);
    lemma_header_name("global"@);
    lemma_header_name("master"@);
    lemma_header_name("group"@);
    lemma_header_name("region"@);
    lemma_header_name("curve"@);
    lemma_header_name("effect"@);
    lemma_header_name("midi"@);
    assert("group"@[0] != "curve"@[0]);
    assert("global"@[0] != "master"@[0]);
    assert("global"@[0] != "region"@[0]);
    assert("global"@[0] != "effect"@[0]);
    assert("master"@[0] != "region"@[0]);
    assert("master"@[0] != "effect"@[0]);
    assert("region"@[0] != "effect"@[0]);
}

proof fn lemma_header_name(n: Seq<char>)
    requires
        n.len() > 0,
        forall|k: int| 0 <= k < n.len() ==> 'a' <= #[trigger] n[k] && n[k] <= 'z',
    ensures
        ascii_lower(trim(n)) == n,
{
    assert(n.last() == n[n.len() - 1]);
    lemma_trim_keeps(n);
    assert(ascii_lower(n) =~= n);
}

/// The key `v` followed by the three digits of `n` (`v000` to `v127`) gives
/// the curve point `n` with the number's text, whenever `f32::from_str`
/// accepts it.
pub proof fn law_curve_value_keys_give_their_point(n: nat, v: Seq<char>, span: Option<SourceSpan>)
    requires
        n <= 127,
        float_syntax(v),
    ensures
        parse_opcode_spec(
            raw_opcode(seq!['v', digit_char(n / 100), digit_char((n / 10) % 10), digit_char(n % 10)], v, span),
        ) == SpecOpcodeParse::Known(SpecOpcode::CurveValue { index: n as u8, value: v }),
{
    let k = seq!['v', digit_char(n / 100), digit_char((n / 10) % 10), digit_char(n % 10)];
    lemma_digit_char(n / 100);
    lemma_digit_char((n / 10) % 10);
    lemma_digit_char(n % 10);
    let t = k.skip(1);
    assert(t =~= seq![digit_char(n / 100), digit_char((n / 10) % 10), digit_char(n % 10)]);
    assert(t.drop_last() =~= seq![digit_char(n / 100), digit_char((n / 10) % 10)]);
    assert(t.drop_last().drop_last() =~= seq![digit_char(n / 100)]);
    assert(t.drop_last().drop_last().drop_last() =~= Seq::<char>::empty());
    let t2 = t.drop_last();
    let t1 = t2.drop_last();
    assert(digits_value(t1) == n / 100) by {
        assert(digits_value(t1.drop_last()) == 0);
        assert(t1.last() == digit_char(n / 100));
    }
    assert(digits_value(t2) == (n / 100) * 10 + (n / 10) % 10) by {
        assert(t2.last() == digit_char((n / 10) % 10));
    }
    assert(digits_value(t) == ((n / 100) * 10 + (n / 10) % 10) * 10 + n % 10) by {
        assert(t.last() == digit_char(n % 10));
    }
    assert(((n / 100) * 10 + (n / 10) % 10) * 10 == (n / 100) * 100 + ((n / 10) % 10) * 10)
        by (nonlinear_arith);
    assert(n == (n / 100) * 100 + ((n / 10) % 10) * 10 + n % 10);
    assert(all_digits(t));
    reveal_strlit("sample");
    reveal_strlit("key");
    reveal_strlit("lokey");
    reveal_strlit("hikey");
    reveal_strlit("lovel");
    reveal_strlit("hivel");
    reveal_strlit("pitch_keycenter");
    reveal_strlit("offset");
    reveal_strlit("end");
    reveal_strlit("loop_start");
    reveal_strlit("loop_end");
    reveal_strlit("loop_mode");
    reveal_strlit("trigger");
    reveal_strlit("group");
    reveal_strlit("off_by");
    reveal_strlit("off_mode");
    reveal_strlit("seq_position");
    reveal_strlit("seq_length");
    reveal_strlit("volume");
    reveal_strlit("pan");
    reveal_strlit("amp_veltrack");
    reveal_strlit("default_path");
    reveal_strlit("note_offset");
    reveal_strlit("octave_offset");
    reveal_strlit("curve_index");
    reveal_strlit("label_cc");
    reveal_strlit("set_cc");
}

/// A line of whitespace (tabs, spaces, ...) followed by `KEY=VALUE` adds the
/// opcode `KEY` with the value `VALUE` (defines known so far applied) to the
/// open block, at the column after the indentation, and nothing else; `KEY`
/// is made of key characters and `VALUE` holds no whitespace.
pub proof fn law_indented_assignment_is_an_opcode(
    indent: Seq<char>,
    key: Seq<char>,
    value: Seq<char>,
    ln: usize,
    st: RawState,
)
    requires
        forall|k: int| 0 <= k < indent.len() ==> is_ws(#[trigger] indent[k]),
        key.len() > 0,
        forall|k: int| 0 <= k < key.len() ==> is_key_ch(#[trigger] key[k]),
        value.len() > 0,
        forall|k: int| 0 <= k < value.len() ==> !is_ws(#[trigger] value[k]),
    ensures
        scan_line(indent + key + seq!['='] + value, ln, 0, st) == push_opcode_spec(
            st,
            ln,
            subst_opcode(
                SpecRawOpcode {
                    key,
                    value,
                    span: Some(SourceSpan { line: ln, column: (utf8_len(indent) + 1) as usize }),
                },
                st.defines,
            ),
        ),
{
    let line = indent + key + seq!['='] + value;
    let s0 = indent.len() as int;
    let e = s0 + key.len();
    assert forall|k: int| 0 <= k < s0 implies is_ws(#[trigger] line[k]) by {
        assert(line[k] == indent[k]);
    }
    assert(line[s0] == key[0]);
    assert(is_key_ch(key[0]));
    lemma_skip_ws_run(line, 0, s0);
    assert(line[e] == '=');
    assert forall|k: int| s0 <= k < e implies is_key_ch(#[trigger] line[k]) by {
        assert(line[k] == key[k - s0]);
    }
    lemma_key_run_to(line, s0, e);
    assert(skip_ws(line, e) == e);
    assert(skip_ws(line, e + 1) == e + 1) by {
        assert(line[e + 1] == value[0]);
    }
    assert forall|k: int| e + 1 <= k < line.len() implies !is_ws(#[trigger] line[k]) by {
        assert(line[k] == value[k - e - 1]);
    }
    lemma_value_runs_to_end(line, e + 1);
    assert(line.subrange(s0, e) =~= key);
    assert(line.subrange(e + 1, line.len() as int) =~= value);
    assert(!is_ws(key.last())) by {
        assert(is_key_ch(key[key.len() - 1]));
    }
    lemma_trim_keeps(key);
    assert(value.last() == value[value.len() - 1]);
    lemma_trim_keeps(value);
    assert(line.take(s0) =~= indent);
    let st1 = push_opcode_spec(
        st,
        ln,
        subst_opcode(
            SpecRawOpcode {
                key,
                value,
                span: Some(SourceSpan { line: ln, column: (utf8_len(indent) + 1) as usize }),
            },
            st.defines,
        ),
    );
    assert(scan_line(line, ln, line.len() as int, st1) == st1);
}

proof fn lemma_skip_ws_run(s: Seq<char>, i: int, e: int)
    requires
        0 <= i <= e < s.len(),
        forall|k: int| i <= k < e ==> is_ws(#[trigger] s[k]),
        !is_ws(s[e]),
    ensures
        skip_ws(s, i) == e,
    decreases e - i,
{
    if i < e {
        lemma_skip_ws_run(s, i + 1, e);
    }
}

} // verus!
