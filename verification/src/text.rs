//! Character-level text model shared by the parser: whitespace, trimming,
//! line splitting, comment stripping and substring replacement, each stated
//! over `Seq<char>` and implemented over `Vec<char>`.

use vstd::prelude::*;

verus! {

/// `String::push` appends the character to the end of the string.
pub assume_specification[ String::push ](s: &mut String, ch: char)
    ensures
        final(s)@ == old(s)@.push(ch),
;

/// `String::len` returns the length of the string in bytes, that is the
/// length of the UTF-8 encoding of its characters.
pub assume_specification[ String::len ](s: &String) -> (r: usize)
    ensures
        r == vstd::utf8::encode_utf8(s@).len(),
;

/// Unicode `White_Space`, the set that `char::is_whitespace` tests.
pub open spec fn is_ws(c: char) -> bool {
    ||| c == ' '
    ||| ('\t' <= c && c <= '\r')
    ||| c == '\u{85}'
    ||| c == '\u{A0}'
    ||| c == '\u{1680}'
    ||| ('\u{2000}' <= c && c <= '\u{200A}')
    ||| c == '\u{2028}'
    ||| c == '\u{2029}'
    ||| c == '\u{202F}'
    ||| c == '\u{205F}'
    ||| c == '\u{3000}'
}

pub fn is_whitespace(c: char) -> (r: bool)
    ensures
        r == is_ws(c),
{
    c == ' ' || ('\t' <= c && c <= '\r') || c == '\u{85}' || c == '\u{A0}' || c == '\u{1680}' || (
    '\u{2000}' <= c && c <= '\u{200A}') || c == '\u{2028}' || c == '\u{2029}' || c == '\u{202F}'
        || c == '\u{205F}' || c == '\u{3000}'
}

pub open spec fn is_ascii_digit(c: char) -> bool {
    '0' <= c && c <= '9'
}

pub open spec fn is_ascii_alnum(c: char) -> bool {
    ||| ('a' <= c && c <= 'z')
    ||| ('A' <= c && c <= 'Z')
    ||| is_ascii_digit(c)
}

/// Characters that may form an opcode key.
pub open spec fn is_key_ch(c: char) -> bool {
    is_ascii_alnum(c) || c == '_' || c == '$' || c == '.'
}

pub fn is_key_char(c: char) -> (r: bool)
    ensures
        r == is_key_ch(c),
{
    ('a' <= c && c <= 'z') || ('A' <= c && c <= 'Z') || ('0' <= c && c <= '9') || c == '_' || c
        == '$' || c == '.'
}

pub open spec fn lower_ch(c: char) -> char {
    if 'A' <= c && c <= 'Z' {
        ((c as u32) + 32) as char
    } else {
        c
    }
}

/// `str::to_ascii_lowercase`: ASCII capitals become small letters, all other
/// characters stay.
pub open spec fn ascii_lower(s: Seq<char>) -> Seq<char> {
    s.map_values(|c: char| lower_ch(c))
}

/// Index of the first character at or after `i` that is not whitespace, or
/// the length when there is none.
pub open spec fn skip_ws(s: Seq<char>, i: int) -> int
    decreases s.len() - i,
{
    if 0 <= i < s.len() && is_ws(s[i]) {
        skip_ws(s, i + 1)
    } else {
        i
    }
}

/// End of `s.take(j)` once trailing whitespace is dropped.
pub open spec fn trim_end_at(s: Seq<char>, j: int) -> int
    decreases j,
{
    if 0 < j <= s.len() && is_ws(s[j - 1]) {
        trim_end_at(s, j - 1)
    } else {
        j
    }
}

/// `str::trim`: `s` without leading and trailing whitespace.
pub open spec fn trim(s: Seq<char>) -> Seq<char> {
    let a = skip_ws(s, 0);
    let b = trim_end_at(s, s.len() as int);
    if a < b {
        s.subrange(a, b)
    } else {
        Seq::empty()
    }
}

pub open spec fn skip_char(s: Seq<char>, c: char, i: int) -> int
    decreases s.len() - i,
{
    if 0 <= i < s.len() && s[i] == c {
        skip_char(s, c, i + 1)
    } else {
        i
    }
}

pub open spec fn rskip_char(s: Seq<char>, c: char, j: int) -> int
    decreases j,
{
    if 0 < j <= s.len() && s[j - 1] == c {
        rskip_char(s, c, j - 1)
    } else {
        j
    }
}

/// `str::trim_matches(c)`: `s` without every leading and trailing `c`.
pub open spec fn trim_char(s: Seq<char>, c: char) -> Seq<char> {
    let a = skip_char(s, c, 0);
    let b = rskip_char(s, c, s.len() as int);
    if a < b {
        s.subrange(a, b)
    } else {
        Seq::empty()
    }
}

/// Index of the first `c` at or after `i`, or the length when there is none.
pub open spec fn find_char(s: Seq<char>, c: char, i: int) -> int
    decreases s.len() - i,
{
    if 0 <= i < s.len() && s[i] != c {
        find_char(s, c, i + 1)
    } else if i < 0 {
        i
    } else if i < s.len() {
        i
    } else {
        s.len() as int
    }
}

/// Index of the first whitespace character at or after `i`, or the length.
pub open spec fn find_ws(s: Seq<char>, i: int) -> int
    decreases s.len() - i,
{
    if 0 <= i < s.len() && !is_ws(s[i]) {
        find_ws(s, i + 1)
    } else if i < 0 {
        i
    } else if i < s.len() {
        i
    } else {
        s.len() as int
    }
}

/// End of the run of key characters that starts at `i`.
pub open spec fn key_run_end(s: Seq<char>, i: int) -> int
    decreases s.len() - i,
{
    if 0 <= i < s.len() && is_key_ch(s[i]) {
        key_run_end(s, i + 1)
    } else {
        i
    }
}

pub open spec fn starts_with(s: Seq<char>, p: Seq<char>) -> bool {
    p.len() <= s.len() && s.take(p.len() as int) == p
}

/// Index of the first `//` at or after `i`, or the length.
pub open spec fn find_slashes(s: Seq<char>, i: int) -> int
    decreases s.len() - i,
{
    if 0 <= i && i + 1 < s.len() && !(s[i] == '/' && s[i + 1] == '/') {
        find_slashes(s, i + 1)
    } else if 0 <= i && i + 1 < s.len() {
        i
    } else {
        s.len() as int
    }
}

/// The part of a line before its first `//`.
pub open spec fn before_line_comment(s: Seq<char>) -> Seq<char> {
    s.take(find_slashes(s, 0))
}

/// Removes `/* ... */` comments; a comment keeps the line breaks inside it.
/// `in_comment` says whether the text starts inside a comment.
pub open spec fn strip_block(s: Seq<char>, in_comment: bool) -> Seq<char>
    decreases s.len(),
{
    if s.len() == 0 {
        Seq::empty()
    } else if in_comment {
        if s[0] == '*' && s.len() > 1 && s[1] == '/' {
            strip_block(s.skip(2), false)
        } else if s[0] == '\n' {
            seq!['\n'] + strip_block(s.skip(1), true)
        } else {
            strip_block(s.skip(1), true)
        }
    } else if s[0] == '/' && s.len() > 1 && s[1] == '*' {
        strip_block(s.skip(2), true)
    } else {
        seq![s[0]] + strip_block(s.skip(1), false)
    }
}

pub open spec fn block_comments_removed(s: Seq<char>) -> Seq<char> {
    strip_block(s, false)
}

/// Drops one trailing carriage return.
pub open spec fn strip_cr(s: Seq<char>) -> Seq<char> {
    if s.len() > 0 && s.last() == '\r' {
        s.drop_last()
    } else {
        s
    }
}

/// `str::lines` on the text that starts at `i`: split at `\n`, drop a `\r`
/// before each `\n`, and yield no empty line after a final `\n`.
pub open spec fn lines_from(s: Seq<char>, i: int) -> Seq<Seq<char>>
    decreases s.len() - i,
{
    if i < 0 || i >= s.len() {
        Seq::empty()
    } else {
        let k = find_char(s, '\n', i);
        proof {
            lemma_find_char_bounds(s, '\n', i);
        }
        if k >= s.len() {
            seq![s.subrange(i, s.len() as int)]
        } else {
            seq![strip_cr(s.subrange(i, k))] + lines_from(s, k + 1)
        }
    }
}

pub open spec fn lines(s: Seq<char>) -> Seq<Seq<char>> {
    lines_from(s, 0)
}

/// `str::replace`: every occurrence of `pat`, left to right and without
/// overlap, is replaced by `rep`. An empty pattern occurs at every character
/// boundary, so `rep` goes before each character and once more at the end.
pub open spec fn replace_all(s: Seq<char>, pat: Seq<char>, rep: Seq<char>) -> Seq<char>
    decreases s.len(),
{
    if pat.len() == 0 {
        if s.len() == 0 {
            rep
        } else {
            rep + seq![s[0]] + replace_all(s.skip(1), pat, rep)
        }
    } else if s.len() == 0 {
        s
    } else if starts_with(s, pat) {
        rep + replace_all(s.skip(pat.len() as int), pat, rep)
    } else {
        seq![s[0]] + replace_all(s.skip(1), pat, rep)
    }
}

pub open spec fn digit_char(d: nat) -> char {
    ((d % 10) + 48) as char
}

/// Decimal digits of `n`, as `format!("{n}")` writes them.
pub open spec fn decimal(n: nat) -> Seq<char>
    decreases n,
{
    if n < 10 {
        seq![digit_char(n)]
    } else {
        decimal(n / 10).push(digit_char(n % 10))
    }
}

/// Number of bytes in the UTF-8 encoding of `c`.
pub open spec fn utf8_width(c: char) -> nat {
    if (c as u32) < 0x80 {
        1
    } else if (c as u32) < 0x800 {
        2
    } else if (c as u32) < 0x10000 {
        3
    } else {
        4
    }
}

/// Number of bytes in the UTF-8 encoding of `s`.
pub open spec fn utf8_len(s: Seq<char>) -> nat
    decreases s.len(),
{
    if s.len() == 0 {
        0
    } else {
        utf8_len(s.drop_last()) + utf8_width(s.last())
    }
}

// ---------------------------------------------------------------------------
// Lemmas
// ---------------------------------------------------------------------------

pub proof fn lemma_utf8_len_add(a: Seq<char>, b: Seq<char>)
    ensures
        utf8_len(a + b) == utf8_len(a) + utf8_len(b),
    decreases b.len(),
{
    if b.len() == 0 {
        assert(a + b =~= a);
    } else {
        lemma_utf8_len_add(a, b.drop_last());
        assert((a + b).drop_last() =~= a + b.drop_last());
    }
}

pub proof fn lemma_utf8_len_subrange(s: Seq<char>, i: int, j: int)
    requires
        0 <= i <= j <= s.len(),
    ensures
        utf8_len(s.subrange(i, j)) <= utf8_len(s),
        utf8_len(s.subrange(0, j)) <= utf8_len(s),
        j - i <= utf8_len(s.subrange(i, j)),
{
    lemma_utf8_len_add(s.subrange(0, i), s.subrange(i, j));
    lemma_utf8_len_add(s.subrange(0, j), s.subrange(j, s.len() as int));
    assert(s.subrange(0, i) + s.subrange(i, j) =~= s.subrange(0, j));
    assert(s.subrange(0, j) + s.subrange(j, s.len() as int) =~= s);
    lemma_utf8_len_ge_len(s.subrange(i, j));
}

pub proof fn lemma_utf8_len_ge_len(s: Seq<char>)
    ensures
        s.len() <= utf8_len(s),
    decreases s.len(),
{
    if s.len() > 0 {
        lemma_utf8_len_ge_len(s.drop_last());
    }
}

proof fn lemma_encode_scalar_len(c: char)
    ensures
        vstd::utf8::encode_scalar(c as u32).len() == utf8_width(c),
{
    vstd::utf8::char_is_scalar(c);
}

/// The byte count of `utf8_len` is that of vstd's UTF-8 encoding.
pub proof fn lemma_utf8_len_encode(s: Seq<char>)
    ensures
        vstd::utf8::encode_utf8(s).len() == utf8_len(s),
    decreases s.len(),
{
    if s.len() > 0 {
        lemma_utf8_len_encode(s.drop_first());
        lemma_encode_scalar_len(s[0]);
        assert(seq![s[0]] + s.drop_first() =~= s);
        lemma_utf8_len_add(seq![s[0]], s.drop_first());
        assert(seq![s[0]].drop_last() =~= Seq::<char>::empty());
        let one = seq![s[0]];
        assert(one.last() == s[0]);
        assert(utf8_len(one.drop_last()) == 0);
        assert(utf8_len(one) == utf8_width(s[0]));
        assert(vstd::utf8::encode_utf8(s) == vstd::utf8::encode_scalar(s[0] as u32)
            + vstd::utf8::encode_utf8(s.drop_first()));
    }
}

pub proof fn lemma_skip_ws_bounds(s: Seq<char>, i: int)
    requires
        0 <= i <= s.len(),
    ensures
        i <= skip_ws(s, i) <= s.len(),
        skip_ws(s, i) < s.len() ==> !is_ws(s[skip_ws(s, i)]),
        forall|k: int| i <= k < skip_ws(s, i) ==> is_ws(#[trigger] s[k]),
    decreases s.len() - i,
{
    if i < s.len() && is_ws(s[i]) {
        lemma_skip_ws_bounds(s, i + 1);
    }
}

pub proof fn lemma_key_run_end_bounds(s: Seq<char>, i: int)
    requires
        0 <= i <= s.len(),
    ensures
        i <= key_run_end(s, i) <= s.len(),
        key_run_end(s, i) < s.len() ==> !is_key_ch(s[key_run_end(s, i)]),
        forall|k: int| i <= k < key_run_end(s, i) ==> is_key_ch(#[trigger] s[k]),
    decreases s.len() - i,
{
    if i < s.len() && is_key_ch(s[i]) {
        lemma_key_run_end_bounds(s, i + 1);
    }
}

pub proof fn lemma_find_char_bounds(s: Seq<char>, c: char, i: int)
    requires
        0 <= i <= s.len(),
    ensures
        i <= find_char(s, c, i) <= s.len(),
        find_char(s, c, i) < s.len() ==> s[find_char(s, c, i)] == c,
        forall|k: int| i <= k < find_char(s, c, i) ==> #[trigger] s[k] != c,
    decreases s.len() - i,
{
    if i < s.len() && s[i] != c {
        lemma_find_char_bounds(s, c, i + 1);
    }
}


pub proof fn lemma_find_slashes_bounds(s: Seq<char>, i: int)
    requires
        0 <= i <= s.len(),
    ensures
        i <= find_slashes(s, i) <= s.len(),
    decreases s.len() - i,
{
    if i + 1 < s.len() && !(s[i] == '/' && s[i + 1] == '/') {
        lemma_find_slashes_bounds(s, i + 1);
    }
}

pub proof fn lemma_trim_end_at_bounds(s: Seq<char>, j: int)
    requires
        0 <= j <= s.len(),
    ensures
        0 <= trim_end_at(s, j) <= j,
        trim_end_at(s, j) > 0 ==> !is_ws(s[trim_end_at(s, j) - 1]),
        forall|k: int| trim_end_at(s, j) <= k < j ==> is_ws(#[trigger] s[k]),
    decreases j,
{
    if 0 < j && is_ws(s[j - 1]) {
        lemma_trim_end_at_bounds(s, j - 1);
    }
}



// ---------------------------------------------------------------------------
// Executable operations
// ---------------------------------------------------------------------------

/// The characters of `s`.
pub fn chars_of(s: &str) -> (v: Vec<char>)
    ensures
        v@ == s@,
{
    let mut v: Vec<char> = Vec::new();
    for c in it: s.chars()
        invariant
            v@ == it.seq().take(it.index() as int),
    {
        v.push(c);
    }
    v
}

/// A `String` that holds the characters of `v`.
pub fn string_of(v: &Vec<char>) -> (s: String)
    ensures
        s@ == v@,
{
    let mut s = String::new();
    let mut i: usize = 0;
    while i < v.len()
        invariant
            i <= v.len(),
            s@ == v@.take(i as int),
        decreases v.len() - i,
    {
        s.push(v[i]);
        i = i + 1;
        assert(s@ =~= v@.take(i as int));
    }
    assert(v@.take(i as int) =~= v@);
    s
}


pub fn slice_of(s: &Vec<char>, lo: usize, hi: usize) -> (r: Vec<char>)
    requires
        lo <= hi <= s.len(),
    ensures
        r@ == s@.subrange(lo as int, hi as int),
{
    let mut r: Vec<char> = Vec::new();
    let mut i = lo;
    while i < hi
        invariant
            lo <= i <= hi <= s.len(),
            r@ == s@.subrange(lo as int, i as int),
        decreases hi - i,
    {
        r.push(s[i]);
        i = i + 1;
        assert(r@ =~= s@.subrange(lo as int, i as int));
    }
    r
}

pub fn append_chars(out: &mut Vec<char>, s: &Vec<char>)
    ensures
        final(out)@ == old(out)@ + s@,
{
    let mut i: usize = 0;
    let ghost start = out@;
    while i < s.len()
        invariant
            i <= s.len(),
            out@ == start + s@.take(i as int),
        decreases s.len() - i,
    {
        out.push(s[i]);
        i = i + 1;
        assert(out@ =~= start + s@.take(i as int));
    }
    assert(s@.take(i as int) =~= s@);
}

pub fn concat(a: &Vec<char>, b: &Vec<char>) -> (r: Vec<char>)
    ensures
        r@ == a@ + b@,
{
    let mut r = slice_of(a, 0, a.len());
    assert(a@.subrange(0, a@.len() as int) =~= a@);
    append_chars(&mut r, b);
    r
}

pub fn eq_chars(a: &Vec<char>, b: &Vec<char>) -> (r: bool)
    ensures
        r == (a@ == b@),
{
    if a.len() != b.len() {
        return false;
    }
    let mut i: usize = 0;
    while i < a.len()
        invariant
            a.len() == b.len(),
            i <= a.len(),
            forall|k: int| 0 <= k < i ==> a@[k] == b@[k],
        decreases a.len() - i,
    {
        if a[i] != b[i] {
            return false;
        }
        i = i + 1;
    }
    assert(a@ =~= b@);
    true
}

/// Whether `p` occurs in `s` at position `i`.
pub fn occurs_at(s: &Vec<char>, i: usize, p: &Vec<char>) -> (r: bool)
    requires
        i <= s.len(),
    ensures
        r == starts_with(s@.skip(i as int), p@),
{
    if p.len() > s.len() - i {
        return false;
    }
    let mut k: usize = 0;
    while k < p.len()
        invariant
            i + p.len() <= s.len(),
            k <= p.len(),
            forall|m: int| 0 <= m < k ==> s@[i + m] == p@[m],
        decreases p.len() - k,
    {
        if s[i + k] != p[k] {
            assert(s@.skip(i as int).take(p.len() as int)[k as int] != p@[k as int]);
            return false;
        }
        k = k + 1;
    }
    assert(s@.skip(i as int).take(p.len() as int) =~= p@);
    true
}

pub fn skip_spaces(s: &Vec<char>, i: usize) -> (r: usize)
    requires
        i <= s.len(),
    ensures
        r == skip_ws(s@, i as int),
        i <= r <= s.len(),
{
    let mut j = i;
    while j < s.len() && is_whitespace(s[j])
        invariant
            i <= j <= s.len(),
            skip_ws(s@, i as int) == skip_ws(s@, j as int),
        decreases s.len() - j,
    {
        j = j + 1;
    }
    j
}

pub fn key_end(s: &Vec<char>, i: usize) -> (r: usize)
    requires
        i <= s.len(),
    ensures
        r == key_run_end(s@, i as int),
        i <= r <= s.len(),
{
    let mut j = i;
    while j < s.len() && is_key_char(s[j])
        invariant
            i <= j <= s.len(),
            key_run_end(s@, i as int) == key_run_end(s@, j as int),
        decreases s.len() - j,
    {
        j = j + 1;
    }
    j
}

pub fn find(s: &Vec<char>, c: char, i: usize) -> (r: usize)
    requires
        i <= s.len(),
    ensures
        r as int == find_char(s@, c, i as int),
        i <= r <= s.len(),
{
    let mut j = i;
    while j < s.len() && s[j] != c
        invariant
            i <= j <= s.len(),
            find_char(s@, c, i as int) == find_char(s@, c, j as int),
        decreases s.len() - j,
    {
        j = j + 1;
    }
    j
}

pub fn find_whitespace(s: &Vec<char>, i: usize) -> (r: usize)
    requires
        i <= s.len(),
    ensures
        r as int == find_ws(s@, i as int),
        i <= r <= s.len(),
{
    let mut j = i;
    while j < s.len() && !is_whitespace(s[j])
        invariant
            i <= j <= s.len(),
            find_ws(s@, i as int) == find_ws(s@, j as int),
        decreases s.len() - j,
    {
        j = j + 1;
    }
    j
}

/// `trim` of `s`.
pub fn trimmed(s: &Vec<char>) -> (r: Vec<char>)
    ensures
        r@ == trim(s@),
{
    let a = skip_spaces(s, 0);
    let mut b = s.len();
    while b > 0 && is_whitespace(s[b - 1])
        invariant
            b <= s.len(),
            trim_end_at(s@, s@.len() as int) == trim_end_at(s@, b as int),
        decreases b,
    {
        b = b - 1;
    }
    if a < b {
        slice_of(s, a, b)
    } else {
        Vec::new()
    }
}

/// `trim_char` of `s`.
pub fn trimmed_char(s: &Vec<char>, c: char) -> (r: Vec<char>)
    ensures
        r@ == trim_char(s@, c),
{
    let mut a: usize = 0;
    while a < s.len() && s[a] == c
        invariant
            a <= s.len(),
            skip_char(s@, c, 0) == skip_char(s@, c, a as int),
        decreases s.len() - a,
    {
        a = a + 1;
    }
    let mut b = s.len();
    while b > 0 && s[b - 1] == c
        invariant
            b <= s.len(),
            rskip_char(s@, c, s@.len() as int) == rskip_char(s@, c, b as int),
        decreases b,
    {
        b = b - 1;
    }
    if a < b {
        slice_of(s, a, b)
    } else {
        Vec::new()
    }
}

/// `before_line_comment` of `s`.
pub fn strip_line_comment(s: &Vec<char>) -> (r: Vec<char>)
    ensures
        r@ == before_line_comment(s@),
{
    let mut j: usize = 0;
    while j < s.len() && j + 1 < s.len() && !(s[j] == '/' && s[j + 1] == '/')
        invariant
            j <= s.len(),
            find_slashes(s@, 0) == find_slashes(s@, j as int),
        decreases s.len() - j,
    {
        j = j + 1;
    }
    let end = if j < s.len() && j + 1 < s.len() {
        j
    } else {
        s.len()
    };
    slice_of(s, 0, end)
}

/// `block_comments_removed` of `s`.
pub fn strip_block_comments(s: &Vec<char>) -> (r: Vec<char>)
    ensures
        r@ == block_comments_removed(s@),
{
    let mut out: Vec<char> = Vec::new();
    let mut i: usize = 0;
    let mut in_comment = false;
    assert(s@.skip(0) =~= s@);
    while i < s.len()
        invariant
            i <= s.len(),
            out@ + strip_block(s@.skip(i as int), in_comment) == strip_block(s@, false),
        decreases s.len() - i,
    {
        let ghost rest = s@.skip(i as int);
        let c = s[i];
        if in_comment {
            if c == '*' && i + 1 < s.len() && s[i + 1] == '/' {
                assert(rest.skip(2) =~= s@.skip(i + 2));
                i = i + 2;
                in_comment = false;
            } else if c == '\n' {
                assert(rest.skip(1) =~= s@.skip(i + 1));
                let ghost prev = out@;
                out.push('\n');
                assert(out@ + strip_block(s@.skip(i + 1), true) =~= prev + (seq!['\n'] + strip_block(s@.skip(i + 1), true)));
                i = i + 1;
            } else {
                assert(rest.skip(1) =~= s@.skip(i + 1));
                i = i + 1;
            }
        } else if c == '/' && i + 1 < s.len() && s[i + 1] == '*' {
            assert(rest.skip(2) =~= s@.skip(i + 2));
            i = i + 2;
            in_comment = true;
        } else {
            assert(rest.skip(1) =~= s@.skip(i + 1));
            let ghost prev = out@;
            out.push(c);
            assert(out@ + strip_block(s@.skip(i + 1), false) =~= prev + (seq![c] + strip_block(s@.skip(i + 1), false)));
            i = i + 1;
        }
    }
    assert(s@.skip(i as int) =~= Seq::<char>::empty());
    assert(out@ + Seq::<char>::empty() =~= out@);
    out
}

pub proof fn lemma_char_vec_deep_view(v: &Vec<char>)
    ensures
        v.deep_view() == v@,
{
    assert(v.deep_view() =~= v@);
}

/// The lines of `s`, as `lines` states them.
pub fn split_lines(s: &Vec<char>) -> (r: Vec<Vec<char>>)
    ensures
        r.deep_view() == lines(s@),
{
    let mut r: Vec<Vec<char>> = Vec::new();
    let mut i: usize = 0;
    while i < s.len()
        invariant
            i <= s.len(),
            r.deep_view() + lines_from(s@, i as int) == lines(s@),
        decreases s.len() - i,
    {
        let k = find(s, '\n', i);
        proof {
            lemma_find_char_bounds(s@, '\n', i as int);
        }
        if k >= s.len() {
            let line = slice_of(s, i, s.len());
            let ghost before = r.deep_view();
            proof {
                lemma_char_vec_deep_view(&line);
            }
            r.push(line);
            assert(r.deep_view() =~= before.push(line@));
            assert(lines_from(s@, s@.len() as int) =~= Seq::<Seq<char>>::empty());
            i = s.len();
        } else {
            let mut line = slice_of(s, i, k);
            if k > i && s[k - 1] == '\r' {
                line.pop();
            }
            assert(line@ =~= strip_cr(s@.subrange(i as int, k as int)));
            let ghost before = r.deep_view();
            proof {
                lemma_char_vec_deep_view(&line);
            }
            r.push(line);
            assert(r.deep_view() =~= before.push(line@));
            i = k + 1;
        }
    }
    assert(lines_from(s@, i as int) =~= Seq::<Seq<char>>::empty());
    r
}

/// `replace_all(s, pat, rep)`.
pub fn replace(s: &Vec<char>, pat: &Vec<char>, rep: &Vec<char>) -> (r: Vec<char>)
    ensures
        r@ == replace_all(s@, pat@, rep@),
{
    let mut out: Vec<char> = Vec::new();
    let mut i: usize = 0;
    assert(s@.skip(0) =~= s@);
    if pat.len() == 0 {
        while i < s.len()
            invariant
                pat@.len() == 0,
                i <= s.len(),
                out@ + replace_all(s@.skip(i as int), pat@, rep@) == replace_all(s@, pat@, rep@),
            decreases s.len() - i,
        {
            let ghost rest = s@.skip(i as int);
            assert(rest.skip(1) =~= s@.skip(i + 1));
            let ghost prev = out@;
            append_chars(&mut out, rep);
            let c = s[i];
            out.push(c);
            assert(out@ + replace_all(s@.skip(i + 1), pat@, rep@) =~= prev + (rep@ + seq![c] + replace_all(s@.skip(i + 1), pat@, rep@)));
            i = i + 1;
        }
        assert(s@.skip(i as int) =~= Seq::<char>::empty());
        append_chars(&mut out, rep);
        return out;
    }
    while i < s.len()
        invariant
            pat@.len() > 0,
            i <= s.len(),
            out@ + replace_all(s@.skip(i as int), pat@, rep@) == replace_all(s@, pat@, rep@),
        decreases s.len() - i,
    {
        let ghost rest = s@.skip(i as int);
        if occurs_at(s, i, pat) {
            assert(rest.skip(pat@.len() as int) =~= s@.skip(i + pat@.len()));
            let ghost prev = out@;
            append_chars(&mut out, rep);
            assert(out@ + replace_all(s@.skip(i + pat@.len()), pat@, rep@) =~= prev + (rep@ + replace_all(s@.skip(i + pat@.len()), pat@, rep@)));
            i = i + pat.len();
        } else {
            assert(rest.skip(1) =~= s@.skip(i + 1));
            let ghost prev = out@;
            let c = s[i];
            out.push(c);
            assert(out@ + replace_all(s@.skip(i + 1), pat@, rep@) =~= prev + (seq![c] + replace_all(s@.skip(i + 1), pat@, rep@)));
            i = i + 1;
        }
    }
    assert(s@.skip(i as int) =~= Seq::<char>::empty());
    assert(out@ + Seq::<char>::empty() =~= out@);
    out
}

/// Decimal digits of `n`.
pub fn decimal_chars(n: usize) -> (r: Vec<char>)
    ensures
        r@ == decimal(n as nat),
    decreases n,
{
    let d = (n % 10) as u32;
    let c = char_of_digit(d);
    if n < 10 {
        let mut r = Vec::new();
        r.push(c);
        r
    } else {
        let mut r = decimal_chars(n / 10);
        r.push(c);
        r
    }
}

fn char_of_digit(d: u32) -> (c: char)
    requires
        d < 10,
    ensures
        c == digit_char(d as nat),
{
    if d == 0 { '0' }
    else if d == 1 { '1' }
    else if d == 2 { '2' }
    else if d == 3 { '3' }
    else if d == 4 { '4' }
    else if d == 5 { '5' }
    else if d == 6 { '6' }
    else if d == 7 { '7' }
    else if d == 8 { '8' }
    else { '9' }
}

pub fn width_of(c: char) -> (r: usize)
    ensures
        r == utf8_width(c),
{
    let u = c as u32;
    if u < 0x80 {
        1
    } else if u < 0x800 {
        2
    } else if u < 0x10000 {
        3
    } else {
        4
    }
}

/// Byte offset of character position `k` in `s`.
pub fn byte_offset(s: &Vec<char>, k: usize) -> (r: usize)
    requires
        k <= s.len(),
        utf8_len(s@) <= usize::MAX,
    ensures
        r == utf8_len(s@.take(k as int)),
{
    let mut total: usize = 0;
    let mut i: usize = 0;
    while i < k
        invariant
            i <= k <= s.len(),
            utf8_len(s@) <= usize::MAX,
            total == utf8_len(s@.take(i as int)),
        decreases k - i,
    {
        proof {
            assert(s@.take(i + 1).drop_last() =~= s@.take(i as int));
            lemma_utf8_len_subrange(s@, 0, i + 1);
            assert(s@.subrange(0, i + 1) =~= s@.take(i + 1));
        }
        total = total + width_of(s[i]);
        i = i + 1;
    }
    total
}

/// The characters of a text together with the fact that its UTF-8 encoding
/// fits in `usize`.
pub fn chars_with_byte_bound(s: &str) -> (v: Vec<char>)
    ensures
        v@ == s@,
        utf8_len(v@) <= usize::MAX,
{
    let owned = s.to_owned();
    let _byte_len = owned.len();
    proof {
        lemma_utf8_len_encode(owned@);
    }
    chars_of(s)
}

} // verus!
