//! Small verified text utilities shared by the codec and the resolver:
//! ASCII whitespace trimming, printable-text well-formedness, character
//! search, and JSON string escaping.
use vstd::prelude::*;

verus! {

/// ASCII whitespace, as trimmed from echo-service bodies and state-file lines.
pub open spec fn is_space(c: char) -> bool {
    c == ' ' || c == '\t' || c == '\r' || c == '\n'
}

/// Index of the first non-space character at or after `i`.
pub open spec fn skip_spaces(s: Seq<char>, i: int) -> int
    recommends
        0 <= i <= s.len(),
    decreases s.len() - i,
{
    if i < 0 || i >= s.len() {
        s.len() as int
    } else if is_space(s[i]) {
        skip_spaces(s, i + 1)
    } else {
        i
    }
}

/// Index one past the last non-space character at or before `j - 1`.
pub open spec fn rskip_spaces(s: Seq<char>, j: int) -> int
    recommends
        0 <= j <= s.len(),
    decreases j,
{
    if j <= 0 {
        0
    } else if is_space(s[j - 1]) {
        rskip_spaces(s, j - 1)
    } else {
        j
    }
}

/// `s` with leading and trailing ASCII whitespace removed.
pub open spec fn spec_trim(s: Seq<char>) -> Seq<char> {
    let f = skip_spaces(s, 0);
    let e = rskip_spaces(s, s.len() as int);
    if f < e {
        s.subrange(f, e)
    } else {
        Seq::empty()
    }
}

/// Index of the first occurrence of `c` at or after `i`, or the length.
pub open spec fn find_char(s: Seq<char>, c: char, i: int) -> int
    recommends
        0 <= i <= s.len(),
    decreases s.len() - i,
{
    if i < 0 || i >= s.len() {
        s.len() as int
    } else if s[i] == c {
        i
    } else {
        find_char(s, c, i + 1)
    }
}

proof fn lemma_skip_spaces(s: Seq<char>, i: int)
    requires
        0 <= i <= s.len(),
    ensures
        i <= skip_spaces(s, i) <= s.len(),
        forall|k: int| i <= k < skip_spaces(s, i) ==> is_space(s[k]),
        skip_spaces(s, i) < s.len() ==> !is_space(s[skip_spaces(s, i)]),
    decreases s.len() - i,
{
    if i < s.len() && is_space(s[i]) {
        lemma_skip_spaces(s, i + 1);
    }
}

proof fn lemma_rskip_spaces(s: Seq<char>, j: int)
    requires
        0 <= j <= s.len(),
    ensures
        0 <= rskip_spaces(s, j) <= j,
        forall|k: int| rskip_spaces(s, j) <= k < j ==> is_space(s[k]),
        rskip_spaces(s, j) > 0 ==> !is_space(s[rskip_spaces(s, j) - 1]),
    decreases j,
{
    if j > 0 && is_space(s[j - 1]) {
        lemma_rskip_spaces(s, j - 1);
    }
}

pub proof fn lemma_find_char(s: Seq<char>, c: char, i: int)
    requires
        0 <= i <= s.len(),
    ensures
        i <= find_char(s, c, i) <= s.len(),
        forall|k: int| i <= k < find_char(s, c, i) ==> s[k] != c,
        find_char(s, c, i) < s.len() ==> s[find_char(s, c, i)] == c,
    decreases s.len() - i,
{
    if i < s.len() && s[i] != c {
        lemma_find_char(s, c, i + 1);
    }
}

/// When `c` first occurs at `j`, the search from `i` finds exactly `j`.
pub proof fn lemma_find_char_exact(s: Seq<char>, c: char, i: int, j: int)
    requires
        0 <= i <= j < s.len(),
        s[j] == c,
        forall|k: int| i <= k < j ==> s[k] != c,
    ensures
        find_char(s, c, i) == j,
    decreases j - i,
{
    if i < j {
        lemma_find_char_exact(s, c, i + 1, j);
    }
}

proof fn lemma_skip_from(s: Seq<char>, j: int, f: int)
    requires
        0 <= j <= f <= s.len(),
        forall|k: int| j <= k < f ==> is_space(s[k]),
        f < s.len() ==> !is_space(s[f]),
    ensures
        skip_spaces(s, j) == f,
    decreases f - j,
{
    if j < f {
        lemma_skip_from(s, j + 1, f);
    }
}

proof fn lemma_rskip_from(s: Seq<char>, j: int, e: int)
    requires
        0 <= e <= j <= s.len(),
        forall|k: int| e <= k < j ==> is_space(s[k]),
        e > 0 ==> !is_space(s[e - 1]),
    ensures
        rskip_spaces(s, j) == e,
    decreases j - e,
{
    if e < j {
        lemma_rskip_from(s, j - 1, e);
    }
}

/// Trimming keeps exactly the span `[f, e)` when everything outside it
/// is whitespace and its two ends are not.
pub proof fn lemma_trim_range(s: Seq<char>, f: int, e: int)
    requires
        0 <= f < e <= s.len(),
        forall|k: int| 0 <= k < f ==> is_space(s[k]),
        forall|k: int| e <= k < s.len() ==> is_space(s[k]),
        !is_space(s[f]),
        !is_space(s[e - 1]),
    ensures
        spec_trim(s) == s.subrange(f, e),
{
    lemma_skip_from(s, 0, f);
    lemma_rskip_from(s, s.len() as int, e);
}

/// A sequence with non-space ends trims to itself.
pub proof fn lemma_trim_identity(s: Seq<char>)
    requires
        s.len() > 0,
        !is_space(s[0]),
        !is_space(s[s.len() - 1]),
    ensures
        spec_trim(s) == s,
{
    lemma_trim_range(s, 0, s.len() as int);
    assert(s.subrange(0, s.len() as int) =~= s);
}

/// Printable text: ASCII graphic characters and the space, without the
/// double quote or the backslash, so a value can stand unescaped between
/// quotes in the state file.
pub open spec fn wf_text(s: Seq<char>) -> bool {
    forall|k: int| 0 <= k < s.len() ==> ' ' <= #[trigger] s[k] <= '~' && s[k] != '"' && s[k]
        != '\\'
}

/// Character-for-character equality of two string slices.
pub fn str_eq(a: &str, b: &str) -> (r: bool)
    ensures
        r == (a@ == b@),
{
    let na = a.unicode_len();
    let nb = b.unicode_len();
    if na != nb {
        proof {
            assert(a@ != b@) by {
                assert(a@.len() != b@.len());
            }
        }
        return false;
    }
    let mut i: usize = 0;
    while i < na
        invariant
            i <= na,
            na == a@.len(),
            na == b@.len(),
            forall|k: int| 0 <= k < i ==> a@[k] == b@[k],
        decreases na - i,
    {
        if a.get_char(i) != b.get_char(i) {
            return false;
        }
        i = i + 1;
    }
    proof {
        assert(a@ =~= b@);
    }
    true
}

/// Decides `wf_text`.
pub fn is_wf_text(s: &str) -> (r: bool)
    ensures
        r == wf_text(s@),
{
    let n = s.unicode_len();
    let mut i: usize = 0;
    while i < n
        invariant
            i <= n,
            n == s@.len(),
            forall|k: int| 0 <= k < i ==> ' ' <= #[trigger] s@[k] <= '~' && s@[k] != '"' && s@[k]
                != '\\',
        decreases n - i,
    {
        let c = s.get_char(i);
        if !(' ' <= c && c <= '~') || c == '"' || c == '\\' {
            return false;
        }
        i = i + 1;
    }
    true
}

fn skip_spaces_exec(s: &str, i: usize, n: usize) -> (r: usize)
    requires
        i <= n,
        n == s@.len(),
    ensures
        r == skip_spaces(s@, i as int),
    decreases n - i,
{
    if i < n && is_space_exec(s.get_char(i)) {
        skip_spaces_exec(s, i + 1, n)
    } else {
        i
    }
}

fn rskip_spaces_exec(s: &str, j: usize) -> (r: usize)
    requires
        j <= s@.len(),
    ensures
        r == rskip_spaces(s@, j as int),
    decreases j,
{
    if j > 0 && is_space_exec(s.get_char(j - 1)) {
        rskip_spaces_exec(s, j - 1)
    } else {
        j
    }
}

fn is_space_exec(c: char) -> (r: bool)
    ensures
        r == is_space(c),
{
    c == ' ' || c == '\t' || c == '\r' || c == '\n'
}

/// Removes leading and trailing ASCII whitespace.
pub fn trim(s: &str) -> (r: &str)
    ensures
        r@ == spec_trim(s@),
{
    let n = s.unicode_len();
    let f = skip_spaces_exec(s, 0, n);
    let e = rskip_spaces_exec(s, n);
    proof {
        lemma_skip_spaces(s@, 0);
        lemma_rskip_spaces(s@, s@.len() as int);
    }
    if f < e {
        s.substring_char(f, e)
    } else {
        let r = "";
        proof {
            reveal_strlit("");
        }
        assert(r@ =~= spec_trim(s@));
        r
    }
}

pub fn find_char_exec(s: &str, c: char, i: usize, n: usize) -> (r: usize)
    requires
        i <= n,
        n == s@.len(),
    ensures
        r == find_char(s@, c, i as int),
    decreases n - i,
{
    if i < n {
        if s.get_char(i) == c {
            i
        } else {
            find_char_exec(s, c, i + 1, n)
        }
    } else {
        n
    }
}

/// Relies on std's String::push: appends the given character to the end
/// of the string.
#[verifier::external_body]
fn push_char(out: &mut String, c: char)
    ensures
        final(out)@ == old(out)@ + seq![c],
{
    out.push(c);
}

pub open spec fn hex_char(d: int) -> char
    recommends
        0 <= d < 16,
{
    if d == 0 { '0' }
    else if d == 1 { '1' }
    else if d == 2 { '2' }
    else if d == 3 { '3' }
    else if d == 4 { '4' }
    else if d == 5 { '5' }
    else if d == 6 { '6' }
    else if d == 7 { '7' }
    else if d == 8 { '8' }
    else if d == 9 { '9' }
    else if d == 10 { 'a' }
    else if d == 11 { 'b' }
    else if d == 12 { 'c' }
    else if d == 13 { 'd' }
    else if d == 14 { 'e' }
    else { 'f' }
}

/// The JSON escape of one character: quote and backslash get a backslash,
/// control characters a \u sequence, anything else stands as itself.
pub open spec fn esc_char(c: char) -> Seq<char> {
    if c == '"' {
        seq!['\\', '"']
    } else if c == '\\' {
        seq!['\\', '\\']
    } else if (c as u32) < 32 {
        seq!['\\', 'u', '0', '0', hex_char(c as int / 16), hex_char(c as int % 16)]
    } else {
        seq![c]
    }
}

/// The JSON escape of a whole string body.
pub open spec fn spec_escape(s: Seq<char>) -> Seq<char>
    decreases s.len(),
{
    if s.len() == 0 {
        Seq::empty()
    } else {
        esc_char(s[0]) + spec_escape(s.drop_first())
    }
}

fn hex_char_exec(d: u32) -> (r: char)
    requires
        d < 16,
    ensures
        r == hex_char(d as int),
{
    if d == 0 { '0' }
    else if d == 1 { '1' }
    else if d == 2 { '2' }
    else if d == 3 { '3' }
    else if d == 4 { '4' }
    else if d == 5 { '5' }
    else if d == 6 { '6' }
    else if d == 7 { '7' }
    else if d == 8 { '8' }
    else if d == 9 { '9' }
    else if d == 10 { 'a' }
    else if d == 11 { 'b' }
    else if d == 12 { 'c' }
    else if d == 13 { 'd' }
    else if d == 14 { 'e' }
    else { 'f' }
}

fn append_esc_char(out: &mut String, c: char)
    ensures
        final(out)@ == old(out)@ + esc_char(c),
{
    proof {
        reveal_strlit("\\\"");
        reveal_strlit("\\\\");
        reveal_strlit("\\u00");
    }
    if c == '"' {
        out.append("\\\"");
        assert(final(out)@ =~= old(out)@ + esc_char(c));
    } else if c == '\\' {
        out.append("\\\\");
        assert(final(out)@ =~= old(out)@ + esc_char(c));
    } else if (c as u32) < 32 {
        let v = c as u32;
        out.append("\\u00");
        push_char(out, hex_char_exec(v / 16));
        push_char(out, hex_char_exec(v % 16));
        assert(final(out)@ =~= old(out)@ + esc_char(c));
    } else {
        push_char(out, c);
        assert(final(out)@ =~= old(out)@ + esc_char(c));
    }
}

/// Escapes a string for placement between double quotes in a JSON text.
pub fn escape_json(s: &str) -> (r: String)
    ensures
        r@ == spec_escape(s@),
{
    let n = s.unicode_len();
    let mut out = String::new();
    let mut i: usize = 0;
    while i < n
        invariant
            i <= n,
            n == s@.len(),
            out@ == spec_escape(s@.subrange(0, i as int)),
        decreases n - i,
    {
        let c = s.get_char(i);
        append_esc_char(&mut out, c);
        proof {
            lemma_escape_prefix_snoc(s@, i as int);
            assert(out@ =~= spec_escape(s@.subrange(0, i + 1 as int)));
        }
        i = i + 1;
    }
    proof {
        assert(s@.subrange(0, n as int) =~= s@);
        assert(out@ =~= spec_escape(s@));
    }
    out
}

proof fn lemma_escape_prefix_snoc(s: Seq<char>, i: int)
    requires
        0 <= i < s.len(),
    ensures
        spec_escape(s.subrange(0, i + 1)) == spec_escape(s.subrange(0, i)) + esc_char(s[i]),
    decreases i,
{
    if i == 0 {
        reveal_with_fuel(spec_escape, 3);
        assert(s.subrange(0, 1).drop_first().len() == 0);
        assert(s.subrange(0, 1)[0] == s[0]);
        assert(spec_escape(s.subrange(0, 0)).len() == 0);
        assert(spec_escape(s.subrange(0, 1)) =~= esc_char(s[0]));
        assert(spec_escape(s.subrange(0, i + 1)) =~= spec_escape(s.subrange(0, i)) + esc_char(
            s[i],
        ));
    } else {
        let a = s.subrange(0, i + 1);
        let b = s.subrange(0, i);
        assert(a[0] == s[0] && b[0] == s[0]);
        assert(a.drop_first() =~= s.subrange(1, s.len() as int).subrange(0, i));
        assert(b.drop_first() =~= s.subrange(1, s.len() as int).subrange(0, i - 1));
        lemma_escape_prefix_snoc(s.subrange(1, s.len() as int), i - 1);
        assert(s.subrange(1, s.len() as int)[i - 1] == s[i]);
        assert(spec_escape(a) == esc_char(s[0]) + spec_escape(a.drop_first()));
        assert(spec_escape(b) == esc_char(s[0]) + spec_escape(b.drop_first()));
        assert(spec_escape(a) =~= spec_escape(b) + esc_char(s[i]));
    }
}

} // verus!
