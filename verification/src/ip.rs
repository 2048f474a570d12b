//! IPv4 addresses as plain values, with their canonical dotted-decimal
//! text form: a verified parser and formatter that invert each other.
use vstd::prelude::*;

verus! {

/// An IPv4 address, one octet per field.
#[derive(Clone, Copy, Debug, PartialEq, Eq, Structural)]
pub struct Ipv4 {
    pub a: u8,
    pub b: u8,
    pub c: u8,
    pub d: u8,
}

/// The character for one decimal digit value.
pub open spec fn digit_char(d: u8) -> char
    recommends
        d < 10,
{
    if d == 0 { '0' }
    else if d == 1 { '1' }
    else if d == 2 { '2' }
    else if d == 3 { '3' }
    else if d == 4 { '4' }
    else if d == 5 { '5' }
    else if d == 6 { '6' }
    else if d == 7 { '7' }
    else if d == 8 { '8' }
    else if d == 9 { '9' }
    else { ' ' }
}

pub open spec fn is_digit(c: char) -> bool {
    c == '0' || c == '1' || c == '2' || c == '3' || c == '4' || c == '5' || c == '6' || c == '7'
        || c == '8' || c == '9'
}

/// The value of one decimal digit character.
pub open spec fn digit_val(c: char) -> u8
    recommends
        is_digit(c),
{
    if c == '0' { 0 }
    else if c == '1' { 1 }
    else if c == '2' { 2 }
    else if c == '3' { 3 }
    else if c == '4' { 4 }
    else if c == '5' { 5 }
    else if c == '6' { 6 }
    else if c == '7' { 7 }
    else if c == '8' { 8 }
    else { 9 }
}

/// Canonical decimal text of an octet: no leading zeros, one to three digits.
pub open spec fn dec_text(n: u8) -> Seq<char> {
    if n < 10 {
        seq![digit_char(n)]
    } else if n < 100 {
        seq![digit_char(n / 10), digit_char(n % 10)]
    } else {
        seq![digit_char(n / 100), digit_char((n / 10) % 10), digit_char(n % 10)]
    }
}

/// Canonical dotted-decimal text of an address.
pub open spec fn ipv4_text(ip: Ipv4) -> Seq<char> {
    dec_text(ip.a) + seq!['.'] + dec_text(ip.b) + seq!['.'] + dec_text(ip.c) + seq!['.']
        + dec_text(ip.d)
}

/// Greedy parse of one octet starting at `i`: up to three digits, no
/// leading zero unless the octet is exactly "0", value at most 255, and
/// not followed by a further digit. Returns the value and the position
/// one past the last digit consumed.
pub open spec fn spec_parse_octet(s: Seq<char>, i: int) -> Option<(u8, int)>
    recommends
        0 <= i <= s.len(),
{
    if i < s.len() && is_digit(s[i]) {
        if s[i] == '0' {
            Some((0u8, i + 1))
        } else if i + 1 < s.len() && is_digit(s[i + 1]) {
            if i + 2 < s.len() && is_digit(s[i + 2]) {
                if i + 3 < s.len() && is_digit(s[i + 3]) {
                    None
                } else if digit_val(s[i]) * 100 + digit_val(s[i + 1]) * 10 + digit_val(s[i + 2])
                    <= 255 {
                    Some(
                        (
                            (digit_val(s[i]) * 100 + digit_val(s[i + 1]) * 10 + digit_val(
                                s[i + 2],
                            )) as u8,
                            i + 3,
                        ),
                    )
                } else {
                    None
                }
            } else {
                Some(((digit_val(s[i]) * 10 + digit_val(s[i + 1])) as u8, i + 2))
            }
        } else {
            Some((digit_val(s[i]), i + 1))
        }
    } else {
        None
    }
}

/// Parse of a whole dotted-decimal address: four octets joined by '.',
/// consuming the entire sequence.
pub open spec fn spec_parse_ipv4(s: Seq<char>) -> Option<Ipv4> {
    match spec_parse_octet(s, 0) {
        Some((a, i1)) => if i1 < s.len() && s[i1] == '.' {
            match spec_parse_octet(s, i1 + 1) {
                Some((b, i2)) => if i2 < s.len() && s[i2] == '.' {
                    match spec_parse_octet(s, i2 + 1) {
                        Some((c, i3)) => if i3 < s.len() && s[i3] == '.' {
                            match spec_parse_octet(s, i3 + 1) {
                                Some((d, i4)) => if i4 == s.len() {
                                    Some(Ipv4 { a, b, c, d })
                                } else {
                                    None
                                },
                                None => None,
                            }
                        } else {
                            None
                        },
                        None => None,
                    }
                } else {
                    None
                },
                None => None,
            }
        } else {
            None
        },
        None => None,
    }
}

proof fn lemma_digit(d: u8)
    requires
        d < 10,
    ensures
        is_digit(digit_char(d)),
        digit_val(digit_char(d)) == d,
        d != 0 ==> digit_char(d) != '0',
{
}

proof fn lemma_dec_text_shape(n: u8)
    ensures
        1 <= dec_text(n).len() <= 3,
        forall|k: int| 0 <= k < dec_text(n).len() ==> is_digit(#[trigger] dec_text(n)[k]),
        n >= 10 ==> dec_text(n)[0] != '0',
{
    if n < 10 {
        lemma_digit(n);
    } else if n < 100 {
        lemma_digit(n / 10);
        lemma_digit(n % 10);
    } else {
        lemma_digit(n / 100);
        lemma_digit((n / 10) % 10);
        lemma_digit(n % 10);
    }
}

/// An octet's canonical text, followed by the end or by a non-digit,
/// parses back to the octet.
proof fn lemma_parse_octet_of_text(s: Seq<char>, i: int, n: u8)
    requires
        0 <= i,
        i + dec_text(n).len() <= s.len(),
        s.subrange(i, i + dec_text(n).len() as int) == dec_text(n),
        i + dec_text(n).len() == s.len() || !is_digit(s[i + dec_text(n).len()]),
    ensures
        spec_parse_octet(s, i) == Some((n, i + dec_text(n).len() as int)),
{
    lemma_dec_text_shape(n);
    let t = dec_text(n);
    assert forall|k: int| 0 <= k < t.len() implies s[i + k] == #[trigger] t[k] by {
        assert(s.subrange(i, i + t.len() as int)[k] == s[i + k]);
    }
    if n < 10 {
        lemma_digit(n);
        assert(t[0] == digit_char(n));
        assert(s[i + 0] == t[0]);
        assert(s[i] == digit_char(n));
    } else if n < 100 {
        lemma_digit(n / 10);
        lemma_digit(n % 10);
        assert(t[0] == digit_char(n / 10) && t[1] == digit_char(n % 10));
        assert(s[i + 0] == t[0] && s[i + 1] == t[1]);
        assert(s[i] == digit_char(n / 10));
        assert(s[i + 1] == digit_char(n % 10));
        assert(digit_val(s[i]) * 10 + digit_val(s[i + 1]) == n);
    } else {
        lemma_digit(n / 100);
        lemma_digit((n / 10) % 10);
        lemma_digit(n % 10);
        assert(t[0] == digit_char(n / 100) && t[1] == digit_char((n / 10) % 10) && t[2]
            == digit_char(n % 10));
        assert(s[i + 0] == t[0] && s[i + 1] == t[1] && s[i + 2] == t[2]);
        assert(s[i] == digit_char(n / 100));
        assert(s[i + 1] == digit_char((n / 10) % 10));
        assert(s[i + 2] == digit_char(n % 10));
        assert(n / 100 * 100 + (n / 10) % 10 * 10 + n % 10 == n) by {
            assert(n / 10 == n / 100 * 10 + (n / 10) % 10) by {
                assert(n / 100 == (n / 10) / 10) by (nonlinear_arith);
                assert((n / 10) / 10 * 10 + (n / 10) % 10 == n / 10);
            }
            assert(n / 10 * 10 + n % 10 == n);
        }
        assert(digit_val(s[i]) * 100 + digit_val(s[i + 1]) * 10 + digit_val(s[i + 2]) == n);
    }
}

/// The canonical text of an address parses back to that address.
pub proof fn lemma_text_parses(ip: Ipv4)
    ensures
        spec_parse_ipv4(ipv4_text(ip)) == Some(ip),
{
    let s = ipv4_text(ip);
    let la = dec_text(ip.a).len() as int;
    let lb = dec_text(ip.b).len() as int;
    let lc = dec_text(ip.c).len() as int;
    let ld = dec_text(ip.d).len() as int;
    lemma_dec_text_shape(ip.a);
    lemma_dec_text_shape(ip.b);
    lemma_dec_text_shape(ip.c);
    lemma_dec_text_shape(ip.d);
    assert(s.len() == la + 1 + lb + 1 + lc + 1 + ld);
    assert(s.subrange(0, la) =~= dec_text(ip.a));
    assert(s[la] == '.');
    assert(s.subrange(la + 1, la + 1 + lb) =~= dec_text(ip.b));
    assert(s[la + 1 + lb] == '.');
    assert(s.subrange(la + 1 + lb + 1, la + 1 + lb + 1 + lc) =~= dec_text(ip.c));
    assert(s[la + 1 + lb + 1 + lc] == '.');
    assert(s.subrange(la + 1 + lb + 1 + lc + 1, s.len() as int) =~= dec_text(ip.d));
    assert(!is_digit('.'));
    lemma_parse_octet_of_text(s, 0, ip.a);
    lemma_parse_octet_of_text(s, la + 1, ip.b);
    lemma_parse_octet_of_text(s, la + 1 + lb + 1, ip.c);
    lemma_parse_octet_of_text(s, la + 1 + lb + 1 + lc + 1, ip.d);
}

/// What one octet parse consumed is the octet's canonical text.
proof fn lemma_parse_octet_is_text(s: Seq<char>, i: int)
    requires
        0 <= i <= s.len(),
        spec_parse_octet(s, i) is Some,
    ensures
        ({
            let (n, j) = spec_parse_octet(s, i)->Some_0;
            &&& i < j <= s.len()
            &&& j - i == dec_text(n).len()
            &&& s.subrange(i, j) =~= dec_text(n)
        }),
{
    let (n, j) = spec_parse_octet(s, i)->Some_0;
    if s[i] == '0' {
        assert(s.subrange(i, j) =~= seq!['0']);
    } else if i + 1 < s.len() && is_digit(s[i + 1]) {
        if i + 2 < s.len() && is_digit(s[i + 2]) {
            let v = digit_val(s[i]) * 100 + digit_val(s[i + 1]) * 10 + digit_val(s[i + 2]);
            assert(v == n);
            assert(digit_val(s[i]) >= 1);
            assert(n >= 100);
            assert(n / 100 == digit_val(s[i]) && (n / 10) % 10 == digit_val(s[i + 1]) && n % 10
                == digit_val(s[i + 2])) by (nonlinear_arith)
                requires
                    n == digit_val(s[i]) * 100 + digit_val(s[i + 1]) * 10 + digit_val(s[i + 2]),
                    digit_val(s[i]) < 10,
                    digit_val(s[i + 1]) < 10,
                    digit_val(s[i + 2]) < 10,
            ;
            lemma_digit(digit_val(s[i]));
            lemma_digit(digit_val(s[i + 1]));
            lemma_digit(digit_val(s[i + 2]));
            assert(digit_char(digit_val(s[i])) == s[i]);
            assert(digit_char(digit_val(s[i + 1])) == s[i + 1]);
            assert(digit_char(digit_val(s[i + 2])) == s[i + 2]);
            assert(s.subrange(i, j) =~= dec_text(n));
        } else {
            let v = digit_val(s[i]) * 10 + digit_val(s[i + 1]);
            assert(v == n);
            assert(10 <= n < 100);
            assert(n / 10 == digit_val(s[i]) && n % 10 == digit_val(s[i + 1]));
            lemma_digit(digit_val(s[i]));
            lemma_digit(digit_val(s[i + 1]));
            assert(digit_char(digit_val(s[i])) == s[i]);
            assert(digit_char(digit_val(s[i + 1])) == s[i + 1]);
            assert(s.subrange(i, j) =~= dec_text(n));
        }
    } else {
        assert(n == digit_val(s[i]) && n < 10);
        lemma_digit(digit_val(s[i]));
        assert(s.subrange(i, j) =~= dec_text(n));
    }
}

/// A sequence parses to an address exactly when it is that address's
/// canonical text: the parser accepts the canonical forms and nothing else.
#[verifier::rlimit(50)]
pub proof fn lemma_parse_iff_text(s: Seq<char>, ip: Ipv4)
    ensures
        spec_parse_ipv4(s) == Some(ip) <==> s == ipv4_text(ip),
{
    if s == ipv4_text(ip) {
        lemma_text_parses(ip);
    }
    if spec_parse_ipv4(s) == Some(ip) {
        let (a, i1) = spec_parse_octet(s, 0)->Some_0;
        lemma_parse_octet_is_text(s, 0);
        let (b, i2) = spec_parse_octet(s, i1 + 1)->Some_0;
        lemma_parse_octet_is_text(s, i1 + 1);
        let (c, i3) = spec_parse_octet(s, i2 + 1)->Some_0;
        lemma_parse_octet_is_text(s, i2 + 1);
        let (d, i4) = spec_parse_octet(s, i3 + 1)->Some_0;
        lemma_parse_octet_is_text(s, i3 + 1);
        assert(s =~= s.subrange(0, i1) + seq![s[i1]] + s.subrange(i1 + 1, i2) + seq![s[i2]]
            + s.subrange(i2 + 1, i3) + seq![s[i3]] + s.subrange(i3 + 1, i4));
        assert(s == ipv4_text(ip));
    }
}

/// Dotted-decimal text holds only digits and dots.
pub proof fn lemma_ipv4_text_chars(ip: Ipv4)
    ensures
        forall|k: int| 0 <= k < ipv4_text(ip).len() ==> is_digit(#[trigger] ipv4_text(ip)[k])
            || ipv4_text(ip)[k] == '.',
{
    let s = ipv4_text(ip);
    let la = dec_text(ip.a).len() as int;
    let lb = dec_text(ip.b).len() as int;
    let lc = dec_text(ip.c).len() as int;
    let ld = dec_text(ip.d).len() as int;
    lemma_dec_text_shape(ip.a);
    lemma_dec_text_shape(ip.b);
    lemma_dec_text_shape(ip.c);
    lemma_dec_text_shape(ip.d);
    assert forall|k: int| 0 <= k < s.len() implies is_digit(#[trigger] s[k]) || s[k] == '.' by {
        if k < la {
            assert(s[k] == dec_text(ip.a)[k]);
        } else if k == la {
            assert(s[k] == '.');
        } else if k < la + 1 + lb {
            assert(s[k] == dec_text(ip.b)[k - la - 1]);
        } else if k == la + 1 + lb {
            assert(s[k] == '.');
        } else if k < la + 1 + lb + 1 + lc {
            assert(s[k] == dec_text(ip.c)[k - la - 1 - lb - 1]);
        } else if k == la + 1 + lb + 1 + lc {
            assert(s[k] == '.');
        } else {
            assert(s[k] == dec_text(ip.d)[k - la - 1 - lb - 1 - lc - 1]);
        }
    }
}

fn is_digit_exec(c: char) -> (r: bool)
    ensures
        r == is_digit(c),
{
    c == '0' || c == '1' || c == '2' || c == '3' || c == '4' || c == '5' || c == '6' || c == '7'
        || c == '8' || c == '9'
}

fn digit_val_exec(c: char) -> (r: u8)
    requires
        is_digit(c),
    ensures
        r == digit_val(c),
{
    if c == '0' { 0 }
    else if c == '1' { 1 }
    else if c == '2' { 2 }
    else if c == '3' { 3 }
    else if c == '4' { 4 }
    else if c == '5' { 5 }
    else if c == '6' { 6 }
    else if c == '7' { 7 }
    else if c == '8' { 8 }
    else { 9 }
}

fn parse_octet_at(s: &str, i: usize, n: usize) -> (r: Option<(u8, usize)>)
    requires
        i <= n,
        n == s@.len(),
    ensures
        match r {
            Some((v, j)) => spec_parse_octet(s@, i as int) == Some((v, j as int)) && j <= n,
            None => spec_parse_octet(s@, i as int) is None,
        },
{
    if i < n && is_digit_exec(s.get_char(i)) {
        let c0 = s.get_char(i);
        if c0 == '0' {
            Some((0u8, i + 1))
        } else if i + 1 < n && is_digit_exec(s.get_char(i + 1)) {
            let c1 = s.get_char(i + 1);
            if i + 2 < n && is_digit_exec(s.get_char(i + 2)) {
                let c2 = s.get_char(i + 2);
                if i + 3 < n && is_digit_exec(s.get_char(i + 3)) {
                    None
                } else {
                    let v: u32 = digit_val_exec(c0) as u32 * 100 + digit_val_exec(c1) as u32 * 10
                        + digit_val_exec(c2) as u32;
                    if v <= 255 {
                        Some((v as u8, i + 3))
                    } else {
                        None
                    }
                }
            } else {
                Some((digit_val_exec(c0) * 10 + digit_val_exec(c1), i + 2))
            }
        } else {
            Some((digit_val_exec(c0), i + 1))
        }
    } else {
        None
    }
}

/// Parses dotted-decimal IPv4 text; accepts exactly the canonical forms
/// (no leading zeros, each octet at most 255, nothing else around).
pub fn parse_ipv4(s: &str) -> (r: Option<Ipv4>)
    ensures
        r == spec_parse_ipv4(s@),
        r is Some ==> s@ == ipv4_text(r->Some_0),
        r is None ==> forall|ip: Ipv4| s@ != ipv4_text(ip),
{
    let n = s.unicode_len();
    let r = parse_ipv4_inner(s, n);
    proof {
        match r {
            Some(ip) => {
                lemma_parse_iff_text(s@, ip);
            },
            None => {
                assert forall|ip: Ipv4| s@ != ipv4_text(ip) by {
                    lemma_parse_iff_text(s@, ip);
                }
            },
        }
    }
    r
}

fn parse_ipv4_inner(s: &str, n: usize) -> (r: Option<Ipv4>)
    requires
        n == s@.len(),
    ensures
        r == spec_parse_ipv4(s@),
{
    let (a, i1) = match parse_octet_at(s, 0, n) {
        Some(p) => p,
        None => {
            return None;
        },
    };
    if !(i1 < n && s.get_char(i1) == '.') {
        return None;
    }
    let (b, i2) = match parse_octet_at(s, i1 + 1, n) {
        Some(p) => p,
        None => {
            return None;
        },
    };
    if !(i2 < n && s.get_char(i2) == '.') {
        return None;
    }
    let (c, i3) = match parse_octet_at(s, i2 + 1, n) {
        Some(p) => p,
        None => {
            return None;
        },
    };
    if !(i3 < n && s.get_char(i3) == '.') {
        return None;
    }
    let (d, i4) = match parse_octet_at(s, i3 + 1, n) {
        Some(p) => p,
        None => {
            return None;
        },
    };
    if i4 == n {
        Some(Ipv4 { a, b, c, d })
    } else {
        None
    }
}

fn digit_str(d: u8) -> (r: &'static str)
    requires
        d < 10,
    ensures
        r@ == seq![digit_char(d)],
{
    proof {
        reveal_strlit("0");
        reveal_strlit("1");
        reveal_strlit("2");
        reveal_strlit("3");
        reveal_strlit("4");
        reveal_strlit("5");
        reveal_strlit("6");
        reveal_strlit("7");
        reveal_strlit("8");
        reveal_strlit("9");
    }
    match d {
        0 => "0",
        1 => "1",
        2 => "2",
        3 => "3",
        4 => "4",
        5 => "5",
        6 => "6",
        7 => "7",
        8 => "8",
        _ => "9",
    }
}

fn push_dec(out: &mut String, n: u8)
    ensures
        final(out)@ == old(out)@ + dec_text(n),
{
    if n < 10 {
        out.append(digit_str(n));
    } else if n < 100 {
        out.append(digit_str(n / 10));
        out.append(digit_str(n % 10));
    } else {
        out.append(digit_str(n / 100));
        out.append(digit_str((n / 10) % 10));
        out.append(digit_str(n % 10));
    }
    assert(final(out)@ =~= old(out)@ + dec_text(n));
}

/// Formats an address as its canonical dotted-decimal text.
pub fn format_ipv4(ip: &Ipv4) -> (r: String)
    ensures
        r@ == ipv4_text(*ip),
{
    proof {
        reveal_strlit(".");
    }
    let mut out = String::new();
    push_dec(&mut out, ip.a);
    out.append(".");
    push_dec(&mut out, ip.b);
    out.append(".");
    push_dec(&mut out, ip.c);
    out.append(".");
    push_dec(&mut out, ip.d);
    assert(out@ =~= ipv4_text(*ip));
    out
}

} // verus!

