//! The canonical text encoding used inside the encrypted envelope: compact
//! JSON with a fixed field order, keys sorted, no whitespace, and the same
//! escaping rules for strings that the index files have always used.  The
//! printers produce exactly this form; the parsers accept it and return the
//! value it denotes.
use vstd::prelude::*;

verus! {

/// Lowercase hexadecimal digit for `0 <= n < 16`.
pub open spec fn hex_digit(n: int) -> char {
    if 0 <= n < 10 {
        ((48 + n) as u8) as char
    } else if n < 16 {
        ((87 + n) as u8) as char
    } else {
        '0'
    }
}

/// How one character appears inside a quoted JSON string.
pub open spec fn esc_char(c: char) -> Seq<char> {
    if c == '"' {
        seq!['\\', '"']
    } else if c == '\\' {
        seq!['\\', '\\']
    } else if c == '\u{8}' {
        seq!['\\', 'b']
    } else if c == '\u{9}' {
        seq!['\\', 't']
    } else if c == '\u{a}' {
        seq!['\\', 'n']
    } else if c == '\u{c}' {
        seq!['\\', 'f']
    } else if c == '\u{d}' {
        seq!['\\', 'r']
    } else {
        seq![c]
    }
}

/// The body of a quoted JSON string.
pub open spec fn json_escape(s: Seq<char>) -> Seq<char>
    decreases s.len(),
{
    if s.len() == 0 {
        Seq::empty()
    } else {
        esc_char(s[0]) + json_escape(s.drop_first())
    }
}

/// A quoted JSON string.
pub open spec fn json_quoted(s: Seq<char>) -> Seq<char> {
    seq!['"'] + json_escape(s) + seq!['"']
}

pub proof fn lemma_escape_append(s1: Seq<char>, s2: Seq<char>)
    ensures
        json_escape(s1 + s2) == json_escape(s1) + json_escape(s2),
    decreases s1.len(),
{
    if s1.len() == 0 {
        assert(s1 + s2 =~= s2);
        assert(json_escape(s1) + json_escape(s2) =~= json_escape(s2));
    } else {
        assert((s1 + s2).drop_first() =~= s1.drop_first() + s2);
        lemma_escape_append(s1.drop_first(), s2);
        assert(json_escape(s1 + s2) =~= json_escape(s1) + json_escape(s2));
    }
}

/// Decimal digits of a natural number, most significant first.
pub open spec fn dec_nat(n: nat) -> Seq<char>
    decreases n,
{
    if n < 10 {
        seq![hex_digit(n as int)]
    } else {
        dec_nat(n / 10) + seq![hex_digit((n % 10) as int)]
    }
}

/// Decimal form of an integer, with a leading minus sign when negative.
pub open spec fn dec_int(v: int) -> Seq<char> {
    if v < 0 {
        seq!['-'] + dec_nat((-v) as nat)
    } else {
        dec_nat(v as nat)
    }
}

/// Append the characters of `s` to `out`.
pub fn push_str_chars(out: &mut Vec<char>, s: &str)
    ensures
        final(out)@ == old(out)@ + s@,
{
    let n = s.unicode_len();
    let mut i: usize = 0;
    while i < n
        invariant
            0 <= i <= n,
            n == s@.len(),
            out@ == old(out)@ + s@.take(i as int),
        decreases n - i,
    {
        out.push(s.get_char(i));
        proof {
            assert(s@.take(i + 1) =~= s@.take(i as int) + seq![s@[i as int]]);
            assert(old(out)@ + s@.take(i + 1) =~= (old(out)@ + s@.take(i as int)) + seq![
                s@[i as int],
            ]);
        }
        i = i + 1;
    }
    assert(s@.take(n as int) =~= s@);
}

fn hex_digit_exec(n: u32) -> (c: char)
    requires
        n < 16,
    ensures
        c == hex_digit(n as int),
{
    if n < 10 {
        ((48 + n) as u8) as char
    } else {
        ((87 + n) as u8) as char
    }
}

/// Append the escaped form of one character.
fn push_esc_char(out: &mut Vec<char>, c: char)
    ensures
        final(out)@ == old(out)@ + esc_char(c),
{
    if c == '"' {
        out.push('\\');
        out.push('"');
        assert(out@ =~= old(out)@ + esc_char(c));
    } else if c == '\\' {
        out.push('\\');
        out.push('\\');
        assert(out@ =~= old(out)@ + esc_char(c));
    } else if c == '\u{8}' {
        out.push('\\');
        out.push('b');
        assert(out@ =~= old(out)@ + esc_char(c));
    } else if c == '\u{9}' {
        out.push('\\');
        out.push('t');
        assert(out@ =~= old(out)@ + esc_char(c));
    } else if c == '\u{a}' {
        out.push('\\');
        out.push('n');
        assert(out@ =~= old(out)@ + esc_char(c));
    } else if c == '\u{c}' {
        out.push('\\');
        out.push('f');
        assert(out@ =~= old(out)@ + esc_char(c));
    } else if c == '\u{d}' {
        out.push('\\');
        out.push('r');
        assert(out@ =~= old(out)@ + esc_char(c));
    } else {
        out.push(c);
        assert(out@ =~= old(out)@ + esc_char(c));
    }
}

/// Append a quoted JSON string holding the characters of `s`.
pub fn push_quoted(out: &mut Vec<char>, s: &str)
    ensures
        final(out)@ == old(out)@ + json_quoted(s@),
{
    out.push('"');
    let n = s.unicode_len();
    let mut i: usize = 0;
    while i < n
        invariant
            0 <= i <= n,
            n == s@.len(),
            out@ == old(out)@ + seq!['"'] + json_escape(s@.take(i as int)),
        decreases n - i,
    {
        let c = s.get_char(i);
        push_esc_char(out, c);
        proof {
            assert(s@.take(i + 1) =~= s@.take(i as int) + seq![s@[i as int]]);
            lemma_escape_append(s@.take(i as int), seq![s@[i as int]]);
            assert(seq![s@[i as int]].drop_first() =~= Seq::<char>::empty());
            assert(esc_char(s@[i as int]) + json_escape(Seq::<char>::empty()) =~= esc_char(
                s@[i as int],
            ));
            assert(json_escape(seq![s@[i as int]]) =~= esc_char(s@[i as int]));
            assert(out@ =~= old(out)@ + seq!['"'] + json_escape(s@.take(i + 1)));
        }
        i = i + 1;
    }
    out.push('"');
    assert(s@.take(n as int) =~= s@);
    assert(out@ =~= old(out)@ + json_quoted(s@));
}

/// Append the decimal form of `n`.
#[verifier::rlimit(50)]
pub fn push_u64(out: &mut Vec<char>, n: u64)
    ensures
        final(out)@ == old(out)@ + dec_nat(n as nat),
{
    let mut digits: Vec<char> = Vec::new();
    let mut m: u64 = n;
    loop
        invariant_except_break
            dec_nat(n as nat) =~= dec_nat(m as nat) + digits@.reverse(),
        ensures
            dec_nat(n as nat) =~= digits@.reverse(),
        decreases m,
    {
        let ghost dpre = digits@;
        let dc = hex_digit_exec((m % 10) as u32);
        digits.push(dc);
        proof {
            assert(digits@ =~= dpre.push(dc));
            assert(dpre.push(dc).reverse() =~= seq![dc] + dpre.reverse());
        }
        if m < 10 {
            proof {
                assert(dec_nat(m as nat) =~= seq![hex_digit((m % 10) as int)]);
                assert(dec_nat(n as nat) =~= digits@.reverse());
            }
            break;
        }
        proof {
            assert(dec_nat(m as nat) =~= dec_nat((m / 10) as nat) + seq![
                hex_digit((m % 10) as int),
            ]);
            assert(dec_nat((m / 10) as nat) + (seq![dc] + dpre.reverse()) =~= (dec_nat(
                (m / 10) as nat,
            ) + seq![dc]) + dpre.reverse());
        }
        m = m / 10;
    }
    let mut k: usize = digits.len();
    assert(dec_nat(n as nat) =~= digits@.reverse());
    while k > 0
        invariant
            0 <= k <= digits@.len(),
            dec_nat(n as nat) =~= digits@.reverse(),
            out@ == old(out)@ + digits@.reverse().take(digits@.len() - k),
        decreases k,
    {
        let c = digits[k - 1];
        out.push(c);
        proof {
            let r = digits@.reverse();
            assert(r[digits@.len() - k] == digits@[k - 1]);
            assert(r.take(digits@.len() - (k - 1)) =~= r.take(digits@.len() - k) + seq![
                r[digits@.len() - k],
            ]);
            assert(out@ =~= old(out)@ + r.take(digits@.len() - (k - 1)));
        }
        k = k - 1;
    }
    assert(digits@.reverse().take(digits@.len() as int) =~= digits@.reverse());
}

/// A decimal digit.
pub open spec fn is_digit(c: char) -> bool {
    48 <= (c as u32) && (c as u32) <= 57
}

/// The value of a decimal digit.
pub open spec fn digval(c: char) -> int {
    (c as u32) - 48
}

/// The character denoted by the escape `\e`, if `e` is a recognized escape.
pub open spec fn unesc_char(e: char) -> Option<char> {
    if e == '"' {
        Some('"')
    } else if e == '\\' {
        Some('\\')
    } else if e == '/' {
        Some('/')
    } else if e == 'b' {
        Some('\u{8}')
    } else if e == 't' {
        Some('\u{9}')
    } else if e == 'n' {
        Some('\u{a}')
    } else if e == 'f' {
        Some('\u{c}')
    } else if e == 'r' {
        Some('\u{d}')
    } else {
        None
    }
}

/// Parse the body of a quoted string starting just after the opening quote:
/// the unescaped content and the position just past the closing quote.
pub open spec fn sp_strbody(inp: Seq<char>, i: int) -> Option<(Seq<char>, int)>
    decreases inp.len() - i,
{
    if i < 0 || i >= inp.len() {
        None
    } else {
        let c = inp[i];
        if c == '"' {
            Some((Seq::empty(), i + 1))
        } else if c == '\\' {
            if i + 1 >= inp.len() {
                None
            } else {
                match unesc_char(inp[i + 1]) {
                    Option::None => None,
                    Option::Some(u) => match sp_strbody(inp, i + 2) {
                        Option::None => None,
                        Option::Some(sj) => Some((seq![u] + sj.0, sj.1)),
                    },
                }
            }
        } else {
            match sp_strbody(inp, i + 1) {
                Option::None => None,
                Option::Some(sj) => Some((seq![c] + sj.0, sj.1)),
            }
        }
    }
}

/// Parse a quoted string starting at its opening quote.
pub open spec fn sp_quoted(inp: Seq<char>, i: int) -> Option<(Seq<char>, int)> {
    if 0 <= i && i < inp.len() && inp[i] == '"' {
        sp_strbody(inp, i + 1)
    } else {
        None
    }
}

/// Match the exact characters of `lit` at `i`.
pub open spec fn sp_lit(inp: Seq<char>, i: int, lit: Seq<char>) -> Option<int> {
    if 0 <= i && i + lit.len() <= inp.len() && inp.subrange(i, i + lit.len()) == lit {
        Some(i + lit.len())
    } else {
        None
    }
}

/// Length of the run of decimal digits starting at `i`.
pub open spec fn digits_run(inp: Seq<char>, i: int) -> int
    decreases inp.len() - i,
{
    if i < 0 || i >= inp.len() || !is_digit(inp[i]) {
        0
    } else {
        1 + digits_run(inp, i + 1)
    }
}

/// The number denoted by a sequence of decimal digits, most significant
/// first.
pub open spec fn val_digits(s: Seq<char>) -> int
    decreases s.len(),
{
    if s.len() == 0 {
        0
    } else {
        val_digits(s.drop_last()) * 10 + digval(s.last())
    }
}

/// Parse an unsigned decimal number.
pub open spec fn sp_nat(inp: Seq<char>, i: int) -> Option<(int, int)> {
    let n = digits_run(inp, i);
    if i < 0 || n == 0 {
        None
    } else {
        Some((val_digits(inp.subrange(i, i + n)), i + n))
    }
}

/// Parse a decimal integer with an optional leading minus sign.
pub open spec fn sp_int(inp: Seq<char>, i: int) -> Option<(int, int)> {
    if i < 0 || i >= inp.len() {
        None
    } else if inp[i] == '-' {
        match sp_nat(inp, i + 1) {
            Option::None => None,
            Option::Some(vj) => Some((-vj.0, vj.1)),
        }
    } else {
        sp_nat(inp, i)
    }
}

/// Append the decimal form of `v`.
pub fn push_i64(out: &mut Vec<char>, v: i64)
    ensures
        final(out)@ == old(out)@ + dec_int(v as int),
{
    if v < 0 {
        out.push('-');
        let mag: u64 = if v == i64::MIN {
            9223372036854775808u64
        } else {
            (-v) as u64
        };
        assert(mag as nat == (-(v as int)) as nat);
        push_u64(out, mag);
        assert(out@ =~= old(out)@ + dec_int(v as int));
    } else {
        push_u64(out, v as u64);
        assert(out@ =~= old(out)@ + dec_int(v as int));
    }
}

/// A window of the input that equals `full` can be split: any sub-window of
/// it equals the matching subrange of `full`.
pub proof fn lemma_subrange_shift(inp: Seq<char>, i: int, a: int, b: int, full: Seq<char>)
    requires
        0 <= i,
        i + full.len() <= inp.len(),
        inp.subrange(i, i + full.len()) == full,
        0 <= a <= b <= full.len(),
    ensures
        inp.subrange(i + a, i + b) =~= full.subrange(a, b),
{
    assert forall|k: int| 0 <= k < b - a implies inp.subrange(i + a, i + b)[k] == full.subrange(
        a,
        b,
    )[k] by {
        assert(inp[i + a + k] == inp.subrange(i, i + full.len())[a + k]);
    }
}

/// Strip the escape prefix of the current character from the window: what
/// remains of the input still holds the rest of the escaped body and the
/// closing quote.
proof fn proof_subwindow(inp: Seq<char>, i: int, off: int, sub: Seq<char>, erest: Seq<char>)
    requires
        0 <= i,
        0 <= off,
        sub.len() == off + erest.len() + 1,
        i + sub.len() <= inp.len(),
        inp.subrange(i, i + sub.len()) == sub,
        sub.subrange(off, sub.len() as int) == erest + seq!['"'],
    ensures
        inp.subrange(i + off, i + off + erest.len() + 1) =~= erest + seq!['"'],
{
    lemma_subrange_shift(inp, i, off, sub.len() as int, sub);
}

/// The escaped form of a character is either the character itself (raw) or a
/// two-character escape that unescapes back to it.
proof fn lemma_esc_char_shape(c: char)
    ensures
        esc_char(c).len() == 1 || esc_char(c).len() == 2,
        esc_char(c).len() == 1 ==> esc_char(c)[0] == c && c != '"' && c != '\\',
        esc_char(c).len() == 2 ==> esc_char(c)[0] == '\\' && unesc_char(esc_char(c)[1])
            == Some(c),
{
}

/// Parsing a printed string body: the escaped form of `s` followed by a
/// closing quote parses back to exactly `s`.
pub proof fn lemma_strbody_round_trip(s: Seq<char>, inp: Seq<char>, i: int)
    requires
        0 <= i,
        i + json_escape(s).len() + 1 <= inp.len(),
        inp.subrange(i, i + json_escape(s).len() + 1) == json_escape(s) + seq!['"'],
    ensures
        sp_strbody(inp, i) == Some((s, i + json_escape(s).len() + 1)),
    decreases s.len(),
{
    let esc = json_escape(s);
    let sub = inp.subrange(i, i + esc.len() + 1);
    if s.len() == 0 {
        assert(esc =~= Seq::<char>::empty());
        assert(inp[i] == sub[0]);
        assert(inp[i] == '"');
        assert(s =~= Seq::<char>::empty());
    } else {
        let c = s[0];
        let e0 = esc_char(c);
        let rest = s.drop_first();
        lemma_esc_char_shape(c);
        assert(esc == e0 + json_escape(rest));
        let erest = json_escape(rest);
        if e0.len() == 1 {
            assert(inp[i] == sub[0]);
            assert(sub[0] == (e0 + erest + seq!['"'])[0]) by {
                assert(sub =~= (e0 + erest) + seq!['"']);
            }
            assert(inp[i] == c);
            assert(sub.subrange(1, sub.len() as int) =~= erest + seq!['"']);
            proof_subwindow(inp, i, 1, sub, erest);
            lemma_strbody_round_trip(rest, inp, i + 1);
            assert(sp_strbody(inp, i) == Some((seq![c] + rest, i + 1 + erest.len() + 1)));
            assert(seq![c] + rest =~= s);
        } else {
            assert(inp[i] == sub[0] && inp[i + 1] == sub[1]);
            assert(sub =~= (e0 + erest) + seq!['"']);
            assert(sub[0] == e0[0] && sub[1] == e0[1]);
            assert(inp[i] == '\\');
            assert(unesc_char(inp[i + 1]) == Some(c));
            assert(sub.subrange(2, sub.len() as int) =~= erest + seq!['"']);
            proof_subwindow(inp, i, 2, sub, erest);
            lemma_strbody_round_trip(rest, inp, i + 2);
            assert(sp_strbody(inp, i) == Some((seq![c] + rest, i + 2 + erest.len() + 1)));
            assert(seq![c] + rest =~= s);
        }
    }
}

/// Parsing a printed quoted string yields back the characters it escaped.
pub proof fn lemma_quoted_round_trip(s: Seq<char>, inp: Seq<char>, i: int)
    requires
        0 <= i,
        i + json_quoted(s).len() <= inp.len(),
        inp.subrange(i, i + json_quoted(s).len()) == json_quoted(s),
    ensures
        sp_quoted(inp, i) == Some((s, i + json_quoted(s).len())),
{
    let q = json_quoted(s);
    let esc = json_escape(s);
    assert(inp[i] == inp.subrange(i, i + q.len())[0]);
    assert(q[0] == '"');
    assert(inp[i] == '"');
    lemma_subrange_shift(inp, i, 1, q.len() as int, q);
    assert(q.subrange(1, q.len() as int) =~= esc + seq!['"']);
    assert(inp.subrange(i + 1, i + 1 + esc.len() + 1) =~= esc + seq!['"']);
    lemma_strbody_round_trip(s, inp, i + 1);
}

/// The decimal digits of a number are digits, start with the most
/// significant, and denote the number.
pub proof fn lemma_dec_nat_digits(n: nat)
    ensures
        dec_nat(n).len() >= 1,
        forall|k: int| 0 <= k < dec_nat(n).len() ==> is_digit(#[trigger] dec_nat(n)[k]),
        val_digits(dec_nat(n)) == n,
    decreases n,
{
    if n < 10 {
        assert(dec_nat(n) =~= seq![hex_digit(n as int)]);
        assert((hex_digit(n as int) as u32) == 48 + n) by {
            let b = (48 + n) as u8;
            assert(b as u32 == 48 + n);
        }
        let s1 = seq![hex_digit(n as int)];
        assert(s1.drop_last() =~= Seq::<char>::empty());
        assert(val_digits(Seq::<char>::empty()) == 0);
        assert(s1.last() == hex_digit(n as int));
        assert(val_digits(s1) == 0 * 10 + digval(hex_digit(n as int)));
        assert(val_digits(dec_nat(n)) == digval(hex_digit(n as int)));
    } else {
        lemma_dec_nat_digits(n / 10);
        let d = hex_digit((n % 10) as int);
        assert((d as u32) == 48 + (n % 10)) by {
            let b = (48 + (n % 10)) as u8;
            assert(b as u32 == 48 + (n % 10));
        }
        assert(dec_nat(n) == dec_nat(n / 10) + seq![d]);
        assert(dec_nat(n).drop_last() =~= dec_nat(n / 10));
        assert(dec_nat(n).last() == d);
        assert(val_digits(dec_nat(n)) == val_digits(dec_nat(n / 10)) * 10 + digval(d));
        assert((n / 10) * 10 + (n % 10) == n);
        assert(forall|k: int|
            0 <= k < dec_nat(n).len() ==> is_digit(#[trigger] dec_nat(n)[k])) by {
            assert(forall|k: int|
                0 <= k < dec_nat(n / 10).len() ==> dec_nat(n)[k] == dec_nat(n / 10)[k]);
            assert(dec_nat(n)[dec_nat(n).len() - 1] == d);
        }
    }
}

/// A digit run surrounded as expected: if every position in `[i, j)` holds a
/// digit and `j` is the end of input or a non-digit, the run from `i` has
/// length `j - i`.
pub proof fn lemma_digits_run_exact(inp: Seq<char>, i: int, j: int)
    requires
        0 <= i <= j <= inp.len(),
        forall|k: int| i <= k < j ==> is_digit(#[trigger] inp[k]),
        j < inp.len() ==> !is_digit(inp[j]),
    ensures
        digits_run(inp, i) == j - i,
    decreases j - i,
{
    if i < j {
        lemma_digits_run_exact(inp, i + 1, j);
    }
}

/// Parsing the printed decimal of `n` followed by a non-digit yields `n`.
pub proof fn lemma_sp_nat_round_trip(n: nat, inp: Seq<char>, i: int)
    requires
        0 <= i,
        i + dec_nat(n).len() <= inp.len(),
        inp.subrange(i, i + dec_nat(n).len()) == dec_nat(n),
        i + dec_nat(n).len() < inp.len() ==> !is_digit(inp[i + dec_nat(n).len()]),
    ensures
        sp_nat(inp, i) == Some((n as int, i + dec_nat(n).len())),
{
    let d = dec_nat(n);
    lemma_dec_nat_digits(n);
    assert(forall|k: int| i <= k < i + d.len() ==> is_digit(#[trigger] inp[k])) by {
        assert(forall|k: int|
            i <= k < i + d.len() ==> #[trigger] inp[k] == inp.subrange(i, i + d.len())[k - i]);
    }
    lemma_digits_run_exact(inp, i, i + d.len());
    assert(digits_run(inp, i) == d.len());
    assert(inp.subrange(i, i + digits_run(inp, i)) == d);
}

/// Parsing the printed decimal of `v` followed by a non-digit yields `v`.
pub proof fn lemma_sp_int_round_trip(v: int, inp: Seq<char>, i: int)
    requires
        0 <= i,
        i + dec_int(v).len() <= inp.len(),
        inp.subrange(i, i + dec_int(v).len()) == dec_int(v),
        i + dec_int(v).len() < inp.len() ==> !is_digit(inp[i + dec_int(v).len()]),
    ensures
        sp_int(inp, i) == Some((v, i + dec_int(v).len())),
{
    let d = dec_int(v);
    if v < 0 {
        let m = (-v) as nat;
        assert(d == seq!['-'] + dec_nat(m));
        assert(inp[i] == inp.subrange(i, i + d.len())[0]);
        assert(inp[i] == '-');
        lemma_subrange_shift(inp, i, 1, d.len() as int, d);
        assert(d.subrange(1, d.len() as int) =~= dec_nat(m));
        assert(inp.subrange(i + 1, i + 1 + dec_nat(m).len()) =~= dec_nat(m));
        lemma_sp_nat_round_trip(m, inp, i + 1);
        assert(sp_int(inp, i) == Some((v, i + d.len())));
    } else {
        assert(d == dec_nat(v as nat));
        lemma_sp_nat_round_trip(v as nat, inp, i);
        assert(inp[i] == inp.subrange(i, i + d.len())[0]);
        lemma_dec_nat_digits(v as nat);
        assert(is_digit(inp[i]));
        assert(inp[i] != '-') by {
            assert(('-' as u32) == 45);
        }
    }
}

/// Match the exact characters of `lit` at `pos`, returning the position just
/// past it.
pub fn expect_lit(inp: &Vec<char>, pos: usize, lit: &str) -> (r: Option<usize>)
    ensures
        match r {
            Option::Some(j) => sp_lit(inp@, pos as int, lit@) == Some(j as int),
            Option::None => sp_lit(inp@, pos as int, lit@) is None,
        },
{
    let n = inp.len();
    let m = lit.unicode_len();
    if m > n || pos > n - m {
        assert(sp_lit(inp@, pos as int, lit@) is None) by {
            if pos + lit@.len() <= inp@.len() {
                assert(false);
            }
        }
        return None;
    }
    let mut i: usize = 0;
    while i < m
        invariant
            0 <= i <= m,
            pos + m <= n,
            n == inp@.len(),
            m == lit@.len(),
            inp@.subrange(pos as int, pos + i) =~= lit@.take(i as int),
        decreases m - i,
    {
        if inp[pos + i] != lit.get_char(i) {
            assert(sp_lit(inp@, pos as int, lit@) is None) by {
                if inp@.subrange(pos as int, pos + lit@.len()) == lit@ {
                    assert(inp@.subrange(pos as int, pos + lit@.len())[i as int] == inp@[pos + i]);
                }
            }
            return None;
        }
        proof {
            assert(inp@.subrange(pos as int, pos + (i + 1)) =~= inp@.subrange(pos as int, pos + i)
                + seq![inp@[pos + i]]);
            assert(lit@.take(i + 1) =~= lit@.take(i as int) + seq![lit@[i as int]]);
        }
        i = i + 1;
    }
    assert(inp@.subrange(pos as int, pos + m) =~= lit@) by {
        assert(lit@.take(m as int) =~= lit@);
    }
    Some(pos + m)
}

fn unesc_char_exec(e: char) -> (r: Option<char>)
    ensures
        r == unesc_char(e),
{
    if e == '"' {
        Some('"')
    } else if e == '\\' {
        Some('\\')
    } else if e == '/' {
        Some('/')
    } else if e == 'b' {
        Some('\u{8}')
    } else if e == 't' {
        Some('\u{9}')
    } else if e == 'n' {
        Some('\u{a}')
    } else if e == 'f' {
        Some('\u{c}')
    } else if e == 'r' {
        Some('\u{d}')
    } else {
        None
    }
}

/// Parse a quoted string starting at `pos`; on success, the unescaped content
/// and the position just past the closing quote.
pub fn parse_quoted(inp: &Vec<char>, pos: usize) -> (r: Option<(String, usize)>)
    ensures
        match r {
            Option::Some(sj) => sp_quoted(inp@, pos as int) == Some((sj.0@, sj.1 as int)) && sj.1
                <= inp@.len() && sj.1 > pos,
            Option::None => sp_quoted(inp@, pos as int) is None,
        },
{
    let n = inp.len();
    if pos >= n || inp[pos] != '"' {
        return None;
    }
    let mut acc: Vec<char> = Vec::new();
    let mut cur: usize = pos + 1;
    loop
        invariant
            pos + 1 <= cur <= n,
            n == inp@.len(),
            inp@[pos as int] == '"',
            sp_strbody(inp@, pos as int + 1) == (match sp_strbody(inp@, cur as int) {
                Option::None => None::<(Seq<char>, int)>,
                Option::Some(sj) => Some((acc@ + sj.0, sj.1)),
            }),
        decreases n - cur,
    {
        if cur == n {
            assert(sp_strbody(inp@, cur as int) is None);
            return None;
        }
        let c = inp[cur];
        if c == '"' {
            proof {
                assert(sp_strbody(inp@, cur as int) == Some((Seq::<char>::empty(), cur + 1)));
                assert(acc@ + Seq::<char>::empty() =~= acc@);
            }
            let s = crate::chars::chars_to_string(&acc);
            return Some((s, cur + 1));
        } else if c == '\\' {
            if cur + 1 == n {
                assert(sp_strbody(inp@, cur as int) is None);
                return None;
            }
            let e = inp[cur + 1];
            match unesc_char_exec(e) {
                Option::None => {
                    assert(sp_strbody(inp@, cur as int) is None);
                    return None;
                },
                Option::Some(u) => {
                    let ghost apre = acc@;
                    acc.push(u);
                    proof {
                        assert(sp_strbody(inp@, cur as int) == (match sp_strbody(
                            inp@,
                            cur as int + 2,
                        ) {
                            Option::None => None::<(Seq<char>, int)>,
                            Option::Some(sj) => Some((seq![u] + sj.0, sj.1)),
                        }));
                        if sp_strbody(inp@, cur as int + 2) is Some {
                            let sj = sp_strbody(inp@, cur as int + 2)->Some_0;
                            assert(apre + (seq![u] + sj.0) =~= (apre + seq![u]) + sj.0);
                            assert(acc@ =~= apre + seq![u]);
                        }
                    }
                    cur = cur + 2;
                },
            }
        } else {
            let ghost apre = acc@;
            acc.push(c);
            proof {
                assert(sp_strbody(inp@, cur as int) == (match sp_strbody(inp@, cur as int + 1) {
                    Option::None => None::<(Seq<char>, int)>,
                    Option::Some(sj) => Some((seq![c] + sj.0, sj.1)),
                }));
                if sp_strbody(inp@, cur as int + 1) is Some {
                    let sj = sp_strbody(inp@, cur as int + 1)->Some_0;
                    assert(apre + (seq![c] + sj.0) =~= (apre + seq![c]) + sj.0);
                    assert(acc@ =~= apre + seq![c]);
                }
            }
            cur = cur + 1;
        }
    }
}

fn is_digit_exec(c: char) -> (r: bool)
    ensures
        r == is_digit(c),
{
    let v = c as u32;
    48 <= v && v <= 57
}

/// A sequence of digits denotes a non-negative number.
proof fn lemma_val_digits_nonneg(s: Seq<char>)
    requires
        forall|k: int| 0 <= k < s.len() ==> is_digit(#[trigger] s[k]),
    ensures
        val_digits(s) >= 0,
    decreases s.len(),
{
    if s.len() > 0 {
        lemma_val_digits_nonneg(s.drop_last());
    }
}

/// Parse a decimal integer at `pos`.  Returns the value and the position just
/// past it; a number outside the `i64` range is rejected.
pub fn parse_i64(inp: &Vec<char>, pos: usize) -> (r: Option<(i64, usize)>)
    ensures
        match r {
            Option::Some(vj) => sp_int(inp@, pos as int) == Some((vj.0 as int, vj.1 as int))
                && vj.1 <= inp@.len() && vj.1 > pos,
            Option::None => match sp_int(inp@, pos as int) {
                Option::None => true,
                Option::Some(vj) => vj.0 < i64::MIN as int || vj.0 > i64::MAX as int,
            },
        },
{
    let n = inp.len();
    if pos >= n {
        return None;
    }
    let neg = inp[pos] == '-';
    let dstart: usize = if neg {
        pos + 1
    } else {
        pos
    };
    let mut cur: usize = dstart;
    let mut mag: u128 = 0;
    let mut too_big = false;
    while cur < n && is_digit_exec(inp[cur])
        invariant
            dstart <= cur <= n,
            n == inp@.len(),
            forall|j: int| dstart <= j < cur ==> is_digit(#[trigger] inp@[j]),
            !too_big ==> mag == val_digits(inp@.subrange(dstart as int, cur as int)) && mag
                <= 9223372036854775808u128,
            too_big ==> val_digits(inp@.subrange(dstart as int, cur as int))
                > 9223372036854775808,
        decreases n - cur,
    {
        let c = inp[cur];
        let d: u128 = (c as u32 - 48) as u128;
        proof {
            let pre = inp@.subrange(dstart as int, cur as int);
            let post = inp@.subrange(dstart as int, cur + 1);
            assert(post.drop_last() =~= pre);
            assert(post.last() == inp@[cur as int]);
            assert(val_digits(post) == val_digits(pre) * 10 + digval(inp@[cur as int]));
            lemma_val_digits_nonneg(pre);
        }
        if too_big {
            proof {
                let pre = inp@.subrange(dstart as int, cur as int);
                let post = inp@.subrange(dstart as int, cur + 1);
                assert(val_digits(pre) * 10 > 9223372036854775808) by {
                    assert(val_digits(pre) > 9223372036854775808);
                };
                assert(val_digits(post) > 9223372036854775808);
            }
        } else {
            let next: u128 = mag * 10 + d;
            if next > 9223372036854775808u128 {
                too_big = true;
            } else {
                mag = next;
            }
        }
        cur = cur + 1;
    }
    proof {
        lemma_digits_run_exact(inp@, dstart as int, cur as int);
    }
    if cur == dstart {
        return None;
    }
    let ghost v = inp@.subrange(dstart as int, cur as int);
    assert(sp_nat(inp@, dstart as int) == Some((val_digits(v), cur as int)));
    if neg {
        assert(sp_int(inp@, pos as int) == Some((-val_digits(v), cur as int)));
        if too_big {
            return None;
        }
        if mag == 9223372036854775808u128 {
            return Some((i64::MIN, cur));
        }
        let m64: i64 = mag as i64;
        return Some((-m64, cur));
    } else {
        assert(inp@[pos as int] != '-');
        assert(sp_int(inp@, pos as int) == Some((val_digits(v), cur as int)));
        if too_big {
            return None;
        }
        if mag > 9223372036854775807u128 {
            return None;
        }
        return Some((mag as i64, cur));
    }
}

} // verus!
