//! Character-level helpers shared by the text formats and the key index:
//! lexicographic order on character sequences, equality and prefix tests on
//! string slices, and conversions between strings and character vectors.
use vstd::prelude::*;

verus! {

/// Lexicographic order on character sequences by code point.
pub open spec fn lex_lt(a: Seq<char>, b: Seq<char>) -> bool
    decreases a.len(),
{
    if b.len() == 0 {
        false
    } else if a.len() == 0 {
        true
    } else if a[0] == b[0] {
        lex_lt(a.drop_first(), b.drop_first())
    } else {
        (a[0] as u32) < (b[0] as u32)
    }
}

pub proof fn lemma_lex_irreflexive(a: Seq<char>)
    ensures
        !lex_lt(a, a),
    decreases a.len(),
{
    if a.len() > 0 {
        lemma_lex_irreflexive(a.drop_first());
    }
}

pub proof fn lemma_lex_asymmetric(a: Seq<char>, b: Seq<char>)
    requires
        lex_lt(a, b),
    ensures
        !lex_lt(b, a),
    decreases a.len(),
{
    if b.len() > 0 && a.len() > 0 && a[0] == b[0] {
        lemma_lex_asymmetric(a.drop_first(), b.drop_first());
    }
}

pub proof fn lemma_lex_transitive(a: Seq<char>, b: Seq<char>, c: Seq<char>)
    requires
        lex_lt(a, b),
        lex_lt(b, c),
    ensures
        lex_lt(a, c),
    decreases a.len(),
{
    if a.len() > 0 && b.len() > 0 && c.len() > 0 {
        if a[0] == b[0] && b[0] == c[0] {
            lemma_lex_transitive(a.drop_first(), b.drop_first(), c.drop_first());
        }
    }
}

/// If two sequences agree on their first `i` characters, their order is
/// decided by the remainders.
pub proof fn lemma_lex_skip(a: Seq<char>, b: Seq<char>, i: int)
    requires
        0 <= i <= a.len(),
        i <= b.len(),
        a.take(i) =~= b.take(i),
    ensures
        lex_lt(a, b) == lex_lt(a.skip(i), b.skip(i)),
    decreases i,
{
    if i > 0 {
        assert(a.take(i)[0] == a[0]);
        assert(b.take(i)[0] == b[0]);
        assert(a[0] == b[0]);
        assert(a.drop_first().take(i - 1) =~= a.take(i).drop_first());
        assert(b.drop_first().take(i - 1) =~= b.take(i).drop_first());
        lemma_lex_skip(a.drop_first(), b.drop_first(), i - 1);
        assert(a.drop_first().skip(i - 1) =~= a.skip(i));
        assert(b.drop_first().skip(i - 1) =~= b.skip(i));
        assert(lex_lt(a, b) == lex_lt(a.drop_first(), b.drop_first()));
    } else {
        assert(a.skip(0) =~= a);
        assert(b.skip(0) =~= b);
    }
}

/// Three-way comparison of string slices: `-1` for less, `0` for equal, `1`
/// for greater, in the order of [`lex_lt`].
pub fn str_cmp(a: &str, b: &str) -> (r: i8)
    ensures
        r == -1 || r == 0 || r == 1,
        (r == -1) == lex_lt(a@, b@),
        (r == 0) == (a@ =~= b@),
        (r == 1) == lex_lt(b@, a@),
{
    let al = a.unicode_len();
    let bl = b.unicode_len();
    let mut i: usize = 0;
    loop
        invariant
            0 <= i <= al,
            i <= bl,
            al == a@.len(),
            bl == b@.len(),
            a@.take(i as int) =~= b@.take(i as int),
        decreases al - i,
    {
        if i == al || i == bl {
            proof {
                lemma_lex_skip(a@, b@, i as int);
                lemma_lex_skip(b@, a@, i as int);
            }
            if al < bl {
                assert(lex_lt(a@, b@));
                proof {
                    lemma_lex_asymmetric(a@, b@);
                }
                return -1;
            } else if bl < al {
                assert(lex_lt(b@, a@));
                proof {
                    lemma_lex_asymmetric(b@, a@);
                }
                return 1;
            } else {
                assert(a@ =~= a@.take(i as int));
                assert(b@ =~= b@.take(i as int));
                assert(a@ =~= b@);
                proof {
                    lemma_lex_irreflexive(a@);
                }
                return 0;
            }
        }
        let ca = a.get_char(i);
        let cb = b.get_char(i);
        if ca != cb {
            proof {
                lemma_lex_skip(a@, b@, i as int);
                lemma_lex_skip(b@, a@, i as int);
                assert(a@.skip(i as int)[0] == a@[i as int]);
                assert(b@.skip(i as int)[0] == b@[i as int]);
                assert((ca as u32) != (cb as u32));
                if a@ =~= b@ {
                    assert(a@[i as int] == b@[i as int]);
                }
            }
            if (ca as u32) < (cb as u32) {
                assert(lex_lt(a@, b@));
                proof {
                    lemma_lex_asymmetric(a@, b@);
                }
                return -1;
            } else {
                assert(lex_lt(b@, a@));
                proof {
                    lemma_lex_asymmetric(b@, a@);
                }
                return 1;
            }
        }
        proof {
            assert(a@.take(i + 1) =~= a@.take(i as int) + seq![a@[i as int]]);
            assert(b@.take(i + 1) =~= b@.take(i as int) + seq![b@[i as int]]);
        }
        i = i + 1;
    }
}

/// Equality of string slices as character sequences.
pub fn str_eq(a: &str, b: &str) -> (r: bool)
    ensures
        r == (a@ =~= b@),
{
    let al = a.unicode_len();
    let bl = b.unicode_len();
    if al != bl {
        return false;
    }
    let mut i: usize = 0;
    loop
        invariant
            0 <= i <= al,
            al == a@.len(),
            bl == b@.len(),
            al == bl,
            a@.take(i as int) =~= b@.take(i as int),
        decreases al - i,
    {
        if i == al {
            assert(a@ =~= a@.take(i as int));
            assert(b@ =~= b@.take(i as int));
            return true;
        }
        let ca = a.get_char(i);
        let cb = b.get_char(i);
        if ca != cb {
            assert(a@[i as int] != b@[i as int]);
            return false;
        }
        proof {
            assert(a@.take(i + 1) =~= a@.take(i as int) + seq![a@[i as int]]);
            assert(b@.take(i + 1) =~= b@.take(i as int) + seq![b@[i as int]]);
        }
        i = i + 1;
    }
}

/// Whether `p` is a prefix of `s`.
pub fn str_starts_with(s: &str, p: &str) -> (r: bool)
    ensures
        r == p@.is_prefix_of(s@),
{
    let sl = s.unicode_len();
    let pl = p.unicode_len();
    if pl > sl {
        assert(!p@.is_prefix_of(s@));
        return false;
    }
    let mut i: usize = 0;
    loop
        invariant
            0 <= i <= pl,
            pl <= sl,
            sl == s@.len(),
            pl == p@.len(),
            p@.take(i as int) =~= s@.take(i as int),
        decreases pl - i,
    {
        if i == pl {
            assert(p@ =~= p@.take(i as int));
            assert(s@.take(i as int) =~= s@.subrange(0, i as int));
            return true;
        }
        let cs = s.get_char(i);
        let cp = p.get_char(i);
        if cp != cs {
            assert(!p@.is_prefix_of(s@)) by {
                assert(p@[i as int] != s@[i as int]);
            }
            return false;
        }
        proof {
            assert(p@.take(i + 1) =~= p@.take(i as int) + seq![p@[i as int]]);
            assert(s@.take(i + 1) =~= s@.take(i as int) + seq![s@[i as int]]);
        }
        i = i + 1;
    }
}

/// Elementwise equality of two character vectors.
pub fn chars_eq(a: &Vec<char>, b: &Vec<char>) -> (r: bool)
    ensures
        r == (a@ =~= b@),
{
    let n = a.len();
    if n != b.len() {
        return false;
    }
    let mut i: usize = 0;
    while i < n
        invariant
            0 <= i <= n,
            n == a@.len(),
            n == b@.len(),
            forall|j: int| 0 <= j < i ==> (#[trigger] a@[j]) == b@[j],
        decreases n - i,
    {
        if a[i] != b[i] {
            return false;
        }
        i = i + 1;
    }
    true
}

/// The characters of a string slice as a vector.
pub fn str_to_chars(s: &str) -> (r: Vec<char>)
    ensures
        r@ =~= s@,
{
    let n = s.unicode_len();
    let mut out: Vec<char> = Vec::new();
    let mut i: usize = 0;
    while i < n
        invariant
            0 <= i <= n,
            n == s@.len(),
            out@ =~= s@.take(i as int),
        decreases n - i,
    {
        out.push(s.get_char(i));
        proof {
            assert(s@.take(i + 1) =~= s@.take(i as int) + seq![s@[i as int]]);
        }
        i = i + 1;
    }
    assert(s@ =~= s@.take(n as int));
    out
}

/// Relies on `String`'s `FromIterator` over characters: collecting the
/// characters of a vector yields the string with exactly that character
/// sequence as its view.
#[verifier::external_body]
pub fn chars_to_string(v: &Vec<char>) -> (r: String)
    ensures
        r@ == v@,
{
    v.iter().collect()
}

/// ASCII whitespace recognized when trimming key material.
pub open spec fn is_ws(c: char) -> bool {
    c == ' ' || c == '\t' || c == '\n' || c == '\r'
}

pub open spec fn trim_start_idx(s: Seq<char>) -> int
    decreases s.len(),
{
    if s.len() == 0 {
        0
    } else if is_ws(s[0]) {
        1 + trim_start_idx(s.drop_first())
    } else {
        0
    }
}

pub open spec fn trim_end_idx(s: Seq<char>) -> int
    decreases s.len(),
{
    if s.len() == 0 {
        0
    } else if is_ws(s[s.len() - 1]) {
        trim_end_idx(s.drop_last())
    } else {
        s.len() as int
    }
}

/// The trimmed form of a sequence: leading and trailing ASCII whitespace
/// removed.
pub open spec fn trim_spec(s: Seq<char>) -> Seq<char> {
    if trim_start_idx(s) <= trim_end_idx(s) {
        s.subrange(trim_start_idx(s), trim_end_idx(s))
    } else {
        Seq::empty()
    }
}

/// ASCII lowercase of one character.
pub open spec fn lower_char(c: char) -> char {
    if 65 <= (c as u32) && (c as u32) <= 90 {
        (((c as u32) + 32) as u8) as char
    } else {
        c
    }
}

/// ASCII lowercase of a sequence.
pub open spec fn lower_spec(s: Seq<char>) -> Seq<char> {
    s.map_values(|c: char| lower_char(c))
}

fn lower_char_exec(c: char) -> (r: char)
    ensures
        r == lower_char(c),
{
    let v = c as u32;
    if 65 <= v && v <= 90 {
        ((v + 32) as u8) as char
    } else {
        c
    }
}

/// The ASCII-lowercase form of a string slice.
pub fn str_to_ascii_lower(s: &str) -> (r: String)
    ensures
        r@ == lower_spec(s@),
{
    let n = s.unicode_len();
    let mut out: Vec<char> = Vec::new();
    let mut i: usize = 0;
    while i < n
        invariant
            0 <= i <= n,
            n == s@.len(),
            out@ =~= lower_spec(s@.take(i as int)),
        decreases n - i,
    {
        out.push(lower_char_exec(s.get_char(i)));
        proof {
            assert(lower_spec(s@.take(i + 1)) =~= lower_spec(s@.take(i as int)).push(
                lower_char(s@[i as int]),
            ));
        }
        i = i + 1;
    }
    proof {
        assert(lower_spec(s@.take(n as int)) =~= lower_spec(s@));
    }
    chars_to_string(&out)
}

proof fn lemma_trim_start_char(s: Seq<char>, i: int)
    requires
        0 <= i <= s.len(),
        forall|j: int| 0 <= j < i ==> is_ws(s[j]),
        i < s.len() ==> !is_ws(s[i]),
    ensures
        trim_start_idx(s) == i,
    decreases s.len(),
{
    if s.len() == 0 {
    } else if is_ws(s[0]) {
        assert(i >= 1) by {
            assert(i < s.len() ==> !is_ws(s[i]));
        }
        assert(forall|j: int| 0 <= j < i - 1 ==> s.drop_first()[j] == s[j + 1]);
        lemma_trim_start_char(s.drop_first(), i - 1);
    } else {
        assert(i == 0) by {
            if i > 0 {
                assert(is_ws(s[0]));
            }
        }
    }
}

proof fn lemma_trim_end_char(s: Seq<char>, i: int)
    requires
        0 <= i <= s.len(),
        forall|j: int| i <= j < s.len() ==> is_ws(s[j]),
        i > 0 ==> !is_ws(s[i - 1]),
    ensures
        trim_end_idx(s) == i,
    decreases s.len(),
{
    if s.len() == 0 {
    } else if is_ws(s[s.len() - 1]) {
        assert(i < s.len() as int);
        assert(forall|j: int| i <= j < s.len() - 1 ==> s.drop_last()[j] == s[j]);
        lemma_trim_end_char(s.drop_last(), i);
    } else {
        assert(i == s.len() as int) by {
            if i < s.len() {
                assert(is_ws(s[s.len() - 1]));
            }
        }
    }
}

fn is_ws_exec(c: char) -> (r: bool)
    ensures
        r == is_ws(c),
{
    c == ' ' || c == '\t' || c == '\n' || c == '\r'
}

/// Leading and trailing ASCII whitespace removed.
pub fn str_trim(s: &str) -> (r: &str)
    ensures
        r@ =~= trim_spec(s@),
{
    let n = s.unicode_len();
    let mut start: usize = 0;
    while start < n && is_ws_exec(s.get_char(start))
        invariant
            0 <= start <= n,
            n == s@.len(),
            forall|j: int| 0 <= j < start ==> is_ws(s@[j]),
        decreases n - start,
    {
        start = start + 1;
    }
    proof {
        lemma_trim_start_char(s@, start as int);
    }
    let mut end: usize = n;
    while end > start && is_ws_exec(s.get_char(end - 1))
        invariant
            start <= end <= n,
            n == s@.len(),
            forall|j: int| end <= j < n ==> is_ws(s@[j]),
            trim_start_idx(s@) == start as int,
        decreases end,
    {
        end = end - 1;
    }
    if end == start {
        // either the string is empty, or every character is whitespace: the
        // loops only meet when no non-whitespace character was found
        proof {
            if start < n {
                assert(is_ws(s@[start as int]));
                assert(!is_ws(s@[start as int]));
            }
            lemma_trim_end_char(s@, 0);
        }
        let r = s.substring_char(0, 0);
        assert(r@ =~= trim_spec(s@));
        r
    } else {
        proof {
            lemma_trim_end_char(s@, end as int);
        }
        let r = s.substring_char(start, end);
        assert(r@ =~= trim_spec(s@));
        r
    }
}

} // verus!
