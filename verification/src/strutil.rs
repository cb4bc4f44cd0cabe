//! Verified helpers over characters and strings.
//!
//! The scanner's character classes, equality and search over `&str`, a
//! whitespace trim, and a decimal rendering of machine integers. Whitespace
//! throughout the calculator means space, tab, newline or carriage return.

use vstd::prelude::*;

verus! {

/// Whether the character is calculator whitespace.
pub open spec fn is_space_char(c: char) -> bool {
    c == ' ' || c == '\t' || c == '\n' || c == '\r'
}

/// Whether the character is an ASCII decimal digit.
pub open spec fn is_digit_char(c: char) -> bool {
    '0' <= c && c <= '9'
}

/// Whether the character is an ASCII letter.
pub open spec fn is_letter_char(c: char) -> bool {
    ('a' <= c && c <= 'z') || ('A' <= c && c <= 'Z')
}

/// Whether the character may continue an identifier: a letter, a digit or an
/// underscore.
pub open spec fn is_ident_char(c: char) -> bool {
    is_letter_char(c) || is_digit_char(c) || c == '_'
}

/// Whether the character is calculator whitespace.
pub fn space_char(c: char) -> (r: bool)
    ensures
        r == is_space_char(c),
{
    c == ' ' || c == '\t' || c == '\n' || c == '\r'
}

/// Whether the character is an ASCII decimal digit.
pub fn digit_char(c: char) -> (r: bool)
    ensures
        r == is_digit_char(c),
{
    '0' <= c && c <= '9'
}

/// Whether the character is an ASCII letter.
pub fn letter_char(c: char) -> (r: bool)
    ensures
        r == is_letter_char(c),
{
    ('a' <= c && c <= 'z') || ('A' <= c && c <= 'Z')
}

/// Whether the character may continue an identifier.
pub fn ident_char(c: char) -> (r: bool)
    ensures
        r == is_ident_char(c),
{
    letter_char(c) || digit_char(c) || c == '_'
}

/// Whether two string slices hold the same characters.
pub fn str_eq(a: &str, b: &str) -> (r: bool)
    ensures
        r == (a@ == b@),
{
    let a_len = a.unicode_len();
    let b_len = b.unicode_len();
    if a_len != b_len {
        return false;
    }
    let mut i: usize = 0;
    while i < a_len
        invariant
            a_len == a@.len(),
            b_len == b@.len(),
            a_len == b_len,
            i <= a_len,
            forall|j: int| 0 <= j < i ==> a@[j] == b@[j],
        decreases a_len - i,
    {
        if a.get_char(i) != b.get_char(i) {
            return false;
        }
        i = i + 1;
    }
    proof {
        assert(a@ =~= b@);
    }
    true
}

/// The index of the first character at or after `i` that is not calculator
/// whitespace, or the length if none is.
pub open spec fn spec_skip_spaces(s: Seq<char>, i: int) -> int
    decreases s.len() - i,
{
    if i < 0 || i >= s.len() {
        i
    } else if is_space_char(s[i]) {
        spec_skip_spaces(s, i + 1)
    } else {
        i
    }
}

/// The index just after the last character before `j` that is not calculator
/// whitespace, or zero if none is.
pub open spec fn spec_skip_spaces_back(s: Seq<char>, j: int) -> int
    decreases j,
{
    if j <= 0 || j > s.len() {
        j
    } else if is_space_char(s[j - 1]) {
        spec_skip_spaces_back(s, j - 1)
    } else {
        j
    }
}

/// The string with leading and trailing calculator whitespace removed.
pub open spec fn spec_trim(s: Seq<char>) -> Seq<char> {
    let lead = spec_skip_spaces(s, 0);
    let trail = spec_skip_spaces_back(s, s.len() as int);
    if lead >= trail {
        Seq::empty()
    } else {
        s.subrange(lead, trail)
    }
}

proof fn lemma_skip_spaces_range(s: Seq<char>, i: int)
    requires
        0 <= i <= s.len(),
    ensures
        i <= spec_skip_spaces(s, i) <= s.len(),
    decreases s.len() - i,
{
    if i < s.len() && is_space_char(s[i]) {
        lemma_skip_spaces_range(s, i + 1);
    }
}

proof fn lemma_skip_spaces_back_range(s: Seq<char>, j: int)
    requires
        0 <= j <= s.len(),
    ensures
        0 <= spec_skip_spaces_back(s, j) <= j,
    decreases j,
{
    if j > 0 && is_space_char(s[j - 1]) {
        lemma_skip_spaces_back_range(s, j - 1);
    }
}

/// Returns the slice with leading and trailing calculator whitespace removed.
pub fn trim(s: &str) -> (r: &str)
    ensures
        r@ == spec_trim(s@),
{
    let len = s.unicode_len();
    let mut lead: usize = 0;
    while lead < len && space_char(s.get_char(lead))
        invariant
            len == s@.len(),
            0 <= lead <= len,
            spec_skip_spaces(s@, 0) == spec_skip_spaces(s@, lead as int),
        decreases len - lead,
    {
        lead = lead + 1;
    }
    assert(spec_skip_spaces(s@, lead as int) == lead as int);
    let mut trail: usize = len;
    while trail > 0 && space_char(s.get_char(trail - 1))
        invariant
            len == s@.len(),
            0 <= trail <= len,
            spec_skip_spaces_back(s@, len as int) == spec_skip_spaces_back(s@, trail as int),
        decreases trail,
    {
        trail = trail - 1;
    }
    assert(spec_skip_spaces_back(s@, trail as int) == trail as int);
    if lead >= trail {
        let r = s.substring_char(0, 0);
        proof {
            assert(r@ =~= spec_trim(s@));
        }
        r
    } else {
        let r = s.substring_char(lead, trail);
        proof {
            assert(r@ =~= spec_trim(s@));
        }
        r
    }
}

/// The decimal digit character of a value below ten.
pub open spec fn spec_digit(d: int) -> char {
    if d == 0 {
        '0'
    } else if d == 1 {
        '1'
    } else if d == 2 {
        '2'
    } else if d == 3 {
        '3'
    } else if d == 4 {
        '4'
    } else if d == 5 {
        '5'
    } else if d == 6 {
        '6'
    } else if d == 7 {
        '7'
    } else if d == 8 {
        '8'
    } else {
        '9'
    }
}

/// The decimal rendering of a natural number, most significant digit first.
pub open spec fn spec_decimal(n: int) -> Seq<char>
    decreases n,
{
    if n < 10 {
        seq![spec_digit(n)]
    } else {
        spec_decimal(n / 10).push(spec_digit(n % 10))
    }
}

/// The decimal digit of a value below ten, as a one-character string.
fn digit_str(d: u64) -> (r: &'static str)
    requires
        d < 10,
    ensures
        r@ =~= seq![spec_digit(d as int)],
{
    proof {
        reveal_strlit("0");
        reveal_strlit("1");
        reveal_strlit("2");
        reveal_strlit("3");
        reveal_strlit("4");
        reveal_strlit("5");
        reveal_strlit("6");
        reveal_strlit("7");
        reveal_strlit("8");
        reveal_strlit("9");
    }
    if d == 0 {
        "0"
    } else if d == 1 {
        "1"
    } else if d == 2 {
        "2"
    } else if d == 3 {
        "3"
    } else if d == 4 {
        "4"
    } else if d == 5 {
        "5"
    } else if d == 6 {
        "6"
    } else if d == 7 {
        "7"
    } else if d == 8 {
        "8"
    } else {
        "9"
    }
}

/// Renders a machine integer in decimal.
pub fn decimal_string(n: u64) -> (r: String)
    ensures
        r@ == spec_decimal(n as int),
    decreases n,
{
    if n < 10 {
        let r = String::from_str(digit_str(n));
        proof {
            assert(r@ =~= spec_decimal(n as int));
        }
        r
    } else {
        let prefix = decimal_string(n / 10);
        let r = prefix.concat(digit_str(n % 10));
        proof {
            assert(r@ =~= spec_decimal(n as int));
        }
        r
    }
}


/// Lexicographic order on character sequences, compared from position `i`.
pub open spec fn lex_le_from(a: Seq<char>, b: Seq<char>, i: int) -> bool
    decreases a.len() - i,
{
    if i >= a.len() {
        true
    } else if i >= b.len() {
        false
    } else if a[i] != b[i] {
        a[i] < b[i]
    } else {
        lex_le_from(a, b, i + 1)
    }
}

/// Lexicographic order on character sequences, as strings compare.
pub open spec fn lex_le(a: Seq<char>, b: Seq<char>) -> bool {
    lex_le_from(a, b, 0)
}

proof fn lemma_lex_total_from(a: Seq<char>, b: Seq<char>, i: int)
    requires
        0 <= i,
    ensures
        lex_le_from(a, b, i) || lex_le_from(b, a, i),
    decreases a.len() - i,
{
    if i < a.len() && i < b.len() && a[i] == b[i] {
        lemma_lex_total_from(a, b, i + 1);
    }
}

/// The lexicographic order is total.
pub proof fn lemma_lex_total(a: Seq<char>, b: Seq<char>)
    ensures
        lex_le(a, b) || lex_le(b, a),
{
    lemma_lex_total_from(a, b, 0);
}

proof fn lemma_lex_trans_from(a: Seq<char>, b: Seq<char>, c: Seq<char>, i: int)
    requires
        0 <= i,
        lex_le_from(a, b, i),
        lex_le_from(b, c, i),
    ensures
        lex_le_from(a, c, i),
    decreases a.len() - i,
{
    if i < a.len() {
        if i < b.len() && i < c.len() && a[i] == b[i] && b[i] == c[i] {
            lemma_lex_trans_from(a, b, c, i + 1);
        }
    }
}

/// The lexicographic order is transitive.
pub proof fn lemma_lex_trans(a: Seq<char>, b: Seq<char>, c: Seq<char>)
    requires
        lex_le(a, b),
        lex_le(b, c),
    ensures
        lex_le(a, c),
{
    lemma_lex_trans_from(a, b, c, 0);
}

/// Whether `a` orders at or before `b` lexicographically.
pub fn str_le(a: &str, b: &str) -> (r: bool)
    ensures
        r == lex_le(a@, b@),
{
    let a_len = a.unicode_len();
    let b_len = b.unicode_len();
    let mut i: usize = 0;
    loop
        invariant
            a_len == a@.len(),
            b_len == b@.len(),
            i <= a_len,
            i <= b_len,
            lex_le(a@, b@) == lex_le_from(a@, b@, i as int),
        decreases a_len - i,
    {
        if i >= a_len {
            return true;
        }
        if i >= b_len {
            return false;
        }
        let ca = a.get_char(i);
        let cb = b.get_char(i);
        if ca != cb {
            return ca < cb;
        }
        i = i + 1;
    }
}


/// Whether `p` occurs in `h` starting at position `i`.
pub open spec fn spec_contains_at(h: Seq<char>, p: Seq<char>, i: int) -> bool {
    0 <= i && i + p.len() <= h.len() && h.subrange(i, i + p.len()) == p
}

/// Whether `p` occurs anywhere in `h`.
pub open spec fn spec_contains(h: Seq<char>, p: Seq<char>) -> bool {
    exists|i: int| spec_contains_at(h, p, i)
}

/// Whether `h` begins with `p`.
pub open spec fn spec_starts_with(h: Seq<char>, p: Seq<char>) -> bool {
    spec_contains_at(h, p, 0)
}

/// An occurrence survives extending the text on the right.
pub proof fn lemma_contains_concat_left(a: Seq<char>, b: Seq<char>, p: Seq<char>)
    requires
        spec_contains(a, p),
    ensures
        spec_contains(a + b, p),
{
    let i = choose|i: int| spec_contains_at(a, p, i);
    assert((a + b).subrange(i, i + p.len()) =~= a.subrange(i, i + p.len()));
    assert(spec_contains_at(a + b, p, i));
}

/// An occurrence survives extending the text on the left.
pub proof fn lemma_contains_concat_right(a: Seq<char>, b: Seq<char>, p: Seq<char>)
    requires
        spec_contains(b, p),
    ensures
        spec_contains(a + b, p),
{
    let i = choose|i: int| spec_contains_at(b, p, i);
    assert((a + b).subrange((a.len() + i) as int, (a.len() + i + p.len()) as int) =~= b.subrange(i, i + p.len()));
    assert(spec_contains_at(a + b, p, (a.len() + i) as int));
}

/// A text contains what is appended to it.
pub proof fn lemma_contains_appended(a: Seq<char>, p: Seq<char>)
    ensures
        spec_contains(a + p, p),
{
    assert((a + p).subrange(a.len() as int, (a.len() + p.len()) as int) =~= p);
    assert(spec_contains_at(a + p, p, a.len() as int));
}

fn match_at(h: &str, n: &str, i: usize) -> (r: bool)
    requires
        i + n@.len() <= h@.len(),
    ensures
        r == (h@.subrange(i as int, i + n@.len()) == n@),
{
    let hl = h.unicode_len();
    let nl = n.unicode_len();
    let mut j: usize = 0;
    while j < nl
        invariant
            hl == h@.len(),
            nl == n@.len(),
            i + nl <= h@.len(),
            j <= nl,
            forall|x: int| 0 <= x < j ==> h@[i + x] == n@[x],
        decreases nl - j,
    {
        if h.get_char(i + j) != n.get_char(j) {
            proof {
                assert(h@.subrange(i as int, i + n@.len())[j as int] != n@[j as int]);
            }
            return false;
        }
        j = j + 1;
    }
    proof {
        assert(h@.subrange(i as int, i + n@.len()) =~= n@);
    }
    true
}

/// Whether `h` begins with `n`.
pub fn str_starts_with(h: &str, n: &str) -> (r: bool)
    ensures
        r == spec_starts_with(h@, n@),
{
    let hl = h.unicode_len();
    let nl = n.unicode_len();
    if nl > hl {
        return false;
    }
    match_at(h, n, 0)
}

/// Whether `n` occurs anywhere in `h`.
pub fn str_contains(h: &str, n: &str) -> (r: bool)
    ensures
        r == spec_contains(h@, n@),
{
    let hl = h.unicode_len();
    let nl = n.unicode_len();
    if nl > hl {
        proof {
            assert forall|i: int| !spec_contains_at(h@, n@, i) by {}
        }
        return false;
    }
    if nl == 0 {
        proof {
            assert(h@.subrange(0, 0) =~= n@);
            assert(spec_contains_at(h@, n@, 0));
        }
        return true;
    }
    let mut i: usize = 0;
    while i <= hl - nl
        invariant
            hl == h@.len(),
            nl == n@.len(),
            1 <= nl <= hl,
            i <= hl - nl + 1,
            forall|x: int| 0 <= x < i ==> !spec_contains_at(h@, n@, x),
        decreases hl - i,
    {
        if match_at(h, n, i) {
            proof {
                assert(spec_contains_at(h@, n@, i as int));
            }
            return true;
        }
        i = i + 1;
    }
    proof {
        assert forall|x: int| !spec_contains_at(h@, n@, x) by {
            if 0 <= x < i {
            }
        }
    }
    false
}

} // verus!


